//! The mathematical model of the ledger: what each operation does to the map of
//! stored items, what a batch asks for and what it does.
use crate::item::{is_request_kind, Item, Op, OpType, Rec};
use crate::maps::{members, IndexMap, ItemMap};
use vstd::prelude::*;
use vstd::seq_lib::seq_to_set_is_finite;
use vstd::set::fold::{is_fun_commutative, lemma_fold_empty, lemma_fold_insert};

verus! {

/// The amount stored under `k`; 0 where nothing is.
pub open spec fn qty(m: ItemMap, k: Seq<char>) -> int {
    if m.contains_key(k) {
        m[k].3 as int
    } else {
        0
    }
}

/// The stored item under `k` with its amount raised by `amount`.
pub open spec fn raised(m: ItemMap, k: Seq<char>, amount: u64) -> Rec {
    (m[k].0, m[k].1, m[k].2, (m[k].3 + amount) as u64)
}

/// The stored item under `k` with its amount lowered by `amount`.
pub open spec fn lowered(m: ItemMap, k: Seq<char>, amount: u64) -> Rec {
    (m[k].0, m[k].1, m[k].2, (m[k].3 - amount) as u64)
}

/// Adding `amount` under `k`: a stored item is raised and keeps its type and
/// configuration ids; otherwise a new item is created, unless `amount` is 0, which
/// changes nothing.
pub open spec fn add_model(m: ItemMap, k: Seq<char>, type_id: u32, cfg_id: u64, amount: u64) -> ItemMap {
    if m.contains_key(k) {
        m.insert(k, raised(m, k, amount))
    } else if amount == 0 {
        m
    } else {
        m.insert(k, (k, type_id, cfg_id, amount))
    }
}

/// Raising a stored item only; nothing is created.
pub open spec fn incr_model(m: ItemMap, k: Seq<char>, amount: u64) -> ItemMap {
    if m.contains_key(k) {
        m.insert(k, raised(m, k, amount))
    } else {
        m
    }
}

/// Lowering a stored item; one that reaches 0 is removed.
pub open spec fn decr_model(m: ItemMap, k: Seq<char>, amount: u64) -> ItemMap {
    if !m.contains_key(k) {
        m
    } else if m[k].3 == amount {
        m.remove(k)
    } else {
        m.insert(k, lowered(m, k, amount))
    }
}

/// What one request does: the next map and the effect entries it yields (none or
/// one).
pub open spec fn step(m: ItemMap, op: Op) -> (ItemMap, Seq<(OpType, Rec)>) {
    let k = op.token@;
    if op.op_type == OpType::Incr {
        let next = add_model(m, k, op.type_id, op.cfg_id, op.amount);
        if m.contains_key(k) {
            (next, seq![(OpType::Incr, next[k])])
        } else if op.amount == 0 {
            (next, Seq::empty())
        } else {
            (next, seq![(OpType::New, next[k])])
        }
    } else if op.op_type == OpType::Decr {
        let next = decr_model(m, k, op.amount);
        if !m.contains_key(k) {
            (next, Seq::empty())
        } else if m[k].3 == op.amount {
            (next, seq![(OpType::Delete, (m[k].0, m[k].1, m[k].2, 0u64))])
        } else {
            (next, seq![(OpType::Decr, next[k])])
        }
    } else {
        (m, Seq::empty())
    }
}

/// A batch applied in order: the final map and the effect log.
pub open spec fn run(m: ItemMap, ops: Seq<Op>) -> (ItemMap, Seq<(OpType, Rec)>)
    decreases ops.len(),
{
    if ops.len() == 0 {
        (m, Seq::empty())
    } else {
        let (m1, e1) = step(m, ops[0]);
        let (m2, e2) = run(m1, ops.skip(1));
        (m2, e1 + e2)
    }
}

/// The amount that `op` takes from `k`.
pub open spec fn decr_part(op: Op, k: Seq<char>) -> int {
    if op.op_type == OpType::Decr && op.token@ == k {
        op.amount as int
    } else {
        0
    }
}

/// The amount that `op` adds to `k`.
pub open spec fn incr_part(op: Op, k: Seq<char>) -> int {
    if op.op_type == OpType::Incr && op.token@ == k {
        op.amount as int
    } else {
        0
    }
}

/// The sum of all decrements of `k` in a batch.
pub open spec fn decr_sum(ops: Seq<Op>, k: Seq<char>) -> int
    decreases ops.len(),
{
    if ops.len() == 0 {
        0
    } else {
        decr_part(ops[0], k) + decr_sum(ops.skip(1), k)
    }
}

/// The sum of all increments of `k` in a batch.
pub open spec fn incr_sum(ops: Seq<Op>, k: Seq<char>) -> int
    decreases ops.len(),
{
    if ops.len() == 0 {
        0
    } else {
        incr_part(ops[0], k) + incr_sum(ops.skip(1), k)
    }
}

/// Every operation of the batch is a request (an increment or a decrement).
pub open spec fn all_requests(ops: Seq<Op>) -> bool {
    forall|i: int| 0 <= i < ops.len() ==> is_request_kind(#[trigger] ops[i].op_type)
}

/// The stored amounts before the batch cover it: every token that the batch
/// decrements is stored, with at least the sum of all its decrements. Increments
/// in the batch do not count.
pub open spec fn feasible(m: ItemMap, ops: Seq<Op>) -> bool {
    forall|i: int|
        0 <= i < ops.len() && #[trigger] ops[i].op_type == OpType::Decr ==> m.contains_key(ops[i].token@)
            && decr_sum(ops, ops[i].token@) <= m[ops[i].token@].3
}

/// No amount can pass `u64::MAX` while the batch runs: for every token, what is
/// stored plus all the batch's increments of it fits.
pub open spec fn increments_fit(m: ItemMap, ops: Seq<Op>) -> bool {
    forall|k: Seq<char>| qty(m, k) + #[trigger] incr_sum(ops, k) <= u64::MAX
}

/// Whether the ledger's parts agree: each stored item is filed under its own
/// token with a positive amount, and each index holds exactly the stored tokens
/// of each id.
pub open spec fn store_wf(items: ItemMap, types: IndexMap, cfgs: IndexMap) -> bool {
    &&& items.dom().finite()
    &&& forall|k: Seq<char>| #[trigger] items.contains_key(k) ==> items[k].0 == k && items[k].3 > 0
    &&& forall|id: u64, k: Seq<char>| #[trigger] members(types, id).contains(k)
        <==> (items.contains_key(k) && items[k].1 as u64 == id)
    &&& forall|id: u64, k: Seq<char>| #[trigger] members(cfgs, id).contains(k)
        <==> (items.contains_key(k) && items[k].2 == id)
}

/// The tokens of the stored items of type `type_id`.
pub open spec fn of_type(m: ItemMap, type_id: u32) -> Set<Seq<char>> {
    m.dom().filter(|k: Seq<char>| m[k].1 == type_id)
}

/// The tokens of the stored items of configuration `cfg_id`.
pub open spec fn of_cfg(m: ItemMap, cfg_id: u64) -> Set<Seq<char>> {
    m.dom().filter(|k: Seq<char>| m[k].2 == cfg_id)
}

/// The tokens of a sequence of items.
pub open spec fn tokens(s: Seq<Item>) -> Seq<Seq<char>> {
    s.map_values(|it: Item| it.token@)
}

/// `s` lists, each once, the stored items under the tokens `keys`.
pub open spec fn lists(m: ItemMap, keys: Set<Seq<char>>, s: Seq<Item>) -> bool {
    &&& tokens(s).no_duplicates()
    &&& tokens(s).to_set() == keys
    &&& forall|i: int| 0 <= i < s.len() ==> m.contains_key(#[trigger] s[i].token@) && m[s[i].token@] == s[i]@
}

/// The summand of a total: the amount stored under `k`.
pub open spec fn add_qty(m: ItemMap) -> spec_fn(int, Seq<char>) -> int {
    |acc: int, k: Seq<char>| acc + qty(m, k)
}

/// The sum of the amounts stored under the tokens `keys`.
pub open spec fn total(m: ItemMap, keys: Set<Seq<char>>) -> int {
    keys.fold(0int, add_qty(m))
}

/// The sum of the amounts stored under the tokens of `ks`, in order.
pub open spec fn seq_total(m: ItemMap, ks: Seq<Seq<char>>) -> int
    decreases ks.len(),
{
    if ks.len() == 0 {
        0
    } else {
        seq_total(m, ks.drop_last()) + qty(m, ks.last())
    }
}

/// The sum of the amounts of a sequence of items.
pub open spec fn amount_sum(s: Seq<Item>) -> int
    decreases s.len(),
{
    if s.len() == 0 {
        0
    } else {
        amount_sum(s.drop_last()) + s.last().amount
    }
}

/// The effect entries of an effect log as values.
pub open spec fn effect_views(v: Seq<(OpType, Item)>) -> Seq<(OpType, Rec)> {
    v.map_values(|e: (OpType, Item)| (e.0, e.1@))
}

/// Changing the amount of a stored item to another positive one keeps the parts
/// in agreement.
pub proof fn lemma_wf_set_amount(items: ItemMap, types: IndexMap, cfgs: IndexMap, k: Seq<char>, amount: u64)
    requires
        store_wf(items, types, cfgs),
        items.contains_key(k),
        amount > 0,
    ensures
        store_wf(items.insert(k, (items[k].0, items[k].1, items[k].2, amount)), types, cfgs),
{
    let next = items.insert(k, (items[k].0, items[k].1, items[k].2, amount));
    assert forall|id: u64, j: Seq<char>| #[trigger] members(types, id).contains(j)
        <==> (next.contains_key(j) && next[j].1 as u64 == id) by {}
    assert forall|id: u64, j: Seq<char>| #[trigger] members(cfgs, id).contains(j)
        <==> (next.contains_key(j) && next[j].2 == id) by {}
}

/// Storing a new item and filing its token under its ids keeps the parts in
/// agreement.
pub proof fn lemma_wf_create(
    items: ItemMap,
    types: IndexMap,
    cfgs: IndexMap,
    k: Seq<char>,
    type_id: u32,
    cfg_id: u64,
    amount: u64,
)
    requires
        store_wf(items, types, cfgs),
        !items.contains_key(k),
        amount > 0,
    ensures
        store_wf(
            items.insert(k, (k, type_id, cfg_id, amount)),
            types.insert(type_id as u64, members(types, type_id as u64).insert(k)),
            cfgs.insert(cfg_id, members(cfgs, cfg_id).insert(k)),
        ),
{
    let next = items.insert(k, (k, type_id, cfg_id, amount));
    let t2 = types.insert(type_id as u64, members(types, type_id as u64).insert(k));
    let c2 = cfgs.insert(cfg_id, members(cfgs, cfg_id).insert(k));
    assert forall|id: u64, j: Seq<char>| #[trigger] members(t2, id).contains(j)
        <==> (next.contains_key(j) && next[j].1 as u64 == id) by {
        if id != type_id as u64 {
            assert(members(t2, id) == members(types, id));
        }
    }
    assert forall|id: u64, j: Seq<char>| #[trigger] members(c2, id).contains(j)
        <==> (next.contains_key(j) && next[j].2 == id) by {
        if id != cfg_id {
            assert(members(c2, id) == members(cfgs, id));
        }
    }
}

/// The index after taking `k` out of the set under `id`, as the index wrapper
/// does it.
pub open spec fn unfiled(ix: IndexMap, id: u64, k: Seq<char>) -> IndexMap {
    if ix.contains_key(id) {
        ix.insert(id, ix[id].remove(k))
    } else {
        ix
    }
}

/// Removing a stored item and taking its token out of both indices keeps the
/// parts in agreement.
pub proof fn lemma_wf_remove(items: ItemMap, types: IndexMap, cfgs: IndexMap, k: Seq<char>)
    requires
        store_wf(items, types, cfgs),
        items.contains_key(k),
    ensures
        store_wf(
            items.remove(k),
            unfiled(types, items[k].1 as u64, k),
            unfiled(cfgs, items[k].2, k),
        ),
{
    let next = items.remove(k);
    let t2 = unfiled(types, items[k].1 as u64, k);
    let c2 = unfiled(cfgs, items[k].2, k);
    assert(members(types, items[k].1 as u64).contains(k));
    assert(members(cfgs, items[k].2).contains(k));
    assert forall|id: u64, j: Seq<char>| #[trigger] members(t2, id).contains(j)
        <==> (next.contains_key(j) && next[j].1 as u64 == id) by {
        if id != items[k].1 as u64 {
            assert(members(t2, id) == members(types, id));
        } else {
            assert(members(t2, id) == members(types, id).remove(k));
        }
    }
    assert forall|id: u64, j: Seq<char>| #[trigger] members(c2, id).contains(j)
        <==> (next.contains_key(j) && next[j].2 == id) by {
        if id != items[k].2 {
            assert(members(c2, id) == members(cfgs, id));
        } else {
            assert(members(c2, id) == members(cfgs, id).remove(k));
        }
    }
}

/// The sums of a batch from `i` on: the part of operation `i` plus the sums from
/// `i + 1` on.
pub proof fn lemma_sums_unfold(ops: Seq<Op>, i: int)
    requires
        0 <= i < ops.len(),
    ensures
        forall|k: Seq<char>| #[trigger] decr_sum(ops.skip(i), k) == decr_part(ops[i], k) + decr_sum(ops.skip(i + 1), k),
        forall|k: Seq<char>| #[trigger] incr_sum(ops.skip(i), k) == incr_part(ops[i], k) + incr_sum(ops.skip(i + 1), k),
{
    assert(ops.skip(i).skip(1) =~= ops.skip(i + 1));
    assert(ops.skip(i)[0] == ops[i]);
}

/// The sums of a batch are never negative.
pub proof fn lemma_sums_nonneg(ops: Seq<Op>, k: Seq<char>)
    ensures
        decr_sum(ops, k) >= 0,
        incr_sum(ops, k) >= 0,
    decreases ops.len(),
{
    if ops.len() > 0 {
        lemma_sums_nonneg(ops.skip(1), k);
    }
}

/// A batch's decrements of `k` from `j` on sum to no more than all of them.
pub proof fn lemma_decr_sum_suffix(ops: Seq<Op>, j: int, k: Seq<char>)
    requires
        0 <= j <= ops.len(),
    ensures
        decr_sum(ops.skip(j), k) <= decr_sum(ops, k),
    decreases j,
{
    if j == 0 {
        assert(ops.skip(0) =~= ops);
    } else {
        lemma_decr_sum_suffix(ops, j - 1, k);
        lemma_sums_unfold(ops, j - 1);
        lemma_sums_nonneg(ops.skip(j), k);
    }
}

/// A batch's increments of `k` from `j` on sum to no more than all of them.
pub proof fn lemma_incr_sum_suffix(ops: Seq<Op>, j: int, k: Seq<char>)
    requires
        0 <= j <= ops.len(),
    ensures
        incr_sum(ops.skip(j), k) <= incr_sum(ops, k),
    decreases j,
{
    if j == 0 {
        assert(ops.skip(0) =~= ops);
    } else {
        lemma_incr_sum_suffix(ops, j - 1, k);
        lemma_sums_unfold(ops, j - 1);
        lemma_sums_nonneg(ops.skip(j), k);
    }
}

/// A batch with no decrement of `k` takes nothing from it.
pub proof fn lemma_decr_sum_none(ops: Seq<Op>, k: Seq<char>)
    requires
        forall|i: int| 0 <= i < ops.len() ==> decr_part(#[trigger] ops[i], k) == 0,
    ensures
        decr_sum(ops, k) == 0,
    decreases ops.len(),
{
    if ops.len() > 0 {
        assert forall|i: int| 0 <= i < ops.skip(1).len() implies decr_part(#[trigger] ops.skip(1)[i], k) == 0 by {
            assert(ops.skip(1)[i] == ops[i + 1]);
        }
        lemma_decr_sum_none(ops.skip(1), k);
    }
}

/// A batch with no increment of `k` adds nothing to it.
pub proof fn lemma_incr_sum_none(ops: Seq<Op>, k: Seq<char>)
    requires
        forall|i: int| 0 <= i < ops.len() ==> incr_part(#[trigger] ops[i], k) == 0,
    ensures
        incr_sum(ops, k) == 0,
    decreases ops.len(),
{
    if ops.len() > 0 {
        assert forall|i: int| 0 <= i < ops.skip(1).len() implies incr_part(#[trigger] ops.skip(1)[i], k) == 0 by {
            assert(ops.skip(1)[i] == ops[i + 1]);
        }
        lemma_incr_sum_none(ops.skip(1), k);
    }
}

/// A batch split at `i`: the run of the whole is the first operation's step
/// followed by the run of the rest.
pub proof fn lemma_run_unfold(m: ItemMap, ops: Seq<Op>, i: int)
    requires
        0 <= i < ops.len(),
    ensures
        run(m, ops.skip(i)) == ({
            let (m1, e1) = step(m, ops[i]);
            let (m2, e2) = run(m1, ops.skip(i + 1));
            (m2, e1 + e2)
        }),
{
    assert(ops.skip(i).skip(1) =~= ops.skip(i + 1));
    assert(ops.skip(i)[0] == ops[i]);
}

/// What one request does to each stored amount: an increment adds its amount to
/// its token, a decrement takes its amount off, and nothing else changes.
pub proof fn lemma_step_qty(m: ItemMap, op: Op)
    requires
        is_request_kind(op.op_type),
        op.op_type == OpType::Incr ==> qty(m, op.token@) + op.amount <= u64::MAX,
        op.op_type == OpType::Decr ==> op.amount <= qty(m, op.token@),
    ensures
        forall|k: Seq<char>| #[trigger] qty(step(m, op).0, k) == qty(m, k) + incr_part(op, k) - decr_part(op, k),
{
    assert forall|k: Seq<char>| #[trigger] qty(step(m, op).0, k) == qty(m, k) + incr_part(op, k) - decr_part(op, k) by {
        if k != op.token@ {
            assert(step(m, op).0.contains_key(k) == m.contains_key(k));
        }
    }
}

/// The order in which a total adds amounts does not matter.
pub proof fn lemma_add_qty_commutative(m: ItemMap)
    ensures
        is_fun_commutative(add_qty(m)),
{
    assert forall|a1: Seq<char>, a2: Seq<char>, b: int| #[trigger] add_qty(m)(add_qty(m)(b, a2), a1)
        == add_qty(m)(add_qty(m)(b, a1), a2) by {}
}

/// Adding up the amounts under distinct tokens in sequence gives the total of
/// their set.
pub proof fn lemma_seq_total_is_total(m: ItemMap, ks: Seq<Seq<char>>)
    requires
        ks.no_duplicates(),
    ensures
        seq_total(m, ks) == total(m, ks.to_set()),
    decreases ks.len(),
{
    lemma_add_qty_commutative(m);
    if ks.len() == 0 {
        assert(ks.to_set() =~= Set::<Seq<char>>::empty());
        lemma_fold_empty(0int, add_qty(m));
    } else {
        let init = ks.drop_last();
        assert forall|i: int, j: int| 0 <= i < init.len() && 0 <= j < init.len() && i != j implies init[i]
            != init[j] by {
            assert(init[i] == ks[i] && init[j] == ks[j]);
        }
        lemma_seq_total_is_total(m, init);
        assert(ks.to_set() =~= init.to_set().insert(ks.last())) by {
            assert forall|a: Seq<char>| ks.to_set().contains(a) implies init.to_set().insert(ks.last()).contains(a) by {
                let i = choose|i: int| 0 <= i < ks.len() && ks[i] == a;
                if i < ks.len() - 1 {
                    assert(init[i] == a);
                }
            }
            assert forall|a: Seq<char>| init.to_set().contains(a) implies ks.to_set().contains(a) by {
                let i = choose|i: int| 0 <= i < init.len() && init[i] == a;
                assert(ks[i] == a);
            }
        }
        assert(!init.to_set().contains(ks.last())) by {
            if init.contains(ks.last()) {
                let i = choose|i: int| 0 <= i < init.len() && init[i] == ks.last();
                assert(ks[i] == ks[ks.len() - 1]);
            }
        }
        seq_to_set_is_finite(init);
        lemma_fold_insert(init.to_set(), 0int, add_qty(m), ks.last());
    }
}

/// The amounts under the first `i` tokens add up to no more than those under all.
pub proof fn lemma_seq_total_prefix(m: ItemMap, ks: Seq<Seq<char>>, i: int)
    requires
        0 <= i <= ks.len(),
    ensures
        seq_total(m, ks.take(i)) <= seq_total(m, ks),
    decreases ks.len(),
{
    if i == ks.len() {
        assert(ks.take(i) =~= ks);
    } else {
        lemma_seq_total_prefix(m, ks.drop_last(), i);
        assert(ks.drop_last().take(i) =~= ks.take(i));
    }
}

} // verus!
