//! The ledger: a map of items from token to item, with two indices, by type id
//! and by configuration id, kept in step with it by every mutation.
use crate::item::{is_request_kind, BagError, Item, Op, OpType};
use crate::maps::{
    index_add, index_members, index_new, index_of, index_remove, items_get, items_insert, items_keys,
    items_new, items_of, items_remove, members, views, IndexMap, ItemMap,
};
use crate::model::{
    add_model, all_requests, decr_model, decr_part, decr_sum, effect_views, feasible, incr_model, incr_part,
    incr_sum, increments_fit, lemma_decr_sum_none, lemma_decr_sum_suffix, lemma_incr_sum_none,
    lemma_incr_sum_suffix, lemma_run_unfold, lemma_seq_total_is_total, lemma_seq_total_prefix, lemma_step_qty,
    lemma_sums_nonneg, lemma_sums_unfold, lemma_wf_create, lemma_wf_remove, lemma_wf_set_amount, lists, of_cfg,
    of_type, qty, run, seq_total, step, store_wf, tokens, total,
};
use dashmap::DashMap;
use std::collections::HashSet;
use vstd::prelude::*;

verus! {

/// The ledger. A type id is filed in its index widened to `u64`.
pub struct Bag {
    items: DashMap<String, Item>,
    type_indices: DashMap<u64, HashSet<String>>,
    cfg_indices: DashMap<u64, HashSet<String>>,
}

impl View for Bag {
    type V = ItemMap;

    closed spec fn view(&self) -> ItemMap {
        items_of(self.items)
    }
}

/// The effect entries of an optional effect.
pub open spec fn opt_effect(e: Option<(OpType, Item)>) -> Seq<(OpType, crate::item::Rec)> {
    match e {
        Some(x) => seq![(x.0, x.1@)],
        None => Seq::empty(),
    }
}

impl Bag {
    /// The index by type id.
    pub closed spec fn type_index(&self) -> IndexMap {
        index_of(self.type_indices)
    }

    /// The index by configuration id.
    pub closed spec fn cfg_index(&self) -> IndexMap {
        index_of(self.cfg_indices)
    }

    /// The ledger's parts agree; every operation keeps this.
    pub open spec fn wf(&self) -> bool {
        store_wf(self@, self.type_index(), self.cfg_index())
    }

    /// An empty ledger.
    pub fn new() -> (r: Bag)
        ensures
            r.wf(),
            r@ == ItemMap::empty(),
    {
        let r = Bag { items: items_new(), type_indices: index_new(), cfg_indices: index_new() };
        proof {
            assert forall|id: u64, k: Seq<char>| #[trigger] members(r.type_index(), id).contains(k)
                <==> (r@.contains_key(k) && r@[k].1 as u64 == id) by {}
            assert forall|id: u64, k: Seq<char>| #[trigger] members(r.cfg_index(), id).contains(k)
                <==> (r@.contains_key(k) && r@[k].2 == id) by {}
        }
        r
    }

    /// The item stored under `token`; `NotFound` where there is none.
    pub fn get(&self, token: &String) -> (r: Result<Item, BagError>)
        requires
            self.wf(),
        ensures
            r is Err <==> !self@.contains_key(token@),
            r is Err ==> r == Err::<Item, BagError>(BagError::NotFound),
            r matches Ok(it) ==> it@ == self@[token@],
    {
        match items_get(&self.items, token) {
            Some(it) => Ok(it),
            None => Err(BagError::NotFound),
        }
    }

    /// The amount stored under `token`; 0 where nothing is.
    pub fn amount(&self, token: &String) -> (r: u64)
        requires
            self.wf(),
        ensures
            r == qty(self@, token@),
    {
        match items_get(&self.items, token) {
            Some(it) => it.amount,
            None => 0,
        }
    }

    /// Raises the item under `token` by `amount`, or creates it with the given ids
    /// when it is not stored and `amount` is not 0. Returns the effect: `Incr` with
    /// the raised item, `New` with the created one, or none.
    fn raise(&mut self, token: &String, type_id: u32, cfg_id: u64, amount: u64) -> (r: Option<(OpType, Item)>)
        requires
            old(self).wf(),
            qty(old(self)@, token@) + amount <= u64::MAX,
        ensures
            final(self).wf(),
            final(self)@ == add_model(old(self)@, token@, type_id, cfg_id, amount),
            (final(self)@, opt_effect(r)) == step(
                old(self)@,
                crate::item::Op { op_type: OpType::Incr, token: *token, type_id, cfg_id, amount },
            ),
    {
        match items_get(&self.items, token) {
            Some(it) => {
                let next = Item::new(it.token.clone(), it.type_id, it.cfg_id, it.amount + amount);
                let effect = next.duplicate();
                items_insert(&mut self.items, token.clone(), next);
                proof {
                    lemma_wf_set_amount(old(self)@, old(self).type_index(), old(self).cfg_index(), token@, next.amount);
                    assert(self@ =~= add_model(old(self)@, token@, type_id, cfg_id, amount));
                }
                Some((OpType::Incr, effect))
            },
            None => {
                if amount == 0 {
                    return None;
                }
                index_add(&mut self.type_indices, type_id as u64, token);
                index_add(&mut self.cfg_indices, cfg_id, token);
                let created = Item::new(token.clone(), type_id, cfg_id, amount);
                let effect = created.duplicate();
                items_insert(&mut self.items, token.clone(), created);
                proof {
                    lemma_wf_create(old(self)@, old(self).type_index(), old(self).cfg_index(), token@, type_id, cfg_id, amount);
                    assert(self@ =~= add_model(old(self)@, token@, type_id, cfg_id, amount));
                }
                Some((OpType::New, effect))
            },
        }
    }

    /// Lowers the item under `token` by `amount`, removing it and its index
    /// entries when it reaches 0. Returns the effect: `Decr` with the lowered item,
    /// `Delete` with the removed one at amount 0, or none when nothing is stored.
    fn lower(&mut self, token: &String, amount: u64) -> (r: Option<(OpType, Item)>)
        requires
            old(self).wf(),
            old(self)@.contains_key(token@) ==> amount <= old(self)@[token@].3,
        ensures
            final(self).wf(),
            final(self)@ == decr_model(old(self)@, token@, amount),
            (final(self)@, opt_effect(r)) == step(
                old(self)@,
                crate::item::Op { op_type: OpType::Decr, token: *token, type_id: 0, cfg_id: 0, amount },
            ),
    {
        match items_get(&self.items, token) {
            Some(it) => {
                if it.amount == amount {
                    index_remove(&mut self.type_indices, it.type_id as u64, token);
                    index_remove(&mut self.cfg_indices, it.cfg_id, token);
                    items_remove(&mut self.items, token);
                    proof {
                        lemma_wf_remove(old(self)@, old(self).type_index(), old(self).cfg_index(), token@);
                    }
                    let gone = Item::new(it.token, it.type_id, it.cfg_id, 0);
                    Some((OpType::Delete, gone))
                } else {
                    let next = Item::new(it.token.clone(), it.type_id, it.cfg_id, it.amount - amount);
                    let effect = next.duplicate();
                    items_insert(&mut self.items, token.clone(), next);
                    proof {
                        lemma_wf_set_amount(old(self)@, old(self).type_index(), old(self).cfg_index(), token@, next.amount);
                        assert(self@ =~= decr_model(old(self)@, token@, amount));
                    }
                    Some((OpType::Decr, effect))
                }
            },
            None => None,
        }
    }
}

/// Whether the decrements of `token` in `ops` sum to at most `limit`.
fn decrements_within(ops: &Vec<Op>, token: &String, limit: u64) -> (r: bool)
    ensures
        r == (decr_sum(ops@, token@) <= limit),
{
    let mut acc: u64 = 0;
    let mut j: usize = ops.len();
    proof {
        assert(ops@.skip(j as int) =~= Seq::<Op>::empty());
    }
    while j > 0
        invariant
            j <= ops@.len(),
            acc == decr_sum(ops@.skip(j as int), token@),
            acc <= limit,
        decreases j,
    {
        j = j - 1;
        proof {
            lemma_sums_unfold(ops@, j as int);
        }
        let op = &ops[j];
        if op.op_type == OpType::Decr && op.token == *token {
            if op.amount > limit - acc {
                proof {
                    lemma_decr_sum_suffix(ops@, j as int, token@);
                }
                return false;
            }
            acc = acc + op.amount;
        }
    }
    proof {
        assert(ops@.skip(0) =~= ops@);
    }
    true
}

/// Whether the increments of `token` in `ops` sum to at most `limit`.
fn increments_within(ops: &Vec<Op>, token: &String, limit: u64) -> (r: bool)
    ensures
        r == (incr_sum(ops@, token@) <= limit),
{
    let mut acc: u64 = 0;
    let mut j: usize = ops.len();
    proof {
        assert(ops@.skip(j as int) =~= Seq::<Op>::empty());
    }
    while j > 0
        invariant
            j <= ops@.len(),
            acc == incr_sum(ops@.skip(j as int), token@),
            acc <= limit,
        decreases j,
    {
        j = j - 1;
        proof {
            lemma_sums_unfold(ops@, j as int);
        }
        let op = &ops[j];
        if op.op_type == OpType::Incr && op.token == *token {
            if op.amount > limit - acc {
                proof {
                    lemma_incr_sum_suffix(ops@, j as int, token@);
                }
                return false;
            }
            acc = acc + op.amount;
        }
    }
    proof {
        assert(ops@.skip(0) =~= ops@);
    }
    true
}

impl Bag {
    /// Checks a batch without changing anything: every operation is a request,
    /// and every token it decrements is stored with at least the sum of all the
    /// batch's decrements of it. Increments in the batch are not counted; a batch
    /// without decrements of requests only passes.
    ///
    /// The answer holds of the ledger as it is now: a change made between this
    /// call and a later one can make it wrong. `do_ops` checks again itself.
    pub fn verify_ops(&self, ops: &Vec<Op>) -> (r: bool)
        requires
            self.wf(),
        ensures
            r == (all_requests(ops@) && feasible(self@, ops@)),
    {
        let n = ops.len();
        let mut i: usize = 0;
        while i < n
            invariant
                n == ops@.len(),
                i <= n,
                self.wf(),
                forall|j: int| 0 <= j < i ==> is_request_kind(#[trigger] ops@[j].op_type),
                forall|j: int|
                    0 <= j < i && #[trigger] ops@[j].op_type == OpType::Decr ==> self@.contains_key(ops@[j].token@)
                        && decr_sum(ops@, ops@[j].token@) <= self@[ops@[j].token@].3,
            decreases n - i,
        {
            let op = &ops[i];
            if !op.op_type.is_request() {
                return false;
            }
            if op.op_type == OpType::Decr {
                match items_get(&self.items, &op.token) {
                    Some(it) => {
                        if !decrements_within(ops, &op.token, it.amount) {
                            return false;
                        }
                    },
                    None => {
                        return false;
                    },
                }
            }
            i = i + 1;
        }
        true
    }

    /// Whether no amount can pass `u64::MAX` while `ops` runs on this ledger: for
    /// each token, what is stored plus all the batch's increments of it fits.
    pub fn increments_fit(&self, ops: &Vec<Op>) -> (r: bool)
        requires
            self.wf(),
        ensures
            r == increments_fit(self@, ops@),
    {
        let n = ops.len();
        let mut i: usize = 0;
        while i < n
            invariant
                n == ops@.len(),
                i <= n,
                self.wf(),
                forall|j: int|
                    0 <= j < i && #[trigger] ops@[j].op_type == OpType::Incr ==> qty(self@, ops@[j].token@)
                        + incr_sum(ops@, ops@[j].token@) <= u64::MAX,
            decreases n - i,
        {
            let op = &ops[i];
            if op.op_type == OpType::Incr {
                let stored = self.amount(&op.token);
                if !increments_within(ops, &op.token, u64::MAX - stored) {
                    return false;
                }
            }
            i = i + 1;
        }
        proof {
            assert forall|k: Seq<char>| qty(self@, k) + #[trigger] incr_sum(ops@, k) <= u64::MAX by {
                if exists|j: int| 0 <= j < n && ops@[j].op_type == OpType::Incr && ops@[j].token@ == k {
                    let j = choose|j: int| 0 <= j < n && ops@[j].op_type == OpType::Incr && ops@[j].token@ == k;
                    assert(ops@[j].op_type == OpType::Incr);
                } else {
                    assert forall|j: int| 0 <= j < ops@.len() implies incr_part(#[trigger] ops@[j], k) == 0 by {}
                    lemma_incr_sum_none(ops@, k);
                }
            }
        }
        true
    }
}

impl Bag {
    /// Applies a batch as a unit. A batch holding an operation that is not a
    /// request is `UnsupportedOperation`; one that `verify_ops` turns down is
    /// `IllegalOperations`; either way nothing changes. Otherwise every operation
    /// is applied in order and the effect log is returned: per operation `New`
    /// (created), `Incr` (raised), `Decr` (lowered) or `Delete` (removed, at amount
    /// 0), with the item as it then stands. An increment of 0 of an unstored token,
    /// and a decrement of a token that an earlier operation removed, leave no entry.
    pub fn do_ops(&mut self, ops: &Vec<Op>) -> (r: Result<Vec<(OpType, Item)>, BagError>)
        requires
            old(self).wf(),
            all_requests(ops@) && feasible(old(self)@, ops@) ==> increments_fit(old(self)@, ops@),
        ensures
            final(self).wf(),
            !all_requests(ops@) ==> r == Err::<Vec<(OpType, Item)>, BagError>(BagError::UnsupportedOperation),
            all_requests(ops@) && !feasible(old(self)@, ops@) ==> r == Err::<Vec<(OpType, Item)>, BagError>(
                BagError::IllegalOperations,
            ),
            r is Err ==> final(self)@ == old(self)@,
            r is Ok <==> all_requests(ops@) && feasible(old(self)@, ops@),
            r matches Ok(effects) ==> final(self)@ == run(old(self)@, ops@).0 && effect_views(effects@) == run(
                old(self)@,
                ops@,
            ).1,
    {
        let n = ops.len();
        let mut i: usize = 0;
        while i < n
            invariant
                n == ops@.len(),
                i <= n,
                self.wf(),
                self@ == old(self)@,
                forall|j: int| 0 <= j < i ==> is_request_kind(#[trigger] ops@[j].op_type),
            decreases n - i,
        {
            if !ops[i].op_type.is_request() {
                return Err(BagError::UnsupportedOperation);
            }
            i = i + 1;
        }
        if !self.verify_ops(ops) {
            return Err(BagError::IllegalOperations);
        }
        let ghost m0 = self@;
        proof {
            assert(ops@.skip(0) =~= ops@);
            assert forall|k: Seq<char>| #[trigger] decr_sum(ops@.skip(0), k) <= qty(m0, k) by {
                lemma_sums_nonneg(ops@, k);
                if exists|j: int| 0 <= j < n && ops@[j].op_type == OpType::Decr && ops@[j].token@ == k {
                    let j = choose|j: int| 0 <= j < n && ops@[j].op_type == OpType::Decr && ops@[j].token@ == k;
                    assert(ops@[j].op_type == OpType::Decr);
                } else {
                    assert forall|j: int| 0 <= j < ops@.len() implies decr_part(#[trigger] ops@[j], k) == 0 by {}
                    lemma_decr_sum_none(ops@, k);
                }
            }
        }
        let mut effects: Vec<(OpType, Item)> = Vec::new();
        i = 0;
        while i < n
            invariant
                n == ops@.len(),
                i <= n,
                self.wf(),
                all_requests(ops@),
                run(self@, ops@.skip(i as int)).0 == run(m0, ops@).0,
                effect_views(effects@) + run(self@, ops@.skip(i as int)).1 == run(m0, ops@).1,
                forall|k: Seq<char>| #[trigger] decr_sum(ops@.skip(i as int), k) <= qty(self@, k),
                forall|k: Seq<char>| qty(self@, k) + #[trigger] incr_sum(ops@.skip(i as int), k) <= u64::MAX,
            decreases n - i,
        {
            let op = &ops[i];
            let ghost before = self@;
            let ghost before_effects = effects@;
            proof {
                lemma_sums_unfold(ops@, i as int);
                lemma_run_unfold(before, ops@, i as int);
                lemma_sums_nonneg(ops@.skip(i + 1), op.token@);
                assert(is_request_kind(ops@[i as int].op_type));
                assert(*op == ops@[i as int]);
                assert(qty(before, op.token@) + incr_sum(ops@.skip(i as int), op.token@) <= u64::MAX);
                assert(decr_sum(ops@.skip(i as int), op.token@) <= qty(before, op.token@));
                lemma_step_qty(before, ops@[i as int]);
            }
            let e = if op.op_type == OpType::Incr {
                self.raise(&op.token, op.type_id, op.cfg_id, op.amount)
            } else {
                self.lower(&op.token, op.amount)
            };
            proof {
                assert((self@, opt_effect(e)) == step(before, ops@[i as int]));
                assert forall|k: Seq<char>| #[trigger] decr_sum(ops@.skip(i + 1), k) <= qty(self@, k) by {
                    assert(decr_sum(ops@.skip(i as int), k) <= qty(before, k));
                    assert(qty(step(before, ops@[i as int]).0, k) == qty(before, k) + incr_part(ops@[i as int], k)
                        - decr_part(ops@[i as int], k));
                    lemma_sums_nonneg(ops@.skip(i + 1), k);
                }
                assert forall|k: Seq<char>| qty(self@, k) + #[trigger] incr_sum(ops@.skip(i + 1), k) <= u64::MAX by {
                    assert(qty(before, k) + incr_sum(ops@.skip(i as int), k) <= u64::MAX);
                    assert(qty(step(before, ops@[i as int]).0, k) == qty(before, k) + incr_part(ops@[i as int], k)
                        - decr_part(ops@[i as int], k));
                    lemma_sums_nonneg(ops@.skip(i + 1), k);
                }
            }
            match e {
                Some(x) => {
                    effects.push(x);
                },
                None => {},
            }
            proof {
                assert(effect_views(effects@) =~= effect_views(before_effects) + opt_effect(e));
                assert(effect_views(effects@) + run(self@, ops@.skip(i + 1)).1 =~= effect_views(before_effects)
                    + run(before, ops@.skip(i as int)).1);
            }
            i = i + 1;
        }
        proof {
            assert(ops@.skip(n as int) =~= Seq::<Op>::empty());
            assert(effect_views(effects@) =~= run(m0, ops@).1);
        }
        Ok(effects)
    }
}

impl Bag {
    /// Adds `item.amount` under `item.token`: a stored item is raised and keeps
    /// its ids; otherwise the item is created with the given ids and filed in both
    /// indices. Adding 0 of an unstored token changes nothing, so that no item is
    /// ever stored at 0.
    pub fn add(&mut self, item: Item)
        requires
            old(self).wf(),
            qty(old(self)@, item.token@) + item.amount <= u64::MAX,
        ensures
            final(self).wf(),
            final(self)@ == add_model(old(self)@, item.token@, item.type_id, item.cfg_id, item.amount),
    {
        self.raise(&item.token, item.type_id, item.cfg_id, item.amount);
    }

    /// Raises the item stored under `item.token` by `item.amount`; does nothing
    /// where none is stored.
    pub fn incr(&mut self, item: Item)
        requires
            old(self).wf(),
            qty(old(self)@, item.token@) + item.amount <= u64::MAX,
        ensures
            final(self).wf(),
            final(self)@ == incr_model(old(self)@, item.token@, item.amount),
    {
        if items_get(&self.items, &item.token).is_some() {
            self.raise(&item.token, item.type_id, item.cfg_id, item.amount);
        }
    }

    /// Lowers the item stored under `item.token` by `item.amount`, removing it
    /// from the ledger and both indices when it reaches 0; does nothing where none
    /// is stored. The caller sees to it that the stored amount suffices.
    pub fn decr(&mut self, item: Item)
        requires
            old(self).wf(),
            old(self)@.contains_key(item.token@) ==> item.amount <= old(self)@[item.token@].3,
        ensures
            final(self).wf(),
            final(self)@ == decr_model(old(self)@, item.token@, item.amount),
    {
        self.lower(&item.token, item.amount);
    }

    /// Copies of the items stored under `keys`, in the same order.
    fn collect(&self, keys: &Vec<String>) -> (r: Vec<Item>)
        requires
            self.wf(),
            views(keys@).to_set().subset_of(self@.dom()),
        ensures
            tokens(r@) == views(keys@),
            forall|i: int| 0 <= i < r@.len() ==> self@.contains_key(#[trigger] r@[i].token@) && self@[r@[i].token@]
                == r@[i]@,
    {
        let mut r: Vec<Item> = Vec::new();
        let mut i: usize = 0;
        while i < keys.len()
            invariant
                i <= keys@.len(),
                self.wf(),
                views(keys@).to_set().subset_of(self@.dom()),
                tokens(r@) == views(keys@.take(i as int)),
                forall|j: int| 0 <= j < r@.len() ==> self@.contains_key(#[trigger] r@[j].token@) && self@[r@[j].token@]
                    == r@[j]@,
            decreases keys@.len() - i,
        {
            proof {
                assert(views(keys@)[i as int] == keys@[i as int]@);
                assert(views(keys@).to_set().contains(keys@[i as int]@));
            }
            let it = match items_get(&self.items, &keys[i]) {
                Some(it) => it,
                None => {
                    proof {
                        assert(self@.contains_key(keys@[i as int]@));
                    }
                    return r;
                },
            };
            proof {
                assert(self@[it.token@].0 == it.token@);
            }
            let ghost prev = r@;
            r.push(it);
            proof {
                assert(tokens(r@) =~= tokens(prev).push(keys@[i as int]@));
                assert(views(keys@.take(i + 1)) =~= views(keys@.take(i as int)).push(keys@[i as int]@));
            }
            i = i + 1;
        }
        proof {
            assert(keys@.take(keys@.len() as int) =~= keys@);
        }
        r
    }

    /// The sum of the amounts stored under `keys`.
    fn sum_amounts(&self, keys: &Vec<String>) -> (r: u64)
        requires
            self.wf(),
            views(keys@).no_duplicates(),
            total(self@, views(keys@).to_set()) <= u64::MAX,
        ensures
            r == total(self@, views(keys@).to_set()),
    {
        let ghost ks = views(keys@);
        proof {
            lemma_seq_total_is_total(self@, ks);
        }
        let mut acc: u64 = 0;
        let mut i: usize = 0;
        while i < keys.len()
            invariant
                i <= keys@.len(),
                ks == views(keys@),
                self.wf(),
                acc == seq_total(self@, ks.take(i as int)),
                seq_total(self@, ks) <= u64::MAX,
            decreases keys@.len() - i,
        {
            let a = self.amount(&keys[i]);
            proof {
                lemma_seq_total_prefix(self@, ks, i + 1);
                assert(ks.take(i + 1).drop_last() =~= ks.take(i as int));
            }
            acc = acc + a;
            i = i + 1;
        }
        proof {
            assert(ks.take(keys@.len() as int) =~= ks);
        }
        acc
    }

    /// Every stored item of type `type_id`, each once, in no given order.
    pub fn get_by_type(&self, type_id: u32) -> (r: Vec<Item>)
        requires
            self.wf(),
        ensures
            lists(self@, of_type(self@, type_id), r@),
    {
        let keys = index_members(&self.type_indices, type_id as u64);
        proof {
            assert(members(self.type_index(), type_id as u64) =~= of_type(self@, type_id));
        }
        let r = self.collect(&keys);
        r
    }

    /// Every stored item of configuration `cfg_id`, each once, in no given order.
    pub fn get_by_cfg_id(&self, cfg_id: u64) -> (r: Vec<Item>)
        requires
            self.wf(),
        ensures
            lists(self@, of_cfg(self@, cfg_id), r@),
    {
        let keys = index_members(&self.cfg_indices, cfg_id);
        proof {
            assert(members(self.cfg_index(), cfg_id) =~= of_cfg(self@, cfg_id));
        }
        let r = self.collect(&keys);
        r
    }

    /// Every stored item, each once, in no given order.
    pub fn to_list(&self) -> (r: Vec<Item>)
        requires
            self.wf(),
        ensures
            lists(self@, self@.dom(), r@),
    {
        let keys = items_keys(&self.items);
        let r = self.collect(&keys);
        r
    }

    /// The sum of the amounts of the stored items of type `type_id`, each looked up
    /// now.
    pub fn amount_by_type(&self, type_id: u32) -> (r: u64)
        requires
            self.wf(),
            total(self@, of_type(self@, type_id)) <= u64::MAX,
        ensures
            r == total(self@, of_type(self@, type_id)),
    {
        let keys = index_members(&self.type_indices, type_id as u64);
        proof {
            assert(members(self.type_index(), type_id as u64) =~= of_type(self@, type_id));
        }
        self.sum_amounts(&keys)
    }

    /// The sum of the amounts of the stored items of configuration `cfg_id`, each
    /// looked up now.
    pub fn amount_by_cfg_id(&self, cfg_id: u64) -> (r: u64)
        requires
            self.wf(),
            total(self@, of_cfg(self@, cfg_id)) <= u64::MAX,
        ensures
            r == total(self@, of_cfg(self@, cfg_id)),
    {
        let keys = index_members(&self.cfg_indices, cfg_id);
        proof {
            assert(members(self.cfg_index(), cfg_id) =~= of_cfg(self@, cfg_id));
        }
        self.sum_amounts(&keys)
    }
}

} // verus!
