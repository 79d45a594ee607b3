//! Properties of the ledger that hold across its operations.
use crate::bag::Bag;
use crate::item::Item;
use crate::maps::{members, ItemMap};
use crate::model::{amount_sum, lemma_seq_total_is_total, lists, qty, seq_total, tokens, total};
use vstd::prelude::*;

verus! {

/// No item is ever stored at amount 0: in every ledger that the operations
/// produce, each stored item, and so each item of a full listing, has a positive
/// amount.
pub proof fn lemma_no_zero_records(b: &Bag, s: Seq<Item>)
    requires
        b.wf(),
        lists(b@, b@.dom(), s),
    ensures
        forall|k: Seq<char>| #[trigger] b@.contains_key(k) ==> b@[k].3 > 0,
        forall|i: int| 0 <= i < s.len() ==> #[trigger] s[i].amount > 0,
{
    assert forall|i: int| 0 <= i < s.len() implies #[trigger] s[i].amount > 0 by {
        assert(b@.contains_key(s[i].token@));
    }
}

/// The indices agree with the stored items: a token is filed under a type id, or
/// a configuration id, exactly when it is stored with that id.
pub proof fn lemma_index_agreement(b: &Bag, id: u64, k: Seq<char>)
    requires
        b.wf(),
    ensures
        members(b.type_index(), id).contains(k) <==> (b@.contains_key(k) && b@[k].1 as u64 == id),
        members(b.cfg_index(), id).contains(k) <==> (b@.contains_key(k) && b@[k].2 == id),
{
}

/// The sum of the amounts of a listing equals the total that `amount_by_type`
/// and `amount_by_cfg_id` return for the same tokens, whatever the listing's
/// order.
pub proof fn lemma_total_is_listing_sum(m: ItemMap, keys: Set<Seq<char>>, s: Seq<Item>)
    requires
        lists(m, keys, s),
    ensures
        amount_sum(s) == total(m, keys),
{
    lemma_amount_sum_is_seq_total(m, s);
    lemma_seq_total_is_total(m, tokens(s));
}

/// The amounts of items that agree with the stored ones add up as the stored
/// amounts under their tokens do.
proof fn lemma_amount_sum_is_seq_total(m: ItemMap, s: Seq<Item>)
    requires
        forall|i: int| 0 <= i < s.len() ==> m.contains_key(#[trigger] s[i].token@) && m[s[i].token@] == s[i]@,
    ensures
        amount_sum(s) == seq_total(m, tokens(s)),
    decreases s.len(),
{
    if s.len() > 0 {
        let init = s.drop_last();
        assert forall|i: int| 0 <= i < init.len() implies m.contains_key(#[trigger] init[i].token@)
            && m[init[i].token@] == init[i]@ by {
            assert(init[i] == s[i]);
        }
        lemma_amount_sum_is_seq_total(m, init);
        assert(tokens(s).drop_last() =~= tokens(init));
        assert(m.contains_key(s[s.len() - 1].token@));
        assert(qty(m, tokens(s).last()) == s.last().amount);
    }
}

} // verus!
