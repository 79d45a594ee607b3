use inventory::bag::Bag;
use inventory::item::{BagError, Item, Op, OpType};

fn s(x: &str) -> String {
    x.to_string()
}

fn incr(token: &str, type_id: u32, cfg_id: u64, amount: u64) -> Op {
    Op::new(OpType::Incr, s(token), type_id, cfg_id, amount)
}

fn decr(token: &str, amount: u64) -> Op {
    Op::new(OpType::Decr, s(token), 0, 0, amount)
}

fn bag_with(items: &[(&str, u32, u64, u64)]) -> Bag {
    let mut b = Bag::new();
    for (t, ty, cfg, n) in items {
        b.add(Item::new(s(t), *ty, *cfg, *n));
    }
    b
}

fn fields(it: &Item) -> (String, u32, u64, u64) {
    (it.token.clone(), it.type_id, it.cfg_id, it.amount)
}

fn sorted_tokens(v: &[Item]) -> Vec<String> {
    let mut t: Vec<String> = v.iter().map(|i| i.token.clone()).collect();
    t.sort();
    t
}

#[test]
fn batch_over_demand_is_rejected_and_changes_nothing() {
    let mut b = bag_with(&[("A", 1, 10, 10)]);
    let ops = vec![decr("A", 4), decr("A", 7)];
    assert!(!b.verify_ops(&ops));
    assert_eq!(b.do_ops(&ops).err(), Some(BagError::IllegalOperations));
    assert_eq!(b.get(&s("A")).unwrap().amount, 10);
    assert_eq!(b.amount_by_type(1), 10);
}

#[test]
fn increments_do_not_cover_decrements_of_the_same_batch() {
    let mut b = bag_with(&[("A", 1, 10, 5)]);
    let ops = vec![incr("A", 1, 10, 100), decr("A", 10)];
    assert!(!b.verify_ops(&ops));
    assert_eq!(b.do_ops(&ops).err(), Some(BagError::IllegalOperations));
    assert_eq!(b.amount(&s("A")), 5);
}

#[test]
fn exhausted_item_is_deleted_everywhere() {
    let mut b = bag_with(&[("B", 2, 20, 3)]);
    let ops = vec![decr("B", 3)];
    assert!(b.verify_ops(&ops));
    let effects = b.do_ops(&ops).unwrap();
    assert_eq!(effects.len(), 1);
    assert_eq!(effects[0].0, OpType::Delete);
    assert_eq!(fields(&effects[0].1), (s("B"), 2, 20, 0));
    assert_eq!(b.get(&s("B")).err(), Some(BagError::NotFound));
    assert!(b.get_by_type(2).is_empty());
    assert!(b.get_by_cfg_id(20).is_empty());
    assert_eq!(b.amount_by_type(2), 0);
    assert_eq!(b.amount_by_cfg_id(20), 0);
    assert!(b.to_list().is_empty());
}

#[test]
fn batch_increment_creates_an_item() {
    let mut b = Bag::new();
    let effects = b.do_ops(&vec![incr("C", 9, 77, 5)]).unwrap();
    assert_eq!(effects.len(), 1);
    assert_eq!(effects[0].0, OpType::New);
    assert_eq!(fields(&effects[0].1), (s("C"), 9, 77, 5));
    assert_eq!(b.amount_by_type(9), 5);
    assert_eq!(b.amount_by_cfg_id(77), 5);
}

#[test]
fn batch_effects_follow_the_order_of_the_operations() {
    let mut b = bag_with(&[("A", 1, 10, 10), ("B", 1, 11, 2)]);
    let ops = vec![decr("A", 4), incr("A", 1, 10, 1), incr("D", 3, 30, 6), decr("B", 2), incr("B", 5, 50, 1)];
    let effects = b.do_ops(&ops).unwrap();
    let kinds: Vec<OpType> = effects.iter().map(|e| e.0).collect();
    assert_eq!(kinds, vec![OpType::Decr, OpType::Incr, OpType::New, OpType::Delete, OpType::New]);
    assert_eq!(fields(&effects[0].1), (s("A"), 1, 10, 6));
    assert_eq!(fields(&effects[1].1), (s("A"), 1, 10, 7));
    assert_eq!(fields(&effects[2].1), (s("D"), 3, 30, 6));
    assert_eq!(fields(&effects[3].1), (s("B"), 1, 11, 0));
    assert_eq!(fields(&effects[4].1), (s("B"), 5, 50, 1));
    assert_eq!(b.amount_by_type(1), 7);
    assert_eq!(b.amount_by_type(5), 1);
    assert_eq!(sorted_tokens(&b.get_by_type(1)), vec![s("A")]);
}

#[test]
fn batch_steps_without_effect_leave_no_entry() {
    let mut b = bag_with(&[("A", 1, 10, 3)]);
    let ops = vec![decr("A", 3), decr("A", 0), incr("Z", 4, 40, 0)];
    assert!(b.verify_ops(&ops));
    let effects = b.do_ops(&ops).unwrap();
    assert_eq!(effects.len(), 1);
    assert_eq!(effects[0].0, OpType::Delete);
    assert!(b.to_list().is_empty());
}

#[test]
fn batch_with_output_kind_is_unsupported() {
    let mut b = bag_with(&[("A", 1, 10, 3)]);
    for kind in [OpType::New, OpType::Delete] {
        let ops = vec![incr("A", 1, 10, 1), Op::new(kind, s("A"), 1, 10, 1)];
        assert!(!b.verify_ops(&ops));
        assert_eq!(b.do_ops(&ops).err(), Some(BagError::UnsupportedOperation));
    }
    assert_eq!(b.amount(&s("A")), 3);
}

#[test]
fn decrement_of_absent_token_is_illegal() {
    let mut b = Bag::new();
    let ops = vec![decr("X", 0)];
    assert!(!b.verify_ops(&ops));
    assert_eq!(b.do_ops(&ops).err(), Some(BagError::IllegalOperations));
}

#[test]
fn batch_without_decrements_always_passes() {
    let b = bag_with(&[("A", 1, 10, 3)]);
    assert!(b.verify_ops(&vec![]));
    assert!(b.verify_ops(&vec![incr("A", 1, 10, 9), incr("Q", 1, 10, 1)]));
}

#[test]
fn aggregated_demand_equal_to_stock_passes() {
    let mut b = bag_with(&[("A", 1, 10, 10)]);
    let ops = vec![decr("A", 4), decr("A", 6)];
    assert!(b.verify_ops(&ops));
    let effects = b.do_ops(&ops).unwrap();
    assert_eq!(effects[1].0, OpType::Delete);
    assert_eq!(b.amount(&s("A")), 0);
}

#[test]
fn aggregated_demand_past_u64_max_is_illegal() {
    let b = bag_with(&[("A", 1, 10, u64::MAX)]);
    assert!(b.verify_ops(&vec![decr("A", u64::MAX)]));
    assert!(!b.verify_ops(&vec![decr("A", u64::MAX), decr("A", 1)]));
}

#[test]
fn increments_fit_detects_overflow() {
    let b = bag_with(&[("A", 1, 10, u64::MAX - 5)]);
    assert!(b.increments_fit(&vec![incr("A", 1, 10, 2), incr("A", 1, 10, 3)]));
    assert!(!b.increments_fit(&vec![incr("A", 1, 10, 2), incr("A", 1, 10, 4)]));
    assert!(b.increments_fit(&vec![incr("B", 1, 10, u64::MAX)]));
}

#[test]
fn add_raises_and_keeps_first_ids() {
    let mut b = Bag::new();
    b.add(Item::new(s("A"), 1, 10, 4));
    b.add(Item::new(s("A"), 2, 20, 6));
    assert_eq!(fields(&b.get(&s("A")).unwrap()), (s("A"), 1, 10, 10));
    assert!(b.get_by_type(2).is_empty());
    assert!(b.get_by_cfg_id(20).is_empty());
    assert_eq!(b.get_by_cfg_id(10).len(), 1);
}

#[test]
fn add_of_zero_creates_nothing() {
    let mut b = Bag::new();
    b.add(Item::new(s("A"), 1, 10, 0));
    assert!(b.to_list().is_empty());
    assert_eq!(b.get(&s("A")).err(), Some(BagError::NotFound));
    assert!(b.get_by_type(1).is_empty());
}

#[test]
fn incr_only_raises_stored_items() {
    let mut b = bag_with(&[("A", 1, 10, 1)]);
    b.incr(Item::new(s("A"), 1, 10, 2));
    b.incr(Item::new(s("B"), 1, 10, 2));
    assert_eq!(b.amount(&s("A")), 3);
    assert_eq!(b.amount(&s("B")), 0);
    assert_eq!(b.to_list().len(), 1);
}

#[test]
fn decr_lowers_and_removes_at_zero() {
    let mut b = bag_with(&[("A", 1, 10, 5), ("B", 1, 11, 2)]);
    b.decr(Item::new(s("A"), 0, 0, 2));
    assert_eq!(b.amount(&s("A")), 3);
    b.decr(Item::new(s("A"), 0, 0, 3));
    assert_eq!(b.get(&s("A")).err(), Some(BagError::NotFound));
    assert_eq!(sorted_tokens(&b.get_by_type(1)), vec![s("B")]);
    assert!(b.get_by_cfg_id(10).is_empty());
    b.decr(Item::new(s("Q"), 0, 0, 7));
    assert_eq!(b.to_list().len(), 1);
}

#[test]
fn amount_of_absent_token_is_zero() {
    let b = Bag::new();
    assert_eq!(b.amount(&s("nothing")), 0);
    assert_eq!(b.amount_by_type(3), 0);
    assert_eq!(b.amount_by_cfg_id(3), 0);
    assert!(b.get_by_type(3).is_empty());
}

#[test]
fn listings_match_the_stored_items() {
    let mut b = bag_with(&[("A", 1, 10, 1), ("B", 1, 20, 2), ("C", 2, 10, 3), ("D", 1, 10, 4)]);
    b.decr(Item::new(s("D"), 0, 0, 4));
    assert_eq!(sorted_tokens(&b.get_by_type(1)), vec![s("A"), s("B")]);
    assert_eq!(sorted_tokens(&b.get_by_type(2)), vec![s("C")]);
    assert_eq!(sorted_tokens(&b.get_by_cfg_id(10)), vec![s("A"), s("C")]);
    assert_eq!(sorted_tokens(&b.get_by_cfg_id(20)), vec![s("B")]);
    assert_eq!(sorted_tokens(&b.to_list()), vec![s("A"), s("B"), s("C")]);
    for it in b.get_by_type(1) {
        assert_eq!(it.type_id, 1);
        assert_eq!(fields(&b.get(&it.token).unwrap()), fields(&it));
    }
}

#[test]
fn no_listing_ever_shows_zero_amount() {
    let mut b = bag_with(&[("A", 1, 10, 2), ("B", 2, 20, 5)]);
    b.add(Item::new(s("C"), 3, 30, 0));
    b.do_ops(&vec![decr("A", 2), decr("B", 1), incr("E", 1, 10, 0)]).unwrap();
    b.decr(Item::new(s("B"), 0, 0, 4));
    for it in b.to_list() {
        assert!(it.amount > 0);
    }
    assert!(b.to_list().is_empty());
    b.add(Item::new(s("F"), 1, 10, 1));
    assert!(b.to_list().iter().all(|it| it.amount > 0));
}

#[test]
fn totals_equal_the_sums_of_the_listings() {
    let b = bag_with(&[("A", 1, 10, 7), ("B", 1, 20, 11), ("C", 2, 10, 13), ("D", 1, 10, 17)]);
    for t in [1u32, 2, 3] {
        let sum: u64 = b.get_by_type(t).iter().map(|i| i.amount).sum();
        assert_eq!(b.amount_by_type(t), sum);
    }
    for c in [10u64, 20, 30] {
        let sum: u64 = b.get_by_cfg_id(c).iter().map(|i| i.amount).sum();
        assert_eq!(b.amount_by_cfg_id(c), sum);
    }
    assert_eq!(b.amount_by_type(1), 35);
    assert_eq!(b.amount_by_cfg_id(10), 37);
}
