use inventory::item::{BagError, Item, Op, OpType};

#[test]
fn kind_codes_are_one_to_four() {
    assert_eq!(OpType::Incr.code(), 1);
    assert_eq!(OpType::Decr.code(), 2);
    assert_eq!(OpType::New.code(), 3);
    assert_eq!(OpType::Delete.code(), 4);
    assert_eq!(OpType::from_code(1), Some(OpType::Incr));
    assert_eq!(OpType::from_code(2), Some(OpType::Decr));
    assert_eq!(OpType::from_code(3), Some(OpType::New));
    assert_eq!(OpType::from_code(4), Some(OpType::Delete));
    assert_eq!(OpType::from_code(0), None);
    assert_eq!(OpType::from_code(5), None);
    assert_eq!(OpType::from_code(-1), None);
}

#[test]
fn decode_accepts_requests_only() {
    let op = Op::decode(1, "A".to_string(), 9, 77, 5).unwrap();
    assert_eq!(op.op_type, OpType::Incr);
    assert_eq!((op.token.as_str(), op.type_id, op.cfg_id, op.amount), ("A", 9, 77, 5));
    assert_eq!(Op::decode(2, "B".to_string(), 0, 0, 1).unwrap().op_type, OpType::Decr);
    for code in [0i64, 3, 4, 5, -2, i64::MAX] {
        assert_eq!(Op::decode(code, "A".to_string(), 1, 1, 1).err(), Some(BagError::UnsupportedOperation));
    }
}

#[test]
fn constructors_keep_their_fields() {
    let it = Item::new("tok".to_string(), 3, 4, 5);
    assert_eq!((it.token.as_str(), it.type_id, it.cfg_id, it.amount), ("tok", 3, 4, 5));
    let d = it.duplicate();
    assert_eq!((d.token.as_str(), d.type_id, d.cfg_id, d.amount), ("tok", 3, 4, 5));
    let op = Op::new(OpType::Decr, "x".to_string(), 1, 2, 3);
    assert_eq!(op.op_type, OpType::Decr);
    assert_eq!((op.token.as_str(), op.type_id, op.cfg_id, op.amount), ("x", 1, 2, 3));
    assert!(OpType::Incr.is_request() && OpType::Decr.is_request());
    assert!(!OpType::New.is_request() && !OpType::Delete.is_request());
}
