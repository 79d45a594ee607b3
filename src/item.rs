//! The values the ledger stores and the operations a batch is made of.
use vstd::prelude::*;

verus! {

/// What the ledger knows of one item: its token, type id, configuration id and
/// amount, in that order.
pub type Rec = (Seq<char>, u32, u64, u64);

/// One stored item.
#[derive(Clone, Debug)]
pub struct Item {
    pub token: String,
    pub type_id: u32,
    pub cfg_id: u64,
    pub amount: u64,
}

impl View for Item {
    type V = Rec;

    open spec fn view(&self) -> Rec {
        (self.token@, self.type_id, self.cfg_id, self.amount)
    }
}

impl Item {
    pub fn new(token: String, type_id: u32, cfg_id: u64, amount: u64) -> (r: Item)
        ensures
            r.token == token,
            r.type_id == type_id,
            r.cfg_id == cfg_id,
            r.amount == amount,
    {
        Item { token, type_id, cfg_id, amount }
    }

    /// A field-by-field copy whose equality to `self` is known.
    pub fn duplicate(&self) -> (r: Item)
        ensures
            r@ == self@,
    {
        Item::new(self.token.clone(), self.type_id, self.cfg_id, self.amount)
    }
}

/// The kind of an operation. `Incr` and `Decr` are requests; in the effect log of
/// a batch `New` and `Delete` mark a created and a removed item, while `Incr` and
/// `Decr` mark an item that was raised or lowered and still exists.
#[derive(Clone, Copy, Debug, PartialEq, Eq, Structural)]
pub enum OpType {
    Incr,
    Decr,
    New,
    Delete,
}

/// The wire code of each kind.
pub open spec fn code_of(t: OpType) -> u64 {
    match t {
        OpType::Incr => 1,
        OpType::Decr => 2,
        OpType::New => 3,
        OpType::Delete => 4,
    }
}

impl OpType {
    /// The wire code of this kind: 1, 2, 3 or 4.
    pub fn code(&self) -> (r: u64)
        ensures
            r == code_of(*self),
    {
        match self {
            OpType::Incr => 1,
            OpType::Decr => 2,
            OpType::New => 3,
            OpType::Delete => 4,
        }
    }

    /// The kind with the given wire code, if there is one.
    pub fn from_code(code: i64) -> (r: Option<OpType>)
        ensures
            r matches Some(t) ==> code == code_of(t) as int,
            r is None <==> !(1 <= code <= 4),
    {
        if code == 1 {
            Some(OpType::Incr)
        } else if code == 2 {
            Some(OpType::Decr)
        } else if code == 3 {
            Some(OpType::New)
        } else if code == 4 {
            Some(OpType::Delete)
        } else {
            None
        }
    }

    /// Whether a batch may ask for this kind: only `Incr` and `Decr` are requests.
    pub fn is_request(&self) -> (r: bool)
        ensures
            r == is_request_kind(*self),
    {
        match self {
            OpType::Incr | OpType::Decr => true,
            _ => false,
        }
    }
}

pub open spec fn is_request_kind(t: OpType) -> bool {
    t == OpType::Incr || t == OpType::Decr
}

/// The errors of the ledger.
#[derive(Clone, Copy, Debug, PartialEq, Eq, Structural)]
pub enum BagError {
    /// A read of a token that is not stored.
    NotFound,
    /// An operation that is malformed or of a kind that cannot be requested.
    UnsupportedOperation,
    /// A well-formed batch that the stored amounts cannot cover.
    IllegalOperations,
}

/// One requested change to the item under `token`. `type_id` and `cfg_id` only
/// matter when an increment creates the item.
pub struct Op {
    pub op_type: OpType,
    pub token: String,
    pub type_id: u32,
    pub cfg_id: u64,
    pub amount: u64,
}

impl Op {
    pub fn new(op_type: OpType, token: String, type_id: u32, cfg_id: u64, amount: u64) -> (r: Op)
        ensures
            r.op_type == op_type,
            r.token == token,
            r.type_id == type_id,
            r.cfg_id == cfg_id,
            r.amount == amount,
    {
        Op { op_type, token, type_id, cfg_id, amount }
    }

    /// Builds a request from its wire fields. Only the codes of `Incr` (1) and
    /// `Decr` (2) are requests; any other code is `UnsupportedOperation`.
    pub fn decode(code: i64, token: String, type_id: u32, cfg_id: u64, amount: u64) -> (r: Result<Op, BagError>)
        ensures
            (code == 1 || code == 2) <==> r is Ok,
            r is Err ==> r == Err::<Op, BagError>(BagError::UnsupportedOperation),
            r matches Ok(op) ==> code_of(op.op_type) == code && op.token == token
                && op.type_id == type_id && op.cfg_id == cfg_id && op.amount == amount,
    {
        match OpType::from_code(code) {
            Some(t) => {
                if t.is_request() {
                    Ok(Op::new(t, token, type_id, cfg_id, amount))
                } else {
                    Err(BagError::UnsupportedOperation)
                }
            },
            None => Err(BagError::UnsupportedOperation),
        }
    }
}

} // verus!
