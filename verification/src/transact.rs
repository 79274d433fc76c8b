//! The transaction executor's pure logic: assembling heterogeneous
//! per-item operations into a single all-or-nothing request, enforcing the
//! backend's 100-item cap locally before anything is sent, and reading the
//! positional response list of a transactional read.

use vstd::prelude::*;

use crate::codec::dec_err_v;
use crate::codec::decode_entries_v;
use crate::codec::enc_err_v;
use crate::codec::encode_entries_v;
use crate::codec::encode_item;
use crate::codec::decode_item;
use crate::codec::DecErr;
use crate::codec::EncErr;
use crate::errors::classify;
use crate::errors::classify_v;
use crate::errors::ErrV;
use crate::errors::Item;
use crate::errors::PydynoError;
use crate::errors::RawBackendError;
use crate::numtext::dec_of_nat;
use crate::value::attr_entries_view;
use crate::value::native_entries_view;
use crate::value::AttrV;
use crate::value::NativeV;
use crate::value::NativeValue;

verus! {

broadcast use vstd::std_specs::vec::group_vec_axioms, vstd::seq::group_seq_axioms;

/// Largest number of operations a single transaction may carry, enforced
/// locally before submission.
pub const TRANSACTION_MAX_ITEMS: usize = 100;

/// One operation of a transactional write.
#[derive(Debug, PartialEq, Eq)]
pub enum TransactWriteOp {
    /// Write this item, optionally under a condition.
    Put {
        table: String,
        item: Vec<(String, NativeValue)>,
        condition_expression: Option<String>,
        expression_attribute_names: Vec<(String, String)>,
        expression_attribute_values: Vec<(String, NativeValue)>,
    },
    /// Delete the item under this key, optionally under a condition.
    Delete {
        table: String,
        key: Vec<(String, NativeValue)>,
        condition_expression: Option<String>,
        expression_attribute_names: Vec<(String, String)>,
        expression_attribute_values: Vec<(String, NativeValue)>,
    },
    /// Update the item under this key with a raw update expression.
    Update {
        table: String,
        key: Vec<(String, NativeValue)>,
        update_expression: String,
        condition_expression: Option<String>,
        expression_attribute_names: Vec<(String, String)>,
        expression_attribute_values: Vec<(String, NativeValue)>,
    },
    /// Commit only if this condition holds of the item under this key.
    ConditionCheck {
        table: String,
        key: Vec<(String, NativeValue)>,
        condition_expression: String,
        expression_attribute_names: Vec<(String, String)>,
        expression_attribute_values: Vec<(String, NativeValue)>,
    },
}

/// One already-encoded sub-request of a transactional write.
#[derive(Debug, PartialEq, Eq)]
pub enum TransactWriteItemReq {
    Put {
        table: String,
        item: Item,
        condition_expression: Option<String>,
        expression_attribute_names: Vec<(String, String)>,
        expression_attribute_values: Item,
    },
    Delete {
        table: String,
        key: Item,
        condition_expression: Option<String>,
        expression_attribute_names: Vec<(String, String)>,
        expression_attribute_values: Item,
    },
    Update {
        table: String,
        key: Item,
        update_expression: String,
        condition_expression: Option<String>,
        expression_attribute_names: Vec<(String, String)>,
        expression_attribute_values: Item,
    },
    ConditionCheck {
        table: String,
        key: Item,
        condition_expression: String,
        expression_attribute_names: Vec<(String, String)>,
        expression_attribute_values: Item,
    },
}

/// Model of encoding one operation: the item or key first, then the value
/// placeholders; the earliest refusal wins.
pub open spec fn op_encode_v(op: TransactWriteOp) -> Result<(), EncErr> {
    match op {
        TransactWriteOp::Put { item, expression_attribute_values, .. } => match encode_entries_v(
            native_entries_view(item@),
        ) {
            Err(e) => Err(e),
            Ok(_) => match encode_entries_v(native_entries_view(expression_attribute_values@)) {
                Err(e) => Err(e),
                Ok(_) => Ok(()),
            },
        },
        TransactWriteOp::Delete { key, expression_attribute_values, .. } => match encode_entries_v(
            native_entries_view(key@),
        ) {
            Err(e) => Err(e),
            Ok(_) => match encode_entries_v(native_entries_view(expression_attribute_values@)) {
                Err(e) => Err(e),
                Ok(_) => Ok(()),
            },
        },
        TransactWriteOp::Update { key, expression_attribute_values, .. } => match encode_entries_v(
            native_entries_view(key@),
        ) {
            Err(e) => Err(e),
            Ok(_) => match encode_entries_v(native_entries_view(expression_attribute_values@)) {
                Err(e) => Err(e),
                Ok(_) => Ok(()),
            },
        },
        TransactWriteOp::ConditionCheck {
            key,
            expression_attribute_values,
            ..
        } => match encode_entries_v(native_entries_view(key@)) {
            Err(e) => Err(e),
            Ok(_) => match encode_entries_v(native_entries_view(expression_attribute_values@)) {
                Err(e) => Err(e),
                Ok(_) => Ok(()),
            },
        },
    }
}

/// Model of encoding a list of operations, in order; the earliest refusal
/// wins.
pub open spec fn ops_encode_v(ops: Seq<TransactWriteOp>) -> Result<(), EncErr>
    decreases ops.len(),
{
    if ops.len() == 0 {
        Ok(())
    } else {
        match ops_encode_v(ops.subrange(0, ops.len() - 1)) {
            Err(e) => Err(e),
            Ok(_) => op_encode_v(ops[ops.len() - 1]),
        }
    }
}

/// An operation refusal in a prefix settles the whole list.
pub proof fn lemma_ops_encode_err_extends(ops: Seq<TransactWriteOp>, k: int)
    requires
        0 <= k <= ops.len(),
        ops_encode_v(ops.subrange(0, k)) is Err,
    ensures
        ops_encode_v(ops) == ops_encode_v(ops.subrange(0, k)),
    decreases ops.len() - k,
{
    if k == ops.len() {
        assert(ops.subrange(0, k) =~= ops);
    } else {
        let q = ops.subrange(0, k + 1);
        assert(q.subrange(0, q.len() - 1) =~= ops.subrange(0, k));
        lemma_ops_encode_err_extends(ops, k + 1);
    }
}

/// Whether a sub-request is the encoding of an operation: same kind, same
/// table, expressions and name placeholders passed through, item, key and
/// value placeholders encoded.
pub open spec fn op_builds_to(op: TransactWriteOp, rq: TransactWriteItemReq) -> bool {
    match (op, rq) {
        (
            TransactWriteOp::Put {
                table: t,
                item,
                condition_expression: ce,
                expression_attribute_names: en,
                expression_attribute_values: ev,
            },
            TransactWriteItemReq::Put {
                table: t2,
                item: it2,
                condition_expression: ce2,
                expression_attribute_names: en2,
                expression_attribute_values: ev2,
            },
        ) => {
            &&& t2 == t
            &&& encode_entries_v(native_entries_view(item@)) == Ok::<
                Seq<(Seq<char>, AttrV)>,
                EncErr,
            >(attr_entries_view(it2@))
            &&& ce2 == ce
            &&& en2 == en
            &&& encode_entries_v(native_entries_view(ev@)) == Ok::<
                Seq<(Seq<char>, AttrV)>,
                EncErr,
            >(attr_entries_view(ev2@))
        },
        (
            TransactWriteOp::Delete {
                table: t,
                key,
                condition_expression: ce,
                expression_attribute_names: en,
                expression_attribute_values: ev,
            },
            TransactWriteItemReq::Delete {
                table: t2,
                key: k2,
                condition_expression: ce2,
                expression_attribute_names: en2,
                expression_attribute_values: ev2,
            },
        ) => {
            &&& t2 == t
            &&& encode_entries_v(native_entries_view(key@)) == Ok::<
                Seq<(Seq<char>, AttrV)>,
                EncErr,
            >(attr_entries_view(k2@))
            &&& ce2 == ce
            &&& en2 == en
            &&& encode_entries_v(native_entries_view(ev@)) == Ok::<
                Seq<(Seq<char>, AttrV)>,
                EncErr,
            >(attr_entries_view(ev2@))
        },
        (
            TransactWriteOp::Update {
                table: t,
                key,
                update_expression: ue,
                condition_expression: ce,
                expression_attribute_names: en,
                expression_attribute_values: ev,
            },
            TransactWriteItemReq::Update {
                table: t2,
                key: k2,
                update_expression: ue2,
                condition_expression: ce2,
                expression_attribute_names: en2,
                expression_attribute_values: ev2,
            },
        ) => {
            &&& t2 == t
            &&& encode_entries_v(native_entries_view(key@)) == Ok::<
                Seq<(Seq<char>, AttrV)>,
                EncErr,
            >(attr_entries_view(k2@))
            &&& ue2 == ue
            &&& ce2 == ce
            &&& en2 == en
            &&& encode_entries_v(native_entries_view(ev@)) == Ok::<
                Seq<(Seq<char>, AttrV)>,
                EncErr,
            >(attr_entries_view(ev2@))
        },
        (
            TransactWriteOp::ConditionCheck {
                table: t,
                key,
                condition_expression: ce,
                expression_attribute_names: en,
                expression_attribute_values: ev,
            },
            TransactWriteItemReq::ConditionCheck {
                table: t2,
                key: k2,
                condition_expression: ce2,
                expression_attribute_names: en2,
                expression_attribute_values: ev2,
            },
        ) => {
            &&& t2 == t
            &&& encode_entries_v(native_entries_view(key@)) == Ok::<
                Seq<(Seq<char>, AttrV)>,
                EncErr,
            >(attr_entries_view(k2@))
            &&& ce2 == ce
            &&& en2 == en
            &&& encode_entries_v(native_entries_view(ev@)) == Ok::<
                Seq<(Seq<char>, AttrV)>,
                EncErr,
            >(attr_entries_view(ev2@))
        },
        _ => false,
    }
}

/// The message refusing a transaction over the size cap.
pub open spec fn txn_limit_msg(n: nat) -> Seq<char> {
    "Transaction exceeds maximum of "@ + dec_of_nat(TRANSACTION_MAX_ITEMS as nat)
        + " items (got "@ + dec_of_nat(n) + ")"@
}

/// Encodes one write operation into its sub-request.
fn build_transact_write_item(op: TransactWriteOp) -> (r: Result<
    TransactWriteItemReq,
    PydynoError,
>)
    ensures
        match r {
            Ok(rq) => op_encode_v(op) is Ok && op_builds_to(op, rq),
            Err(e) => op_encode_v(op) matches Err(k) && e@ == enc_err_v(k),
        },
{
    match op {
        TransactWriteOp::Put {
            table,
            item,
            condition_expression,
            expression_attribute_names,
            expression_attribute_values,
        } => {
            let it2 = match encode_item(&item) {
                Ok(x) => x,
                Err(e) => {
                    return Err(e);
                },
            };
            let ev2 = match encode_item(&expression_attribute_values) {
                Ok(x) => x,
                Err(e) => {
                    return Err(e);
                },
            };
            Ok(
                TransactWriteItemReq::Put {
                    table,
                    item: it2,
                    condition_expression,
                    expression_attribute_names,
                    expression_attribute_values: ev2,
                },
            )
        },
        TransactWriteOp::Delete {
            table,
            key,
            condition_expression,
            expression_attribute_names,
            expression_attribute_values,
        } => {
            let k2 = match encode_item(&key) {
                Ok(x) => x,
                Err(e) => {
                    return Err(e);
                },
            };
            let ev2 = match encode_item(&expression_attribute_values) {
                Ok(x) => x,
                Err(e) => {
                    return Err(e);
                },
            };
            Ok(
                TransactWriteItemReq::Delete {
                    table,
                    key: k2,
                    condition_expression,
                    expression_attribute_names,
                    expression_attribute_values: ev2,
                },
            )
        },
        TransactWriteOp::Update {
            table,
            key,
            update_expression,
            condition_expression,
            expression_attribute_names,
            expression_attribute_values,
        } => {
            let k2 = match encode_item(&key) {
                Ok(x) => x,
                Err(e) => {
                    return Err(e);
                },
            };
            let ev2 = match encode_item(&expression_attribute_values) {
                Ok(x) => x,
                Err(e) => {
                    return Err(e);
                },
            };
            Ok(
                TransactWriteItemReq::Update {
                    table,
                    key: k2,
                    update_expression,
                    condition_expression,
                    expression_attribute_names,
                    expression_attribute_values: ev2,
                },
            )
        },
        TransactWriteOp::ConditionCheck {
            table,
            key,
            condition_expression,
            expression_attribute_names,
            expression_attribute_values,
        } => {
            let k2 = match encode_item(&key) {
                Ok(x) => x,
                Err(e) => {
                    return Err(e);
                },
            };
            let ev2 = match encode_item(&expression_attribute_values) {
                Ok(x) => x,
                Err(e) => {
                    return Err(e);
                },
            };
            Ok(
                TransactWriteItemReq::ConditionCheck {
                    table,
                    key: k2,
                    condition_expression,
                    expression_attribute_names,
                    expression_attribute_values: ev2,
                },
            )
        },
    }
}

/// Assembles a transactional write. Refuses, locally and before any
/// network call, a list over the 100-item cap, with a validation error
/// naming both the cap and the list's length; a list of exactly 100 is
/// accepted for submission. Every operation is encoded in order; the
/// earliest refusal wins. All sub-requests commit atomically or none do:
/// that is the backend's contract on the single call built here.
#[verifier::loop_isolation(false)]
pub fn build_transact_write(ops: Vec<TransactWriteOp>) -> (r: Result<
    Vec<TransactWriteItemReq>,
    PydynoError,
>)
    ensures
        match r {
            Ok(reqs) => {
                &&& ops@.len() <= TRANSACTION_MAX_ITEMS
                &&& ops_encode_v(ops@) is Ok
                &&& reqs@.len() == ops@.len()
                &&& (forall|i: int|
                    0 <= i < ops@.len() ==> op_builds_to(ops@[i], #[trigger] reqs@[i]))
            },
            Err(e) => {
                if ops@.len() > TRANSACTION_MAX_ITEMS {
                    e@ == ErrV::Validation(txn_limit_msg(ops@.len()))
                } else {
                    ops_encode_v(ops@) matches Err(k) && e@ == enc_err_v(k)
                }
            },
        },
{
    let ghost ops0 = ops@;
    if ops.len() > TRANSACTION_MAX_ITEMS {
        let got = crate::numtext::u64_to_decimal(ops.len() as u64);
        let cap = crate::numtext::u64_to_decimal(TRANSACTION_MAX_ITEMS as u64);
        let m = String::from_str("Transaction exceeds maximum of ").concat(cap.as_str()).concat(
            " items (got ",
        ).concat(got.as_str()).concat(")");
        return Err(PydynoError::Validation(m));
    }
    let mut reqs: Vec<TransactWriteItemReq> = Vec::new();
    let mut rest = ops;
    proof {
        assert(ops0.subrange(0, 0) =~= Seq::<TransactWriteOp>::empty());
    }
    while rest.len() > 0
        invariant
            reqs@.len() + rest@.len() == ops0.len(),
            forall|i: int| 0 <= i < rest@.len() ==> (#[trigger] rest@[i]) == ops0[reqs@.len() + i],
            ops_encode_v(ops0.subrange(0, reqs@.len() as int)) is Ok,
            forall|i: int| 0 <= i < reqs@.len() ==> op_builds_to(ops0[i], #[trigger] reqs@[i]),
        decreases rest@.len(),
    {
        let ghost rest0 = rest@;
        let ghost done = reqs@.len() as int;
        let op = rest.remove(0);
        proof {
            assert(rest0.remove(0) =~= rest0.subrange(1, rest0.len() as int));
            assert(op == ops0[done]);
        }
        match build_transact_write_item(op) {
            Ok(rq) => {
                reqs.push(rq);
                proof {
                    let q = ops0.subrange(0, done + 1);
                    assert(q.subrange(0, q.len() - 1) =~= ops0.subrange(0, done));
                    assert(q[q.len() - 1] == ops0[done]);
                }
            },
            Err(e) => {
                proof {
                    let q = ops0.subrange(0, done + 1);
                    assert(q.subrange(0, q.len() - 1) =~= ops0.subrange(0, done));
                    assert(q[q.len() - 1] == ops0[done]);
                    assert(ops_encode_v(q) is Err);
                    lemma_ops_encode_err_extends(ops0, done + 1);
                }
                return Err(e);
            },
        }
    }
    proof {
        assert(ops0.subrange(0, reqs@.len() as int) =~= ops0);
    }
    Ok(reqs)
}

/// Settles a transactional write call: any backend rejection, a single
/// failed condition included, classifies into the taxonomy; a canceled
/// transaction carries the reasons the backend reported.
pub fn transact_write_outcome(resp: Result<(), RawBackendError>) -> (r: Result<(), PydynoError>)
    ensures
        match r {
            Ok(_) => resp is Ok,
            Err(e) => resp matches Err(raw) && e@ == classify_v(raw@, None),
        },
{
    match resp {
        Ok(_) => Ok(()),
        Err(raw) => Err(classify(raw, None)),
    }
}

/// One read of a transactional get.
#[derive(Debug, PartialEq, Eq)]
pub struct TransactGetOp {
    pub table: String,
    pub key: Vec<(String, NativeValue)>,
    pub projection_expression: Option<String>,
    pub expression_attribute_names: Vec<(String, String)>,
}

/// One already-encoded sub-request of a transactional get.
#[derive(Debug, PartialEq, Eq)]
pub struct TransactGetItemReq {
    pub table: String,
    pub key: Item,
    pub projection_expression: Option<String>,
    pub expression_attribute_names: Vec<(String, String)>,
}

/// Model of encoding a list of get keys, in order; the earliest refusal
/// wins.
pub open spec fn gets_encode_v(gets: Seq<TransactGetOp>) -> Result<(), EncErr>
    decreases gets.len(),
{
    if gets.len() == 0 {
        Ok(())
    } else {
        match gets_encode_v(gets.subrange(0, gets.len() - 1)) {
            Err(e) => Err(e),
            Ok(_) => match encode_entries_v(native_entries_view(gets[gets.len() - 1].key@)) {
                Err(e) => Err(e),
                Ok(_) => Ok(()),
            },
        }
    }
}

/// A key refusal in a prefix settles the whole list.
pub proof fn lemma_gets_encode_err_extends(gets: Seq<TransactGetOp>, k: int)
    requires
        0 <= k <= gets.len(),
        gets_encode_v(gets.subrange(0, k)) is Err,
    ensures
        gets_encode_v(gets) == gets_encode_v(gets.subrange(0, k)),
    decreases gets.len() - k,
{
    if k == gets.len() {
        assert(gets.subrange(0, k) =~= gets);
    } else {
        let q = gets.subrange(0, k + 1);
        assert(q.subrange(0, q.len() - 1) =~= gets.subrange(0, k));
        lemma_gets_encode_err_extends(gets, k + 1);
    }
}

/// Assembles a transactional get. Refuses a list over the 100-item cap,
/// locally and before any network call; encodes every key in order.
#[verifier::loop_isolation(false)]
pub fn build_transact_get(gets: Vec<TransactGetOp>) -> (r: Result<
    Vec<TransactGetItemReq>,
    PydynoError,
>)
    ensures
        match r {
            Ok(reqs) => {
                &&& gets@.len() <= TRANSACTION_MAX_ITEMS
                &&& gets_encode_v(gets@) is Ok
                &&& reqs@.len() == gets@.len()
                &&& (forall|i: int|
                    0 <= i < gets@.len() ==> {
                        &&& (#[trigger] reqs@[i]).table == gets@[i].table
                        &&& encode_entries_v(native_entries_view(gets@[i].key@)) == Ok::<
                            Seq<(Seq<char>, AttrV)>,
                            EncErr,
                        >(attr_entries_view(reqs@[i].key@))
                        &&& reqs@[i].projection_expression == gets@[i].projection_expression
                        &&& reqs@[i].expression_attribute_names
                            == gets@[i].expression_attribute_names
                    })
            },
            Err(e) => {
                if gets@.len() > TRANSACTION_MAX_ITEMS {
                    e@ == ErrV::Validation(txn_limit_msg(gets@.len()))
                } else {
                    gets_encode_v(gets@) matches Err(k) && e@ == enc_err_v(k)
                }
            },
        },
{
    let ghost gets0 = gets@;
    if gets.len() > TRANSACTION_MAX_ITEMS {
        let got = crate::numtext::u64_to_decimal(gets.len() as u64);
        let cap = crate::numtext::u64_to_decimal(TRANSACTION_MAX_ITEMS as u64);
        let m = String::from_str("Transaction exceeds maximum of ").concat(cap.as_str()).concat(
            " items (got ",
        ).concat(got.as_str()).concat(")");
        return Err(PydynoError::Validation(m));
    }
    let mut reqs: Vec<TransactGetItemReq> = Vec::new();
    let mut rest = gets;
    proof {
        assert(gets0.subrange(0, 0) =~= Seq::<TransactGetOp>::empty());
    }
    while rest.len() > 0
        invariant
            reqs@.len() + rest@.len() == gets0.len(),
            forall|i: int| 0 <= i < rest@.len() ==> (#[trigger] rest@[i]) == gets0[reqs@.len() + i],
            gets_encode_v(gets0.subrange(0, reqs@.len() as int)) is Ok,
            forall|i: int|
                0 <= i < reqs@.len() ==> {
                    &&& (#[trigger] reqs@[i]).table == gets0[i].table
                    &&& encode_entries_v(native_entries_view(gets0[i].key@)) == Ok::<
                        Seq<(Seq<char>, AttrV)>,
                        EncErr,
                    >(attr_entries_view(reqs@[i].key@))
                    &&& reqs@[i].projection_expression == gets0[i].projection_expression
                    &&& reqs@[i].expression_attribute_names == gets0[i].expression_attribute_names
                },
        decreases rest@.len(),
    {
        let ghost rest0 = rest@;
        let ghost done = reqs@.len() as int;
        let g = rest.remove(0);
        proof {
            assert(rest0.remove(0) =~= rest0.subrange(1, rest0.len() as int));
            assert(g == gets0[done]);
        }
        let k2 = match encode_item(&g.key) {
            Ok(x) => x,
            Err(e) => {
                proof {
                    let q = gets0.subrange(0, done + 1);
                    assert(q.subrange(0, q.len() - 1) =~= gets0.subrange(0, done));
                    assert(q[q.len() - 1] == gets0[done]);
                    assert(gets_encode_v(q) is Err);
                    lemma_gets_encode_err_extends(gets0, done + 1);
                }
                return Err(e);
            },
        };
        reqs.push(
            TransactGetItemReq {
                table: g.table,
                key: k2,
                projection_expression: g.projection_expression,
                expression_attribute_names: g.expression_attribute_names,
            },
        );
        proof {
            let q = gets0.subrange(0, done + 1);
            assert(q.subrange(0, q.len() - 1) =~= gets0.subrange(0, done));
            assert(q[q.len() - 1] == gets0[done]);
        }
    }
    proof {
        assert(gets0.subrange(0, reqs@.len() as int) =~= gets0);
    }
    Ok(reqs)
}

/// Model of decoding a positional response list; the earliest refusal
/// wins, and an absent item stays an explicit absence.
pub open spec fn decode_responses_v(rs: Seq<Option<Seq<(Seq<char>, AttrV)>>>) -> Result<
    Seq<Option<Seq<(Seq<char>, NativeV)>>>,
    DecErr,
>
    decreases rs.len(),
{
    if rs.len() == 0 {
        Ok(Seq::empty())
    } else {
        match decode_responses_v(rs.subrange(0, rs.len() - 1)) {
            Err(e) => Err(e),
            Ok(rest) => match rs[rs.len() - 1] {
                None => Ok(rest.push(None)),
                Some(it) => match decode_entries_v(it) {
                    Ok(d) => Ok(rest.push(Some(d))),
                    Err(e) => Err(e),
                },
            },
        }
    }
}

/// The models of a positional response list.
pub open spec fn responses_view(rs: Seq<Option<Item>>) -> Seq<Option<Seq<(Seq<char>, AttrV)>>> {
    Seq::new(
        rs.len(),
        |i: int|
            match rs[i] {
                Some(it) => Some(attr_entries_view(it@)),
                None => None,
            },
    )
}

/// A response refusal in a prefix settles the whole list.
pub proof fn lemma_decode_responses_err_extends(
    rs: Seq<Option<Seq<(Seq<char>, AttrV)>>>,
    k: int,
)
    requires
        0 <= k <= rs.len(),
        decode_responses_v(rs.subrange(0, k)) is Err,
    ensures
        decode_responses_v(rs) == decode_responses_v(rs.subrange(0, k)),
    decreases rs.len() - k,
{
    if k == rs.len() {
        assert(rs.subrange(0, k) =~= rs);
    } else {
        let q = rs.subrange(0, k + 1);
        assert(q.subrange(0, q.len() - 1) =~= rs.subrange(0, k));
        lemma_decode_responses_err_extends(rs, k + 1);
    }
}

/// Reads a transactional get's positional response list: the result has
/// the same length and order as the request list, every found item decoded
/// at its own index and every absent item an explicit absence at its
/// original index, never omitted.
#[verifier::loop_isolation(false)]
pub fn read_transact_get_responses(responses: Vec<Option<Item>>) -> (r: Result<
    Vec<Option<Vec<(String, NativeValue)>>>,
    PydynoError,
>)
    ensures
        match r {
            Ok(out) => {
                &&& out@.len() == responses@.len()
                &&& (forall|i: int|
                    0 <= i < responses@.len() ==> (match responses@[i] {
                        None => (#[trigger] out@[i]) is None,
                        Some(it) => out@[i] matches Some(d) && decode_entries_v(
                            attr_entries_view(it@),
                        ) == Ok::<Seq<(Seq<char>, NativeV)>, DecErr>(native_entries_view(d@)),
                    }))
            },
            Err(e) => decode_responses_v(responses_view(responses@)) matches Err(k) && e@
                == dec_err_v(k),
        },
{
    let ghost rv = responses_view(responses@);
    let mut out: Vec<Option<Vec<(String, NativeValue)>>> = Vec::new();
    let mut j: usize = 0;
    while j < responses.len()
        invariant
            0 <= j <= responses@.len(),
            out@.len() == j,
            decode_responses_v(rv.subrange(0, j as int)) is Ok,
            forall|i: int|
                0 <= i < j ==> (match responses@[i] {
                    None => (#[trigger] out@[i]) is None,
                    Some(it) => out@[i] matches Some(d) && decode_entries_v(
                        attr_entries_view(it@),
                    ) == Ok::<Seq<(Seq<char>, NativeV)>, DecErr>(native_entries_view(d@)),
                }),
        decreases responses@.len() - j,
    {
        match &responses[j] {
            Some(it) => {
                match decode_item(it) {
                    Ok(d) => {
                        out.push(Some(d));
                        proof {
                            let q = rv.subrange(0, j as int + 1);
                            assert(q.subrange(0, q.len() - 1) =~= rv.subrange(0, j as int));
                            assert(q[q.len() - 1] == rv[j as int]);
                        }
                    },
                    Err(e) => {
                        proof {
                            let q = rv.subrange(0, j as int + 1);
                            assert(q.subrange(0, q.len() - 1) =~= rv.subrange(0, j as int));
                            assert(q[q.len() - 1] == rv[j as int]);
                            assert(decode_responses_v(q) is Err);
                            lemma_decode_responses_err_extends(rv, j as int + 1);
                        }
                        return Err(e);
                    },
                }
            },
            None => {
                out.push(None);
                proof {
                    let q = rv.subrange(0, j as int + 1);
                    assert(q.subrange(0, q.len() - 1) =~= rv.subrange(0, j as int));
                    assert(q[q.len() - 1] == rv[j as int]);
                }
            },
        }
        j += 1;
    }
    Ok(out)
}

/// Settles a transactional get call's failure side: any rejection
/// classifies into the taxonomy.
pub fn transact_get_error(raw: RawBackendError) -> (r: PydynoError)
    ensures
        r@ == classify_v(raw@, None),
{
    classify(raw, None)
}

} // verus!
