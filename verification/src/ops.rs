//! Single-item operations: the pure preparation and result handling around
//! one-shot put, get, update, and delete calls.
//!
//! Preparation validates arguments and builds the request locally, before
//! anything reaches the backend: a missing update source or a return mode
//! the operation cannot honour is refused here. Result handling decodes
//! returned attributes only when the caller asked for them, and classifies
//! backend failures into the typed taxonomy, attaching the conflicting item
//! of a failed condition when the backend supplied one.

use vstd::prelude::*;

use crate::codec::enc_err_v;
use crate::codec::dec_err_v;
use crate::codec::decode_entries_v;
use crate::codec::encode_entries_v;
use crate::codec::encode_item;
use crate::codec::decode_item;
use crate::codec::encode_v;
use crate::codec::EncErr;
use crate::codec::DecErr;
use crate::errors::classify;
use crate::errors::classify_v;
use crate::errors::ErrV;
use crate::errors::Item;
use crate::errors::PydynoError;
use crate::errors::RawBackendError;
use crate::expr::assoc_get;
use crate::expr::build_set_expression;
use crate::expr::lemma_assoc_get_parallel;
use crate::expr::lemma_assoc_get_unique_index;
use crate::expr::lemma_name_ph_injective;
use crate::expr::lemma_value_ph_injective;
use crate::expr::merge_entries;
use crate::expr::name_ph_v;
use crate::expr::set_expr_text_v;
use crate::expr::value_ph_v;
use crate::value::attr_entries_view;
use crate::value::lemma_attr_entries_view;
use crate::value::lemma_native_entries_view;
use crate::value::native_entries_view;
use crate::value::AttrV;
use crate::value::AttributeValue;
use crate::value::NativeV;
use crate::value::NativeValue;

verus! {

broadcast use vstd::std_specs::vec::group_vec_axioms, vstd::seq::group_seq_axioms;

/// Which attribute snapshot the backend is asked to return.
#[derive(Debug, Clone, Copy, PartialEq, Eq, Structural)]
pub enum ReturnMode {
    /// No attributes.
    ReturnNone,
    /// The whole item as it stood before the write.
    AllOld,
    /// The touched attributes as they stood before the write.
    UpdatedOld,
    /// The whole item as it stands after the write.
    AllNew,
    /// The touched attributes as they stand after the write.
    UpdatedNew,
}

/// Model of reading a return-mode word.
pub open spec fn parse_return_mode_v(s: Seq<char>) -> Option<ReturnMode> {
    if s == "NONE"@ {
        Some(ReturnMode::ReturnNone)
    } else if s == "ALL_OLD"@ {
        Some(ReturnMode::AllOld)
    } else if s == "UPDATED_OLD"@ {
        Some(ReturnMode::UpdatedOld)
    } else if s == "ALL_NEW"@ {
        Some(ReturnMode::AllNew)
    } else if s == "UPDATED_NEW"@ {
        Some(ReturnMode::UpdatedNew)
    } else {
        None
    }
}

/// The message refusing an unknown return-mode word.
pub open spec fn invalid_rv_msg(s: Seq<char>) -> Seq<char> {
    "Invalid return_values: '"@ + s
        + "'. Must be one of: NONE, ALL_OLD, UPDATED_OLD, ALL_NEW, UPDATED_NEW"@
}

/// Reads a return-mode word. Fails with a validation error exactly on a
/// word that names no mode.
pub fn parse_return_values(value: &str) -> (r: Result<ReturnMode, PydynoError>)
    ensures
        match r {
            Ok(m) => parse_return_mode_v(value@) == Some(m),
            Err(e) => parse_return_mode_v(value@) is None && e@ == ErrV::Validation(
                invalid_rv_msg(value@),
            ),
        },
{
    if crate::strutil::str_eq(value, "NONE") {
        Ok(ReturnMode::ReturnNone)
    } else if crate::strutil::str_eq(value, "ALL_OLD") {
        Ok(ReturnMode::AllOld)
    } else if crate::strutil::str_eq(value, "UPDATED_OLD") {
        Ok(ReturnMode::UpdatedOld)
    } else if crate::strutil::str_eq(value, "ALL_NEW") {
        Ok(ReturnMode::AllNew)
    } else if crate::strutil::str_eq(value, "UPDATED_NEW") {
        Ok(ReturnMode::UpdatedNew)
    } else {
        let m = String::from_str("Invalid return_values: '").concat(value).concat(
            "'. Must be one of: NONE, ALL_OLD, UPDATED_OLD, ALL_NEW, UPDATED_NEW",
        );
        Err(PydynoError::Validation(m))
    }
}

/// A prepared update request: everything the backend call needs, already
/// encoded and merged.
#[derive(Debug)]
pub struct PreparedUpdateItem {
    pub table: String,
    pub key: Item,
    pub update_expression: String,
    pub condition_expression: Option<String>,
    pub expression_attribute_names: Vec<(String, String)>,
    pub expression_attribute_values: Vec<(String, AttributeValue)>,
    pub return_values_on_condition_check_failure: bool,
    pub return_values: Option<ReturnMode>,
}

/// The message refusing an update with no update source.
pub open spec fn missing_update_msg() -> Seq<char> {
    "Either 'updates' or 'update_expression' must be provided"@
}

/// Prepares an update: encodes the key, compiles the field updates into a
/// `SET` expression (or takes the caller's raw expression), merges the
/// placeholder maps with caller entries winning, and reads the return
/// mode. Refuses, locally and before any network call: a request with
/// neither field updates nor a raw expression, a value that cannot be
/// encoded, and an unknown return-mode word.
#[verifier::loop_isolation(false)]
pub fn prepare_update_item(
    table: &str,
    key: &Vec<(String, NativeValue)>,
    updates: Option<&Vec<(String, NativeValue)>>,
    update_expression: Option<String>,
    condition_expression: Option<String>,
    expression_attribute_names: Vec<(String, String)>,
    expression_attribute_values: Vec<(String, NativeValue)>,
    return_values_on_condition_check_failure: bool,
    return_values: Option<String>,
) -> (r: Result<PreparedUpdateItem, PydynoError>)
    ensures
        match r {
            Ok(p) => {
                &&& p.table@ == table@
                &&& encode_entries_v(native_entries_view(key@)) == Ok::<
                    Seq<(Seq<char>, AttrV)>,
                    EncErr,
                >(attr_entries_view(p.key@))
                &&& (updates is Some || update_expression is Some)
                &&& (match updates {
                    Some(u) => p.update_expression@ == set_expr_text_v(u@.len())
                        && encode_entries_v(native_entries_view(u@)) is Ok,
                    None => match update_expression {
                        Some(e) => p.update_expression@ == e@,
                        None => false,
                    },
                })
                &&& p.condition_expression == condition_expression
                &&& p.return_values_on_condition_check_failure
                    == return_values_on_condition_check_failure
                &&& (match return_values {
                    Some(s) => if s@ == "NONE"@ {
                        p.return_values is None
                    } else {
                        parse_return_mode_v(s@) matches Some(m) && p.return_values == Some(m)
                    },
                    None => p.return_values is None,
                })
                &&& encode_entries_v(native_entries_view(expression_attribute_values@)) is Ok
                &&& (forall|k: Seq<char>|
                    assoc_get(expression_attribute_names@, k) matches Some(v)
                        ==> #[trigger] assoc_get(p.expression_attribute_names@, k) == Some(v))
                &&& (match updates {
                    Some(u) => forall|i: int|
                        0 <= i < u@.len() && assoc_get(
                            expression_attribute_names@,
                            name_ph_v(i as nat),
                        ) is None ==> (#[trigger] assoc_get(
                            p.expression_attribute_names@,
                            name_ph_v(i as nat),
                        ) matches Some(x) && x@ == u@[i].0@),
                    None => true,
                })
                &&& (forall|k: Seq<char>|
                    assoc_get(expression_attribute_values@, k) matches Some(nv) ==> (
                    #[trigger] assoc_get(p.expression_attribute_values@, k) matches Some(av)
                        && encode_v(nv@) == Ok::<AttrV, EncErr>(av@)))
                &&& (match updates {
                    Some(u) => forall|i: int|
                        0 <= i < u@.len() && assoc_get(
                            expression_attribute_values@,
                            value_ph_v(i as nat),
                        ) is None ==> (#[trigger] assoc_get(
                            p.expression_attribute_values@,
                            value_ph_v(i as nat),
                        ) matches Some(av) && encode_v(u@[i].1@) == Ok::<AttrV, EncErr>(av@)),
                    None => true,
                })
                &&& (forall|k: Seq<char>|
                    #[trigger] assoc_get(p.expression_attribute_names@, k) is Some ==> (
                    assoc_get(expression_attribute_names@, k) is Some || (match updates {
                        Some(u) => exists|i: int|
                            0 <= i < u@.len() && k == #[trigger] name_ph_v(i as nat),
                        None => false,
                    })))
                &&& (forall|k: Seq<char>|
                    #[trigger] assoc_get(p.expression_attribute_values@, k) is Some ==> (
                    assoc_get(expression_attribute_values@, k) is Some || (match updates {
                        Some(u) => exists|i: int|
                            0 <= i < u@.len() && k == #[trigger] value_ph_v(i as nat),
                        None => false,
                    })))
            },
            Err(e) => {
                let kenc = encode_entries_v(native_entries_view(key@));
                if kenc is Err {
                    e@ == enc_err_v(kenc->Err_0)
                } else if updates is None && update_expression is None {
                    e@ == ErrV::Validation(missing_update_msg())
                } else if (match updates {
                    Some(u) => encode_entries_v(native_entries_view(u@)) is Err,
                    None => false,
                }) {
                    e@ == enc_err_v(encode_entries_v(native_entries_view(updates->0@))->Err_0)
                } else if encode_entries_v(native_entries_view(expression_attribute_values@))
                    is Err {
                    e@ == enc_err_v(
                        encode_entries_v(
                            native_entries_view(expression_attribute_values@),
                        )->Err_0,
                    )
                } else {
                    return_values matches Some(s) && s@ != "NONE"@ && parse_return_mode_v(s@)
                        is None && e@ == ErrV::Validation(invalid_rv_msg(s@))
                }
            },
        },
{
    let dynamo_key = match encode_item(key) {
        Ok(k) => k,
        Err(e) => {
            return Err(e);
        },
    };
    let (final_expr, auto_names, auto_values): (
        String,
        Vec<(String, String)>,
        Vec<(String, AttributeValue)>,
    ) = match updates {
        Some(upd) => {
            match build_set_expression(upd) {
                Ok(out) => {
                    proof {
                        lemma_native_entries_view(upd@);
                        assert forall|i: int| 0 <= i < native_entries_view(upd@).len() implies
                            encode_v((#[trigger] native_entries_view(upd@)[i]).1) is Ok by {
                            assert(native_entries_view(upd@)[i] == (upd@[i].0@, upd@[i].1@));
                            assert(out.2@[i].0@ == crate::expr::value_ph_v(i as nat) && encode_v(
                                upd@[i].1@,
                            ) == Ok::<AttrV, EncErr>(out.2@[i].1@));
                        }
                        crate::codec::lemma_encode_entries_all_ok(native_entries_view(upd@));
                    }
                    out
                },
                Err(e) => {
                    return Err(e);
                },
            }
        },
        None => match update_expression {
            Some(expr) => (expr, Vec::new(), Vec::new()),
            None => {
                return Err(
                    PydynoError::Validation(
                        String::from_str(
                            "Either 'updates' or 'update_expression' must be provided",
                        ),
                    ),
                );
            },
        },
    };
    let ghost auto_names0 = auto_names@;
    let ghost auto_values0 = auto_values@;
    proof {
        if updates is Some {
            assert forall|i: int, j: int|
                0 <= i < j < auto_names0.len() implies (#[trigger] auto_names0[i].0@) != (
            #[trigger] auto_names0[j].0@) by {
                if auto_names0[i].0@ == auto_names0[j].0@ {
                    lemma_name_ph_injective(i as nat, j as nat);
                }
            }
            assert forall|i: int, j: int|
                0 <= i < j < auto_values0.len() implies (#[trigger] auto_values0[i].0@) != (
            #[trigger] auto_values0[j].0@) by {
                if auto_values0[i].0@ == auto_values0[j].0@ {
                    lemma_value_ph_injective(i as nat, j as nat);
                }
            }
        }
    }
    let names = merge_entries(auto_names, expression_attribute_names);
    let user_vals_enc = match encode_item(&expression_attribute_values) {
        Ok(v) => v,
        Err(e) => {
            return Err(e);
        },
    };
    proof {
        lemma_native_entries_view(expression_attribute_values@);
        lemma_attr_entries_view(user_vals_enc@);
        crate::codec::lemma_encode_entries_pointwise(
            native_entries_view(expression_attribute_values@),
            attr_entries_view(user_vals_enc@),
        );
        assert forall|i: int| 0 <= i < expression_attribute_values@.len() implies (
        #[trigger] expression_attribute_values@[i].0@) == user_vals_enc@[i].0@ by {
            assert(native_entries_view(expression_attribute_values@)[i].0
                == attr_entries_view(user_vals_enc@)[i].0);
        }
    }
    let values = merge_entries(auto_values, user_vals_enc);
    let ghost user_vals0 = expression_attribute_values@;
    let ghost enc_vals0 = user_vals_enc@;
    let rv: Option<ReturnMode> = match &return_values {
        Some(s) => {
            if crate::strutil::str_eq(s.as_str(), "NONE") {
                None
            } else {
                match parse_return_values(s.as_str()) {
                    Ok(m) => Some(m),
                    Err(e) => {
                        return Err(e);
                    },
                }
            }
        },
        None => None,
    };
    let p = PreparedUpdateItem {
        table: String::from_str(table),
        key: dynamo_key,
        update_expression: final_expr,
        condition_expression,
        expression_attribute_names: names,
        expression_attribute_values: values,
        return_values_on_condition_check_failure,
        return_values: rv,
    };
    proof {
        match updates {
            Some(u) => {
                assert forall|i: int|
                    0 <= i < u@.len() && assoc_get(
                        expression_attribute_names@,
                        name_ph_v(i as nat),
                    ) is None implies (#[trigger] assoc_get(
                    p.expression_attribute_names@,
                    name_ph_v(i as nat),
                ) matches Some(x) && x@ == u@[i].0@) by {
                    assert(auto_names0[i].0@ == name_ph_v(i as nat));
                    lemma_assoc_get_unique_index(auto_names0, i);
                }
                assert forall|i: int|
                    0 <= i < u@.len() && assoc_get(user_vals0, value_ph_v(i as nat))
                        is None implies (#[trigger] assoc_get(
                    p.expression_attribute_values@,
                    value_ph_v(i as nat),
                ) matches Some(av) && encode_v(u@[i].1@) == Ok::<AttrV, EncErr>(av@)) by {
                    assert(auto_values0[i].0@ == value_ph_v(i as nat));
                    lemma_assoc_get_unique_index(auto_values0, i);
                    lemma_assoc_get_parallel(user_vals0, enc_vals0, value_ph_v(i as nat));
                }
            },
            None => {},
        }
        assert forall|k: Seq<char>| #[trigger] assoc_get(p.expression_attribute_names@, k)
            is Some implies (assoc_get(expression_attribute_names@, k) is Some || (match updates {
            Some(u) => exists|i: int| 0 <= i < u@.len() && k == #[trigger] name_ph_v(i as nat),
            None => false,
        })) by {
            if assoc_get(expression_attribute_names@, k) is None {
                assert(assoc_get(auto_names0, k) is Some);
                crate::expr::lemma_assoc_get_some(auto_names0, k);
                let idx = choose|idx: int|
                    0 <= idx < auto_names0.len() && (#[trigger] auto_names0[idx].0@) == k;
                match updates {
                    Some(u) => {
                        assert(auto_names0[idx].0@ == name_ph_v(idx as nat));
                    },
                    None => {},
                }
            }
        }
        assert forall|k: Seq<char>| #[trigger] assoc_get(p.expression_attribute_values@, k)
            is Some implies (assoc_get(user_vals0, k) is Some || (match updates {
            Some(u) => exists|i: int| 0 <= i < u@.len() && k == #[trigger] value_ph_v(i as nat),
            None => false,
        })) by {
            if assoc_get(enc_vals0, k) is Some {
                lemma_assoc_get_parallel(user_vals0, enc_vals0, k);
            } else {
                assert(assoc_get(auto_values0, k) is Some);
                crate::expr::lemma_assoc_get_some(auto_values0, k);
                let idx = choose|idx: int|
                    0 <= idx < auto_values0.len() && (#[trigger] auto_values0[idx].0@) == k;
                match updates {
                    Some(u) => {
                        assert(auto_values0[idx].0@ == value_ph_v(idx as nat));
                    },
                    None => {},
                }
            }
        }
        assert forall|k: Seq<char>| assoc_get(user_vals0, k) is Some implies {
            &&& #[trigger] assoc_get(p.expression_attribute_values@, k) == assoc_get(enc_vals0, k)
            &&& assoc_get(enc_vals0, k) is Some
            &&& encode_v(assoc_get(user_vals0, k)->0@) == Ok::<AttrV, EncErr>(
                assoc_get(enc_vals0, k)->0@,
            )
        } by {
            lemma_assoc_get_parallel(user_vals0, enc_vals0, k);
            let i = choose|i: int|
                0 <= i < user_vals0.len() && (#[trigger] user_vals0[i].0@) == k && assoc_get(
                    user_vals0,
                    k,
                ) == Some(user_vals0[i].1) && assoc_get(enc_vals0, k) == Some(enc_vals0[i].1);
            assert(encode_v(native_entries_view(user_vals0)[i].1) == Ok::<AttrV, EncErr>(
                attr_entries_view(enc_vals0)[i].1,
            ));
        }
    }
    Ok(p)
}


/// A prepared delete request.
#[derive(Debug)]
pub struct PreparedDeleteItem {
    pub table: String,
    pub key: Item,
    pub condition_expression: Option<String>,
    pub expression_attribute_names: Option<Vec<(String, String)>>,
    pub expression_attribute_values: Option<Vec<(String, AttributeValue)>>,
    pub return_values_on_condition_check_failure: bool,
    pub return_values: Option<ReturnMode>,
}

/// The message refusing a return mode a delete cannot honour.
pub open spec fn invalid_delete_rv_msg(s: Seq<char>) -> Seq<char> {
    "Invalid return_values for delete_item: '"@ + s + "'. Must be NONE or ALL_OLD"@
}

/// Prepares a delete: encodes the key and the caller's value placeholders,
/// and reads the return mode. A delete can return nothing or the old item,
/// so any other requested mode is refused here, locally and before any
/// network call.
pub fn prepare_delete_item(
    table: &str,
    key: &Vec<(String, NativeValue)>,
    condition_expression: Option<String>,
    expression_attribute_names: Option<Vec<(String, String)>>,
    expression_attribute_values: Option<Vec<(String, NativeValue)>>,
    return_values_on_condition_check_failure: bool,
    return_values: Option<String>,
) -> (r: Result<PreparedDeleteItem, PydynoError>)
    ensures
        match r {
            Ok(p) => {
                &&& p.table@ == table@
                &&& encode_entries_v(native_entries_view(key@)) == Ok::<
                    Seq<(Seq<char>, AttrV)>,
                    EncErr,
                >(attr_entries_view(p.key@))
                &&& p.condition_expression == condition_expression
                &&& p.expression_attribute_names == expression_attribute_names
                &&& (match expression_attribute_values {
                    Some(v) => p.expression_attribute_values matches Some(ev)
                        && encode_entries_v(native_entries_view(v@)) == Ok::<
                        Seq<(Seq<char>, AttrV)>,
                        EncErr,
                    >(attr_entries_view(ev@)),
                    None => p.expression_attribute_values is None,
                })
                &&& p.return_values_on_condition_check_failure
                    == return_values_on_condition_check_failure
                &&& (match return_values {
                    Some(s) => (s@ == "ALL_OLD"@ && p.return_values == Some(ReturnMode::AllOld))
                        || (s@ == "NONE"@ && p.return_values is None),
                    None => p.return_values is None,
                })
            },
            Err(e) => {
                let kenc = encode_entries_v(native_entries_view(key@));
                if kenc is Err {
                    e@ == enc_err_v(kenc->Err_0)
                } else if (match expression_attribute_values {
                    Some(v) => encode_entries_v(native_entries_view(v@)) is Err,
                    None => false,
                }) {
                    e@ == enc_err_v(
                        encode_entries_v(
                            native_entries_view(expression_attribute_values->0@),
                        )->Err_0,
                    )
                } else {
                    return_values matches Some(s) && s@ != "ALL_OLD"@ && s@ != "NONE"@ && e@
                        == ErrV::Validation(invalid_delete_rv_msg(s@))
                }
            },
        },
{
    let dynamo_key = match encode_item(key) {
        Ok(k) => k,
        Err(e) => {
            return Err(e);
        },
    };
    let values: Option<Vec<(String, AttributeValue)>> = match &expression_attribute_values {
        Some(v) => match encode_item(v) {
            Ok(ev) => Some(ev),
            Err(e) => {
                return Err(e);
            },
        },
        None => None,
    };
    let rv: Option<ReturnMode> = match &return_values {
        Some(s) => {
            if crate::strutil::str_eq(s.as_str(), "ALL_OLD") {
                Some(ReturnMode::AllOld)
            } else if crate::strutil::str_eq(s.as_str(), "NONE") {
                None
            } else {
                let m = String::from_str("Invalid return_values for delete_item: '").concat(
                    s.as_str(),
                ).concat("'. Must be NONE or ALL_OLD");
                return Err(PydynoError::Validation(m));
            }
        },
        None => None,
    };
    Ok(
        PreparedDeleteItem {
            table: String::from_str(table),
            key: dynamo_key,
            condition_expression,
            expression_attribute_names,
            expression_attribute_values: values,
            return_values_on_condition_check_failure,
            return_values: rv,
        },
    )
}

/// What a successful write call reports back: the attribute snapshot the
/// caller asked for, if any, and the consumed capacity as decimal text.
#[derive(Debug)]
pub struct WriteOutcome {
    pub attributes: Option<Item>,
    pub capacity_units: Option<String>,
}

/// The decoded result of an update.
#[derive(Debug)]
pub struct UpdateItemResult {
    pub attributes: Option<Vec<(String, NativeValue)>>,
    pub capacity_units: Option<String>,
}

/// The decoded result of a delete.
#[derive(Debug)]
pub struct DeleteItemResult {
    pub attributes: Option<Vec<(String, NativeValue)>>,
    pub capacity_units: Option<String>,
}

/// Settles an update call: on success, decodes the returned attribute
/// snapshot only when the caller asked for one (decoding is skipped
/// entirely otherwise); on failure, classifies the raw error with the
/// table's name, which attaches the conflicting item of a failed condition
/// whenever the backend supplied it.
pub fn update_item_outcome(
    table: &str,
    wants_attributes: bool,
    resp: Result<WriteOutcome, RawBackendError>,
) -> (r: Result<UpdateItemResult, PydynoError>)
    ensures
        match r {
            Ok(out) => {
                &&& resp is Ok
                &&& out.capacity_units == resp->Ok_0.capacity_units
                &&& (match resp->Ok_0.attributes {
                    Some(it) => if wants_attributes {
                        out.attributes matches Some(d) && decode_entries_v(attr_entries_view(it@))
                            == Ok::<Seq<(Seq<char>, NativeV)>, DecErr>(native_entries_view(d@))
                    } else {
                        out.attributes is None
                    },
                    None => out.attributes is None,
                })
            },
            Err(e) => match resp {
                Ok(o) => wants_attributes && (o.attributes matches Some(it)
                    && (decode_entries_v(attr_entries_view(it@)) matches Err(k) && e@
                    == dec_err_v(k))),
                Err(raw) => e@ == classify_v(raw@, Some(table@)),
            },
        },
{
    match resp {
        Ok(o) => {
            let attributes: Option<Vec<(String, NativeValue)>> = if wants_attributes {
                match o.attributes {
                    Some(it) => match decode_item(&it) {
                        Ok(d) => Some(d),
                        Err(e) => {
                            return Err(e);
                        },
                    },
                    None => None,
                }
            } else {
                None
            };
            Ok(UpdateItemResult { attributes, capacity_units: o.capacity_units })
        },
        Err(raw) => Err(classify(raw, Some(table))),
    }
}

/// Settles a delete call, exactly as an update's outcome is settled.
pub fn delete_item_outcome(
    table: &str,
    wants_attributes: bool,
    resp: Result<WriteOutcome, RawBackendError>,
) -> (r: Result<DeleteItemResult, PydynoError>)
    ensures
        match r {
            Ok(out) => {
                &&& resp is Ok
                &&& out.capacity_units == resp->Ok_0.capacity_units
                &&& (match resp->Ok_0.attributes {
                    Some(it) => if wants_attributes {
                        out.attributes matches Some(d) && decode_entries_v(attr_entries_view(it@))
                            == Ok::<Seq<(Seq<char>, NativeV)>, DecErr>(native_entries_view(d@))
                    } else {
                        out.attributes is None
                    },
                    None => out.attributes is None,
                })
            },
            Err(e) => match resp {
                Ok(o) => wants_attributes && (o.attributes matches Some(it)
                    && (decode_entries_v(attr_entries_view(it@)) matches Err(k) && e@
                    == dec_err_v(k))),
                Err(raw) => e@ == classify_v(raw@, Some(table@)),
            },
        },
{
    match resp {
        Ok(o) => {
            let attributes: Option<Vec<(String, NativeValue)>> = if wants_attributes {
                match o.attributes {
                    Some(it) => match decode_item(&it) {
                        Ok(d) => Some(d),
                        Err(e) => {
                            return Err(e);
                        },
                    },
                    None => None,
                }
            } else {
                None
            };
            Ok(DeleteItemResult { attributes, capacity_units: o.capacity_units })
        },
        Err(raw) => Err(classify(raw, Some(table))),
    }
}

/// The result of a put: nothing beyond the consumed capacity.
#[derive(Debug)]
pub struct PutItemResult {
    pub capacity_units: Option<String>,
}

/// The decoded result of a get: the item, or its explicit absence, which
/// is not an error.
#[derive(Debug)]
pub struct GetItemResult {
    pub item: Option<Vec<(String, NativeValue)>>,
    pub capacity_units: Option<String>,
}

/// Settles a put call: success carries only the capacity metric; a failure
/// is classified with the table's name, so a missing table is reported as
/// a resource-not-found naming it.
pub fn put_item_outcome(table: &str, resp: Result<WriteOutcome, RawBackendError>) -> (r: Result<
    PutItemResult,
    PydynoError,
>)
    ensures
        match r {
            Ok(out) => resp is Ok && out.capacity_units == resp->Ok_0.capacity_units,
            Err(e) => resp matches Err(raw) && e@ == classify_v(raw@, Some(table@)),
        },
{
    match resp {
        Ok(o) => Ok(PutItemResult { capacity_units: o.capacity_units }),
        Err(raw) => Err(classify(raw, Some(table))),
    }
}

/// Settles a get call: a found item is decoded, an absent one is an
/// explicit `None`, never an error; a failure is classified with the
/// table's name.
pub fn get_item_outcome(
    table: &str,
    resp: Result<(Option<Item>, Option<String>), RawBackendError>,
) -> (r: Result<GetItemResult, PydynoError>)
    ensures
        match r {
            Ok(out) => {
                &&& resp is Ok
                &&& out.capacity_units == resp->Ok_0.1
                &&& (match resp->Ok_0.0 {
                    Some(it) => out.item matches Some(d) && decode_entries_v(
                        attr_entries_view(it@),
                    ) == Ok::<Seq<(Seq<char>, NativeV)>, DecErr>(native_entries_view(d@)),
                    None => out.item is None,
                })
            },
            Err(e) => match resp {
                Ok(o) => o.0 matches Some(it) && decode_entries_v(attr_entries_view(it@))
                    matches Err(k) && e@ == dec_err_v(k),
                Err(raw) => e@ == classify_v(raw@, Some(table@)),
            },
        },
{
    match resp {
        Ok(o) => {
            let item: Option<Vec<(String, NativeValue)>> = match o.0 {
                Some(it) => match decode_item(&it) {
                    Ok(d) => Some(d),
                    Err(e) => {
                        return Err(e);
                    },
                },
                None => None,
            };
            Ok(GetItemResult { item, capacity_units: o.1 })
        },
        Err(raw) => Err(classify(raw, Some(table))),
    }
}

/// A condition-check failure classifies as `ConditionCheckFailed`, and the
/// conflicting item the backend supplied rides along with it, whatever the
/// caller's requested return mode.
pub proof fn lemma_condition_failure_carries_item(
    message: Seq<char>,
    item: Option<Seq<(Seq<char>, AttrV)>>,
    reasons: Option<Seq<Seq<char>>>,
    resource: Option<Seq<char>>,
)
    ensures
        classify_v(
            crate::errors::RawV::Service {
                code: "ConditionalCheckFailedException"@,
                message,
                item,
                reasons,
            },
            resource,
        ) == ErrV::ConditionCheckFailed("Condition check failed: "@ + message, item),
{
}

/// A resource-not-found code with a known table name classifies as
/// `ResourceNotFound` with a message naming that table.
pub proof fn lemma_resource_not_found_names_table(
    message: Seq<char>,
    item: Option<Seq<(Seq<char>, AttrV)>>,
    reasons: Option<Seq<Seq<char>>>,
    table: Seq<char>,
)
    ensures
        classify_v(
            crate::errors::RawV::Service {
                code: "ResourceNotFoundException"@,
                message,
                item,
                reasons,
            },
            Some(table),
        ) == ErrV::ResourceNotFound("Table not found: "@ + table),
{
    reveal_strlit("ResourceNotFoundException");
    reveal_strlit("ConditionalCheckFailedException");
    reveal_strlit("TransactionCanceledException");
    assert("ResourceNotFoundException"@.len() == 25);
    assert("ConditionalCheckFailedException"@.len() == 31);
    assert("TransactionCanceledException"@.len() == 28);
}

} // verus!
