//! The value codec: bidirectional conversion between native dynamic values
//! and the store's tagged attribute encoding, recursive through containers.
//!
//! Encoding dispatches on the native value's shape, testing boolean before
//! integer; numbers become decimal text. Decoding re-parses number text and
//! chooses integer or floating-point by scanning for a marker (`.`, `e`,
//! `E`): absence means integer. Sets are typed by their first element, and
//! empty or mixed sets are rejected before anything reaches the backend.

use vstd::prelude::*;

use crate::errors::ErrV;
use crate::errors::PydynoError;
use crate::numtext::dec_of_int;
use crate::numtext::float_text_wf;
use crate::numtext::has_float_marker;
use crate::numtext::int_text_val;
use crate::numtext::int_text_wf;
use crate::value::native_seq_view;
use crate::value::native_entries_view;
use crate::value::attr_seq_view;
use crate::value::attr_entries_view;
use crate::value::lemma_native_seq_view;
use crate::value::lemma_native_entries_view;
use crate::value::lemma_attr_seq_view;
use crate::value::lemma_attr_entries_view;
use crate::value::AttrV;
use crate::value::AttributeValue;
use crate::value::NativeV;
use crate::value::NativeValue;

verus! {

broadcast use vstd::std_specs::vec::group_vec_axioms, vstd::seq::group_seq_axioms;

/// Why an encoding was refused.
pub enum EncErr {
    /// A set with no elements; the backend cannot represent it.
    EmptySet,
    /// A string set holding something that is not a string.
    MixedStr,
    /// A number set holding something that is not a number.
    MixedNum,
    /// A binary set holding something that is not a byte sequence.
    MixedBytes,
    /// A set whose elements are of a kind no set variant can hold.
    BadSetElem,
}

/// Whether a native value is a number: an integer or a float.
pub open spec fn is_num_v(v: NativeV) -> bool {
    v is Int || v is Float
}

/// The decimal text a native number encodes to.
pub open spec fn num_text_v(v: NativeV) -> Seq<char> {
    match v {
        NativeV::Int(i) => dec_of_int(i),
        NativeV::Float(t) => t,
        _ => Seq::empty(),
    }
}

/// Model of set encoding: the set is typed by its first element, an empty
/// set is refused, and a mixed set is refused.
pub open spec fn encode_set_v(items: Seq<NativeV>) -> Result<AttrV, EncErr> {
    if items.len() == 0 {
        Err(EncErr::EmptySet)
    } else if items[0] is Str {
        if forall|i: int| 0 <= i < items.len() ==> #[trigger] items[i] is Str {
            Ok(AttrV::Ss(Seq::new(items.len(), |i: int| items[i]->Str_0)))
        } else {
            Err(EncErr::MixedStr)
        }
    } else if is_num_v(items[0]) {
        if forall|i: int| 0 <= i < items.len() ==> is_num_v(#[trigger] items[i]) {
            Ok(AttrV::Ns(Seq::new(items.len(), |i: int| num_text_v(items[i]))))
        } else {
            Err(EncErr::MixedNum)
        }
    } else if items[0] is Bytes {
        if forall|i: int| 0 <= i < items.len() ==> #[trigger] items[i] is Bytes {
            Ok(AttrV::Bs(Seq::new(items.len(), |i: int| items[i]->Bytes_0)))
        } else {
            Err(EncErr::MixedBytes)
        }
    } else {
        Err(EncErr::BadSetElem)
    }
}

/// Model of encoding one native value.
pub open spec fn encode_v(v: NativeV) -> Result<AttrV, EncErr>
    decreases v,
{
    match v {
        NativeV::Null => Ok(AttrV::Null),
        NativeV::Bool(b) => Ok(AttrV::Bool(b)),
        NativeV::Int(i) => Ok(AttrV::N(dec_of_int(i))),
        NativeV::Float(t) => Ok(AttrV::N(t)),
        NativeV::Str(s) => Ok(AttrV::S(s)),
        NativeV::Bytes(b) => Ok(AttrV::B(b)),
        NativeV::List(items) => match encode_seq_v(items) {
            Ok(s) => Ok(AttrV::L(s)),
            Err(e) => Err(e),
        },
        NativeV::Dict(entries) => match encode_entries_v(entries) {
            Ok(s) => Ok(AttrV::M(s)),
            Err(e) => Err(e),
        },
        NativeV::SetVal(items) => encode_set_v(items),
    }
}

/// Model of encoding a sequence of native values, element by element; the
/// earliest refusal wins.
pub open spec fn encode_seq_v(items: Seq<NativeV>) -> Result<Seq<AttrV>, EncErr>
    decreases items,
{
    if items.len() == 0 {
        Ok(Seq::empty())
    } else {
        match encode_seq_v(items.subrange(0, items.len() - 1)) {
            Err(e) => Err(e),
            Ok(rest) => match encode_v(items[items.len() - 1]) {
                Ok(a) => Ok(rest.push(a)),
                Err(e) => Err(e),
            },
        }
    }
}

/// Model of encoding string-keyed entries, element by element; the earliest
/// refusal wins.
pub open spec fn encode_entries_v(entries: Seq<(Seq<char>, NativeV)>) -> Result<
    Seq<(Seq<char>, AttrV)>,
    EncErr,
>
    decreases entries,
{
    if entries.len() == 0 {
        Ok(Seq::empty())
    } else {
        match encode_entries_v(entries.subrange(0, entries.len() - 1)) {
            Err(e) => Err(e),
            Ok(rest) => match encode_v(entries[entries.len() - 1].1) {
                Ok(a) => Ok(rest.push((entries[entries.len() - 1].0, a))),
                Err(e) => Err(e),
            },
        }
    }
}

/// The taxonomy error each encoding refusal becomes.
pub open spec fn enc_err_v(e: EncErr) -> ErrV {
    match e {
        EncErr::EmptySet => ErrV::Validation("DynamoDB does not support empty sets"@),
        EncErr::MixedStr => ErrV::Serialization("String set must contain only strings"@),
        EncErr::MixedNum => ErrV::Serialization("Number set must contain only numbers"@),
        EncErr::MixedBytes => ErrV::Serialization("Binary set must contain only bytes"@),
        EncErr::BadSetElem => ErrV::Serialization(
            "Sets can only contain strings, numbers, or bytes"@,
        ),
    }
}

/// A refusal in a prefix settles the whole sequence.
pub proof fn lemma_encode_seq_err_extends(items: Seq<NativeV>, k: int)
    requires
        0 <= k <= items.len(),
        encode_seq_v(items.subrange(0, k)) is Err,
    ensures
        encode_seq_v(items) == encode_seq_v(items.subrange(0, k)),
    decreases items.len() - k,
{
    if k == items.len() {
        assert(items.subrange(0, k) =~= items);
    } else {
        let p = items.subrange(0, k);
        let q = items.subrange(0, k + 1);
        assert(q.subrange(0, q.len() - 1) =~= p);
        lemma_encode_seq_err_extends(items, k + 1);
    }
}

/// A refusal in a prefix of entries settles the whole sequence.
pub proof fn lemma_encode_entries_err_extends(entries: Seq<(Seq<char>, NativeV)>, k: int)
    requires
        0 <= k <= entries.len(),
        encode_entries_v(entries.subrange(0, k)) is Err,
    ensures
        encode_entries_v(entries) == encode_entries_v(entries.subrange(0, k)),
    decreases entries.len() - k,
{
    if k == entries.len() {
        assert(entries.subrange(0, k) =~= entries);
    } else {
        let p = entries.subrange(0, k);
        let q = entries.subrange(0, k + 1);
        assert(q.subrange(0, q.len() - 1) =~= p);
        lemma_encode_entries_err_extends(entries, k + 1);
    }
}

/// Why a decoding was refused.
pub enum DecErr {
    /// Stored number text that neither parses as an integer nor is
    /// well-formed floating-point text.
    BadNumber(Seq<char>),
}

/// Model of re-parsing stored number text: a floating-point marker selects
/// the float reading, its absence the integer reading.
pub open spec fn decode_num_v(t: Seq<char>) -> Result<NativeV, DecErr> {
    if has_float_marker(t) {
        if float_text_wf(t) {
            Ok(NativeV::Float(t))
        } else {
            Err(DecErr::BadNumber(t))
        }
    } else {
        if int_text_wf(t) && i64::MIN <= int_text_val(t) <= i64::MAX {
            Ok(NativeV::Int(int_text_val(t)))
        } else {
            Err(DecErr::BadNumber(t))
        }
    }
}

/// Model of decoding one stored attribute value.
pub open spec fn decode_v(a: AttrV) -> Result<NativeV, DecErr>
    decreases a,
{
    match a {
        AttrV::S(s) => Ok(NativeV::Str(s)),
        AttrV::N(t) => decode_num_v(t),
        AttrV::Bool(b) => Ok(NativeV::Bool(b)),
        AttrV::Null => Ok(NativeV::Null),
        AttrV::B(b) => Ok(NativeV::Bytes(b)),
        AttrV::L(items) => match decode_seq_v(items) {
            Ok(s) => Ok(NativeV::List(s)),
            Err(e) => Err(e),
        },
        AttrV::M(entries) => match decode_entries_v(entries) {
            Ok(s) => Ok(NativeV::Dict(s)),
            Err(e) => Err(e),
        },
        AttrV::Ss(ss) => Ok(NativeV::SetVal(Seq::new(ss.len(), |i: int| NativeV::Str(ss[i])))),
        AttrV::Ns(ns) => match decode_num_seq_v(ns) {
            Ok(s) => Ok(NativeV::SetVal(s)),
            Err(e) => Err(e),
        },
        AttrV::Bs(bs) => Ok(NativeV::SetVal(Seq::new(bs.len(), |i: int| NativeV::Bytes(bs[i])))),
    }
}

/// Model of decoding a sequence of stored values, element by element; the
/// earliest refusal wins.
pub open spec fn decode_seq_v(items: Seq<AttrV>) -> Result<Seq<NativeV>, DecErr>
    decreases items,
{
    if items.len() == 0 {
        Ok(Seq::empty())
    } else {
        match decode_seq_v(items.subrange(0, items.len() - 1)) {
            Err(e) => Err(e),
            Ok(rest) => match decode_v(items[items.len() - 1]) {
                Ok(n) => Ok(rest.push(n)),
                Err(e) => Err(e),
            },
        }
    }
}

/// Model of decoding string-keyed stored entries, element by element; the
/// earliest refusal wins.
pub open spec fn decode_entries_v(entries: Seq<(Seq<char>, AttrV)>) -> Result<
    Seq<(Seq<char>, NativeV)>,
    DecErr,
>
    decreases entries,
{
    if entries.len() == 0 {
        Ok(Seq::empty())
    } else {
        match decode_entries_v(entries.subrange(0, entries.len() - 1)) {
            Err(e) => Err(e),
            Ok(rest) => match decode_v(entries[entries.len() - 1].1) {
                Ok(n) => Ok(rest.push((entries[entries.len() - 1].0, n))),
                Err(e) => Err(e),
            },
        }
    }
}

/// Model of re-parsing each element of a stored number set; the earliest
/// refusal wins.
pub open spec fn decode_num_seq_v(ns: Seq<Seq<char>>) -> Result<Seq<NativeV>, DecErr>
    decreases ns,
{
    if ns.len() == 0 {
        Ok(Seq::empty())
    } else {
        match decode_num_seq_v(ns.subrange(0, ns.len() - 1)) {
            Err(e) => Err(e),
            Ok(rest) => match decode_num_v(ns[ns.len() - 1]) {
                Ok(n) => Ok(rest.push(n)),
                Err(e) => Err(e),
            },
        }
    }
}

/// The taxonomy error each decoding refusal becomes.
pub open spec fn dec_err_v(e: DecErr) -> ErrV {
    match e {
        DecErr::BadNumber(t) => ErrV::Serialization("Invalid number: "@ + t),
    }
}

/// A decoding refusal in a prefix settles the whole sequence.
pub proof fn lemma_decode_seq_err_extends(items: Seq<AttrV>, k: int)
    requires
        0 <= k <= items.len(),
        decode_seq_v(items.subrange(0, k)) is Err,
    ensures
        decode_seq_v(items) == decode_seq_v(items.subrange(0, k)),
    decreases items.len() - k,
{
    if k == items.len() {
        assert(items.subrange(0, k) =~= items);
    } else {
        let p = items.subrange(0, k);
        let q = items.subrange(0, k + 1);
        assert(q.subrange(0, q.len() - 1) =~= p);
        lemma_decode_seq_err_extends(items, k + 1);
    }
}

/// A decoding refusal in a prefix of entries settles the whole sequence.
pub proof fn lemma_decode_entries_err_extends(entries: Seq<(Seq<char>, AttrV)>, k: int)
    requires
        0 <= k <= entries.len(),
        decode_entries_v(entries.subrange(0, k)) is Err,
    ensures
        decode_entries_v(entries) == decode_entries_v(entries.subrange(0, k)),
    decreases entries.len() - k,
{
    if k == entries.len() {
        assert(entries.subrange(0, k) =~= entries);
    } else {
        let p = entries.subrange(0, k);
        let q = entries.subrange(0, k + 1);
        assert(q.subrange(0, q.len() - 1) =~= p);
        lemma_decode_entries_err_extends(entries, k + 1);
    }
}

/// A re-parse refusal in a prefix of number texts settles the whole
/// sequence.
pub proof fn lemma_decode_num_seq_err_extends(ns: Seq<Seq<char>>, k: int)
    requires
        0 <= k <= ns.len(),
        decode_num_seq_v(ns.subrange(0, k)) is Err,
    ensures
        decode_num_seq_v(ns) == decode_num_seq_v(ns.subrange(0, k)),
    decreases ns.len() - k,
{
    if k == ns.len() {
        assert(ns.subrange(0, k) =~= ns);
    } else {
        let p = ns.subrange(0, k);
        let q = ns.subrange(0, k + 1);
        assert(q.subrange(0, q.len() - 1) =~= p);
        lemma_decode_num_seq_err_extends(ns, k + 1);
    }
}

/// Re-parses one stored number text: a floating-point marker selects the
/// float reading, its absence the integer reading.
fn decode_number(t: &String) -> (r: Result<NativeValue, PydynoError>)
    ensures
        match r {
            Ok(n) => decode_num_v(t@) == Ok::<NativeV, DecErr>(n@),
            Err(e) => decode_num_v(t@) matches Err(k) && e@ == dec_err_v(k),
        },
{
    if crate::numtext::has_marker(t.as_str()) {
        if crate::numtext::check_float_text(t.as_str()) {
            Ok(NativeValue::Float(t.clone()))
        } else {
            Err(
                PydynoError::Serialization(
                    String::from_str("Invalid number: ").concat(t.as_str()),
                ),
            )
        }
    } else {
        match crate::numtext::parse_i64(t.as_str()) {
            Some(i) => Ok(NativeValue::Int(i)),
            None => Err(
                PydynoError::Serialization(
                    String::from_str("Invalid number: ").concat(t.as_str()),
                ),
            ),
        }
    }
}

/// Decodes a stored attribute value back to a native value, recursively
/// through containers. Number text is re-parsed: a marker (`.`, `e`, `E`)
/// selects the float reading, its absence the integer one. Each set variant
/// decodes to the native set kind.
#[verifier::loop_isolation(false)]
pub fn decode(a: &AttributeValue) -> (r: Result<NativeValue, PydynoError>)
    ensures
        match r {
            Ok(n) => decode_v(a@) == Ok::<NativeV, DecErr>(n@),
            Err(e) => decode_v(a@) matches Err(k) && e@ == dec_err_v(k),
        },
    decreases a,
{
    match a {
        AttributeValue::S(s) => Ok(NativeValue::Str(s.clone())),
        AttributeValue::N(t) => decode_number(t),
        AttributeValue::Bool(b) => Ok(NativeValue::Bool(*b)),
        AttributeValue::Null => Ok(NativeValue::Null),
        AttributeValue::B(b) => Ok(NativeValue::Bytes(b.clone())),
        AttributeValue::L(items) => {
            let ghost av = attr_seq_view(items@);
            proof {
                lemma_attr_seq_view(items@);
                assert(a@ == AttrV::L(av));
            }
            let mut out: Vec<NativeValue> = Vec::new();
            let mut j: usize = 0;
            while j < items.len()
                invariant
                    0 <= j <= items@.len(),
                    decode_seq_v(av.subrange(0, j as int)) == Ok::<Seq<NativeV>, DecErr>(
                        native_seq_view(out@),
                    ),
                decreases items@.len() - j,
            {
                proof {
                    assert(decreases_to!(*a => *items));
                    assert(decreases_to!(*items => items@));
                    assert(decreases_to!(items@ => items@[j as int]));
                }
                let child = &items[j];
                match decode(child) {
                    Ok(n) => {
                        let ghost old_out = out@;
                        out.push(n);
                        proof {
                            let p = av.subrange(0, j as int);
                            let q = av.subrange(0, j as int + 1);
                            assert(q.subrange(0, q.len() - 1) =~= p);
                            assert(q[q.len() - 1] == av[j as int]);
                            assert(av[j as int] == items@[j as int]@);
                            assert(out@.subrange(0, out@.len() - 1) =~= old_out);
                            assert(native_seq_view(out@) == native_seq_view(old_out).push(
                                out@[out@.len() - 1]@,
                            ));
                        }
                    },
                    Err(e) => {
                        proof {
                            let q = av.subrange(0, j as int + 1);
                            assert(q.subrange(0, q.len() - 1) =~= av.subrange(0, j as int));
                            assert(q[q.len() - 1] == av[j as int]);
                            assert(av[j as int] == items@[j as int]@);
                            assert(decode_seq_v(q) is Err);
                            lemma_decode_seq_err_extends(av, j as int + 1);
                        }
                        return Err(e);
                    },
                }
                j += 1;
            }
            proof {
                assert(av.subrange(0, j as int) =~= av);
            }
            Ok(NativeValue::List(out))
        },
        AttributeValue::M(entries) => {
            let ghost ae = attr_entries_view(entries@);
            proof {
                lemma_attr_entries_view(entries@);
                assert(a@ == AttrV::M(ae));
            }
            let mut out: Vec<(String, NativeValue)> = Vec::new();
            let mut j: usize = 0;
            while j < entries.len()
                invariant
                    0 <= j <= entries@.len(),
                    decode_entries_v(ae.subrange(0, j as int)) == Ok::<
                        Seq<(Seq<char>, NativeV)>,
                        DecErr,
                    >(native_entries_view(out@)),
                decreases entries@.len() - j,
            {
                proof {
                    assert(decreases_to!(*a => *entries));
                    assert(decreases_to!(*entries => entries@));
                    assert(decreases_to!(entries@ => entries@[j as int]));
                    assert(decreases_to!(entries@[j as int] => entries@[j as int].1));
                }
                let child = &entries[j].1;
                match decode(child) {
                    Ok(n) => {
                        let key = entries[j].0.clone();
                        let ghost old_out = out@;
                        out.push((key, n));
                        proof {
                            let p = ae.subrange(0, j as int);
                            let q = ae.subrange(0, j as int + 1);
                            assert(q.subrange(0, q.len() - 1) =~= p);
                            assert(q[q.len() - 1] == ae[j as int]);
                            assert(ae[j as int] == (entries@[j as int].0@, entries@[j as int].1@));
                            assert(out@.subrange(0, out@.len() - 1) =~= old_out);
                            assert(native_entries_view(out@) == native_entries_view(old_out).push(
                                (out@[out@.len() - 1].0@, out@[out@.len() - 1].1@),
                            ));
                        }
                    },
                    Err(e) => {
                        proof {
                            let q = ae.subrange(0, j as int + 1);
                            assert(q.subrange(0, q.len() - 1) =~= ae.subrange(0, j as int));
                            assert(q[q.len() - 1] == ae[j as int]);
                            assert(ae[j as int] == (entries@[j as int].0@, entries@[j as int].1@));
                            assert(decode_entries_v(q) is Err);
                            lemma_decode_entries_err_extends(ae, j as int + 1);
                        }
                        return Err(e);
                    },
                }
                j += 1;
            }
            proof {
                assert(ae.subrange(0, j as int) =~= ae);
            }
            Ok(NativeValue::Dict(out))
        },
        AttributeValue::Ss(ss) => {
            let mut out: Vec<NativeValue> = Vec::new();
            let mut j: usize = 0;
            while j < ss.len()
                invariant
                    0 <= j <= ss@.len(),
                    out@.len() == j,
                    forall|i: int| 0 <= i < j ==> #[trigger] out@[i]@ == NativeV::Str(ss@[i]@),
                decreases ss@.len() - j,
            {
                let s = ss[j].clone();
                out.push(NativeValue::Str(s));
                j += 1;
            }
            proof {
                lemma_native_seq_view(out@);
                let model = Seq::new(ss@.len(), |i: int| NativeV::Str(ss@[i]@));
                assert forall|i: int| 0 <= i < out@.len() implies native_seq_view(out@)[i]
                    == model[i] by {
                    assert(native_seq_view(out@)[i] == out@[i]@);
                    assert(out@[i]@ == NativeV::Str(ss@[i]@));
                }
                let x = Seq::new(ss@.len(), |i: int| ss@[i]@);
                assert(a@ == AttrV::Ss(x));
                assert(Seq::new(x.len(), |i: int| NativeV::Str(x[i])) =~= model);
                assert(native_seq_view(out@) =~= model);
            }
            Ok(NativeValue::SetVal(out))
        },
        AttributeValue::Ns(ns) => {
            let ghost nsv = Seq::new(ns@.len(), |i: int| ns@[i]@);
            let mut out: Vec<NativeValue> = Vec::new();
            let mut j: usize = 0;
            while j < ns.len()
                invariant
                    0 <= j <= ns@.len(),
                    decode_num_seq_v(nsv.subrange(0, j as int)) == Ok::<Seq<NativeV>, DecErr>(
                        native_seq_view(out@),
                    ),
                decreases ns@.len() - j,
            {
                let elem = &ns[j];
                match decode_number(elem) {
                    Ok(n) => {
                        let ghost old_out = out@;
                        out.push(n);
                        proof {
                            let p = nsv.subrange(0, j as int);
                            let q = nsv.subrange(0, j as int + 1);
                            assert(q.subrange(0, q.len() - 1) =~= p);
                            assert(q[q.len() - 1] == nsv[j as int]);
                            assert(nsv[j as int] == ns@[j as int]@);
                            assert(out@.subrange(0, out@.len() - 1) =~= old_out);
                            assert(native_seq_view(out@) == native_seq_view(old_out).push(
                                out@[out@.len() - 1]@,
                            ));
                        }
                    },
                    Err(e) => {
                        proof {
                            let q = nsv.subrange(0, j as int + 1);
                            assert(q.subrange(0, q.len() - 1) =~= nsv.subrange(0, j as int));
                            assert(q[q.len() - 1] == nsv[j as int]);
                            assert(nsv[j as int] == ns@[j as int]@);
                            assert(decode_num_seq_v(q) is Err);
                            lemma_decode_num_seq_err_extends(nsv, j as int + 1);
                        }
                        return Err(e);
                    },
                }
                j += 1;
            }
            proof {
                assert(nsv.subrange(0, j as int) =~= nsv);
            }
            Ok(NativeValue::SetVal(out))
        },
        AttributeValue::Bs(bs) => {
            let mut out: Vec<NativeValue> = Vec::new();
            let mut j: usize = 0;
            while j < bs.len()
                invariant
                    0 <= j <= bs@.len(),
                    out@.len() == j,
                    forall|i: int| 0 <= i < j ==> #[trigger] out@[i]@ == NativeV::Bytes(bs@[i]@),
                decreases bs@.len() - j,
            {
                let b = bs[j].clone();
                out.push(NativeValue::Bytes(b));
                j += 1;
            }
            proof {
                lemma_native_seq_view(out@);
                let model = Seq::new(bs@.len(), |i: int| NativeV::Bytes(bs@[i]@));
                assert forall|i: int| 0 <= i < out@.len() implies native_seq_view(out@)[i]
                    == model[i] by {
                    assert(native_seq_view(out@)[i] == out@[i]@);
                    assert(out@[i]@ == NativeV::Bytes(bs@[i]@));
                }
                let x = Seq::new(bs@.len(), |i: int| bs@[i]@);
                assert(a@ == AttrV::Bs(x));
                assert(Seq::new(x.len(), |i: int| NativeV::Bytes(x[i])) =~= model);
                assert(native_seq_view(out@) =~= model);
            }
            Ok(NativeValue::SetVal(out))
        },
    }
}


/// A successful entries encoding keeps the length and the keys, and sends
/// each value to its own encoding.
pub proof fn lemma_encode_entries_pointwise(
    entries: Seq<(Seq<char>, NativeV)>,
    out: Seq<(Seq<char>, AttrV)>,
)
    requires
        encode_entries_v(entries) == Ok::<Seq<(Seq<char>, AttrV)>, EncErr>(out),
    ensures
        out.len() == entries.len(),
        forall|i: int|
            0 <= i < entries.len() ==> (#[trigger] out[i]).0 == entries[i].0 && encode_v(
                entries[i].1,
            ) == Ok::<AttrV, EncErr>(out[i].1),
    decreases entries.len(),
{
    if entries.len() > 0 {
        let p = entries.subrange(0, entries.len() - 1);
        let po = encode_entries_v(p)->Ok_0;
        lemma_encode_entries_pointwise(p, po);
        assert(out == po.push((entries[entries.len() - 1].0, encode_v(entries[entries.len() - 1].1)->Ok_0)));
        assert forall|i: int| 0 <= i < entries.len() implies (#[trigger] out[i]).0
            == entries[i].0 && encode_v(entries[i].1) == Ok::<AttrV, EncErr>(out[i].1) by {
            if i < entries.len() - 1 {
                assert(out[i] == po[i]);
                assert(p[i] == entries[i]);
            }
        }
    } else {
        assert(out =~= Seq::<(Seq<char>, AttrV)>::empty());
    }
}


/// When every value encodes, the whole entries sequence encodes.
pub proof fn lemma_encode_entries_all_ok(entries: Seq<(Seq<char>, NativeV)>)
    requires
        forall|i: int| 0 <= i < entries.len() ==> encode_v((#[trigger] entries[i]).1) is Ok,
    ensures
        encode_entries_v(entries) is Ok,
    decreases entries.len(),
{
    if entries.len() > 0 {
        let p = entries.subrange(0, entries.len() - 1);
        assert forall|i: int| 0 <= i < p.len() implies encode_v((#[trigger] p[i]).1) is Ok by {
            assert(p[i] == entries[i]);
        }
        lemma_encode_entries_all_ok(p);
        assert(encode_v(entries[entries.len() - 1].1) is Ok);
    }
}

/// Encodes a native value as a stored attribute value, recursively through
/// containers. Booleans are tested before integers, numbers become decimal
/// text, sets are typed by their first element, and an empty or mixed set
/// is refused here, before anything reaches the backend.
#[verifier::loop_isolation(false)]
pub fn encode(v: &NativeValue) -> (r: Result<AttributeValue, PydynoError>)
    ensures
        match r {
            Ok(a) => encode_v(v@) == Ok::<AttrV, EncErr>(a@),
            Err(e) => encode_v(v@) matches Err(k) && e@ == enc_err_v(k),
        },
    decreases v,
{
    match v {
        NativeValue::Null => Ok(AttributeValue::Null),
        NativeValue::Bool(b) => Ok(AttributeValue::Bool(*b)),
        NativeValue::Int(i) => Ok(AttributeValue::N(crate::numtext::i64_to_decimal(*i))),
        NativeValue::Float(t) => Ok(AttributeValue::N(t.clone())),
        NativeValue::Str(s) => Ok(AttributeValue::S(s.clone())),
        NativeValue::Bytes(b) => Ok(AttributeValue::B(b.clone())),
        NativeValue::List(items) => {
            let ghost nv = native_seq_view(items@);
            proof {
                lemma_native_seq_view(items@);
                assert(v@ == NativeV::List(nv));
            }
            let mut out: Vec<AttributeValue> = Vec::new();
            let mut j: usize = 0;
            while j < items.len()
                invariant
                    0 <= j <= items@.len(),
                    nv == native_seq_view(items@),
                    nv.len() == items@.len(),
                    forall|i: int| 0 <= i < items@.len() ==> nv[i] == #[trigger] items@[i]@,
                    encode_seq_v(nv.subrange(0, j as int)) == Ok::<Seq<AttrV>, EncErr>(
                        attr_seq_view(out@),
                    ),
                decreases items@.len() - j,
            {
                proof {
                    assert(decreases_to!(*v => v->List_0));
                    assert(v->List_0 == *items);
                    assert(decreases_to!(*items => items@));
                    assert(decreases_to!(items@ => items@[j as int]));
                }
                let child = &items[j];
                match encode(child) {
                    Ok(a) => {
                        let ghost old_out = out@;
                        out.push(a);
                        proof {
                            let p = nv.subrange(0, j as int);
                            let q = nv.subrange(0, j as int + 1);
                            assert(q.subrange(0, q.len() - 1) =~= p);
                            assert(q[q.len() - 1] == nv[j as int]);
                            assert(nv[j as int] == items@[j as int]@);
                            assert(out@.subrange(0, out@.len() - 1) =~= old_out);
                            assert(attr_seq_view(out@) == attr_seq_view(old_out).push(
                                out@[out@.len() - 1]@,
                            ));
                        }
                    },
                    Err(e) => {
                        proof {
                            let p = nv.subrange(0, j as int);
                            let q = nv.subrange(0, j as int + 1);
                            assert(q.subrange(0, q.len() - 1) =~= p);
                            assert(q[q.len() - 1] == nv[j as int]);
                            assert(nv[j as int] == items@[j as int]@);
                            assert(encode_seq_v(q) is Err);
                            lemma_encode_seq_err_extends(nv, j as int + 1);
                        }
                        return Err(e);
                    },
                }
                j += 1;
            }
            proof {
                assert(nv.subrange(0, j as int) =~= nv);
            }
            Ok(AttributeValue::L(out))
        },
        NativeValue::Dict(entries) => {
            let ghost ne = native_entries_view(entries@);
            proof {
                lemma_native_entries_view(entries@);
                assert(v@ == NativeV::Dict(ne));
            }
            let mut out: Vec<(String, AttributeValue)> = Vec::new();
            let mut j: usize = 0;
            while j < entries.len()
                invariant
                    0 <= j <= entries@.len(),
                    ne == native_entries_view(entries@),
                    ne.len() == entries@.len(),
                    forall|i: int|
                        0 <= i < entries@.len() ==> ne[i] == (
                        #[trigger] entries@[i].0@,
                        entries@[i].1@,
                        ),
                    encode_entries_v(ne.subrange(0, j as int)) == Ok::<
                        Seq<(Seq<char>, AttrV)>,
                        EncErr,
                    >(attr_entries_view(out@)),
                decreases entries@.len() - j,
            {
                proof {
                    assert(decreases_to!(*v => v->Dict_0));
                    assert(v->Dict_0 == *entries);
                    assert(decreases_to!(*entries => entries@));
                    assert(decreases_to!(entries@ => entries@[j as int]));
                    assert(decreases_to!(entries@[j as int] => entries@[j as int].1));
                }
                let child = &entries[j].1;
                match encode(child) {
                    Ok(a) => {
                        let key = entries[j].0.clone();
                        let ghost old_out = out@;
                        out.push((key, a));
                        proof {
                            let p = ne.subrange(0, j as int);
                            let q = ne.subrange(0, j as int + 1);
                            assert(q.subrange(0, q.len() - 1) =~= p);
                            assert(q[q.len() - 1] == ne[j as int]);
                            assert(ne[j as int] == (entries@[j as int].0@, entries@[j as int].1@));
                            assert(out@.subrange(0, out@.len() - 1) =~= old_out);
                            assert(attr_entries_view(out@) == attr_entries_view(old_out).push(
                                (out@[out@.len() - 1].0@, out@[out@.len() - 1].1@),
                            ));
                        }
                    },
                    Err(e) => {
                        proof {
                            let p = ne.subrange(0, j as int);
                            let q = ne.subrange(0, j as int + 1);
                            assert(q.subrange(0, q.len() - 1) =~= p);
                            assert(q[q.len() - 1] == ne[j as int]);
                            assert(ne[j as int] == (entries@[j as int].0@, entries@[j as int].1@));
                            assert(encode_entries_v(q) is Err);
                            lemma_encode_entries_err_extends(ne, j as int + 1);
                        }
                        return Err(e);
                    },
                }
                j += 1;
            }
            proof {
                assert(ne.subrange(0, j as int) =~= ne);
            }
            Ok(AttributeValue::M(out))
        },
        NativeValue::SetVal(items) => {
            proof {
                assert(v@ == NativeV::SetVal(native_seq_view(items@)));
            }
            encode_set(items)
        },
    }
}

/// Encodes a set of native values: typed by its first element; empty and
/// mixed sets are refused.
#[verifier::loop_isolation(false)]
fn encode_set(items: &Vec<NativeValue>) -> (r: Result<AttributeValue, PydynoError>)
    ensures
        match r {
            Ok(a) => encode_set_v(native_seq_view(items@)) == Ok::<AttrV, EncErr>(a@),
            Err(e) => encode_set_v(native_seq_view(items@)) matches Err(k) && e@ == enc_err_v(k),
        },
{
    let ghost nv = native_seq_view(items@);
    proof {
        lemma_native_seq_view(items@);
    }
    if items.len() == 0 {
        return Err(
            PydynoError::Validation(String::from_str("DynamoDB does not support empty sets")),
        );
    }
    match &items[0] {
        NativeValue::Str(_) => {
            proof {
                assert(nv[0] == items@[0]@);
                assert(nv[0] is Str);
            }
            let mut out: Vec<String> = Vec::new();
            let mut j: usize = 0;
            while j < items.len()
                invariant
                    0 <= j <= items@.len(),
                    0 < items@.len(),
                    nv == native_seq_view(items@),
                    nv.len() == items@.len(),
                    forall|i: int| 0 <= i < items@.len() ==> nv[i] == #[trigger] items@[i]@,
                    nv[0] is Str,
                    forall|i: int| 0 <= i < j ==> #[trigger] nv[i] is Str,
                    out@.len() == j,
                    forall|i: int| 0 <= i < j ==> #[trigger] out@[i]@ == nv[i]->Str_0,
                decreases items@.len() - j,
            {
                match &items[j] {
                    NativeValue::Str(s) => {
                        proof {
                            assert(nv[j as int] == items@[j as int]@);
                            assert(nv[j as int] == NativeV::Str(s@));
                        }
                        out.push(s.clone());
                    },
                    _ => {
                        proof {
                            assert(nv[j as int] == items@[j as int]@);
                            assert(!(nv[j as int] is Str));
                        }
                        return Err(
                            PydynoError::Serialization(
                                String::from_str("String set must contain only strings"),
                            ),
                        );
                    },
                }
                j += 1;
            }
            proof {
                let model = Seq::new(nv.len(), |i: int| nv[i]->Str_0);
                assert(Seq::new(out@.len(), |i: int| out@[i]@) =~= model);
            }
            Ok(AttributeValue::Ss(out))
        },
        NativeValue::Int(_) | NativeValue::Float(_) => {
            proof {
                assert(nv[0] == items@[0]@);
                assert(is_num_v(nv[0]));
            }
            let mut out: Vec<String> = Vec::new();
            let mut j: usize = 0;
            while j < items.len()
                invariant
                    0 <= j <= items@.len(),
                    0 < items@.len(),
                    nv == native_seq_view(items@),
                    nv.len() == items@.len(),
                    forall|i: int| 0 <= i < items@.len() ==> nv[i] == #[trigger] items@[i]@,
                    is_num_v(nv[0]),
                    forall|i: int| 0 <= i < j ==> is_num_v(#[trigger] nv[i]),
                    out@.len() == j,
                    forall|i: int| 0 <= i < j ==> #[trigger] out@[i]@ == num_text_v(nv[i]),
                decreases items@.len() - j,
            {
                match &items[j] {
                    NativeValue::Int(i) => {
                        proof {
                            assert(nv[j as int] == items@[j as int]@);
                            assert(nv[j as int] == NativeV::Int(*i as int));
                        }
                        out.push(crate::numtext::i64_to_decimal(*i));
                    },
                    NativeValue::Float(t) => {
                        proof {
                            assert(nv[j as int] == items@[j as int]@);
                            assert(nv[j as int] == NativeV::Float(t@));
                        }
                        out.push(t.clone());
                    },
                    _ => {
                        proof {
                            assert(nv[j as int] == items@[j as int]@);
                            assert(!is_num_v(nv[j as int]));
                        }
                        return Err(
                            PydynoError::Serialization(
                                String::from_str("Number set must contain only numbers"),
                            ),
                        );
                    },
                }
                j += 1;
            }
            proof {
                let model = Seq::new(nv.len(), |i: int| num_text_v(nv[i]));
                assert(Seq::new(out@.len(), |i: int| out@[i]@) =~= model);
            }
            Ok(AttributeValue::Ns(out))
        },
        NativeValue::Bytes(_) => {
            proof {
                assert(nv[0] == items@[0]@);
                assert(nv[0] is Bytes);
            }
            let mut out: Vec<Vec<u8>> = Vec::new();
            let mut j: usize = 0;
            while j < items.len()
                invariant
                    0 <= j <= items@.len(),
                    0 < items@.len(),
                    nv == native_seq_view(items@),
                    nv.len() == items@.len(),
                    forall|i: int| 0 <= i < items@.len() ==> nv[i] == #[trigger] items@[i]@,
                    nv[0] is Bytes,
                    forall|i: int| 0 <= i < j ==> #[trigger] nv[i] is Bytes,
                    out@.len() == j,
                    forall|i: int| 0 <= i < j ==> #[trigger] out@[i]@ == nv[i]->Bytes_0,
                decreases items@.len() - j,
            {
                match &items[j] {
                    NativeValue::Bytes(b) => {
                        proof {
                            assert(nv[j as int] == items@[j as int]@);
                            assert(nv[j as int] == NativeV::Bytes(b@));
                        }
                        out.push(b.clone());
                    },
                    _ => {
                        proof {
                            assert(nv[j as int] == items@[j as int]@);
                            assert(!(nv[j as int] is Bytes));
                        }
                        return Err(
                            PydynoError::Serialization(
                                String::from_str("Binary set must contain only bytes"),
                            ),
                        );
                    },
                }
                j += 1;
            }
            proof {
                let model = Seq::new(nv.len(), |i: int| nv[i]->Bytes_0);
                assert(Seq::new(out@.len(), |i: int| out@[i]@) =~= model);
            }
            Ok(AttributeValue::Bs(out))
        },
        _ => {
            proof {
                assert(nv[0] == items@[0]@);
                assert(!(nv[0] is Str) && !is_num_v(nv[0]) && !(nv[0] is Bytes));
            }
            Err(
                PydynoError::Serialization(
                    String::from_str("Sets can only contain strings, numbers, or bytes"),
                ),
            )
        },
    }
}


/// Whether every element of the sequence is a string value.
pub open spec fn all_str_v(items: Seq<NativeV>) -> bool {
    forall|i: int| 0 <= i < items.len() ==> #[trigger] items[i] is Str
}

/// Whether every element of the sequence is a byte-sequence value.
pub open spec fn all_bytes_v(items: Seq<NativeV>) -> bool {
    forall|i: int| 0 <= i < items.len() ==> #[trigger] items[i] is Bytes
}

/// Whether every element of the sequence is a number value.
pub open spec fn all_num_v(items: Seq<NativeV>) -> bool {
    forall|i: int| 0 <= i < items.len() ==> is_num_v(#[trigger] items[i])
}

/// Whether a round trip through the codec gives the value back untouched.
/// This excludes exactly the documented lossy edges: an integer too wide
/// for the machine integer, a float whose decimal text carries no marker
/// (it would read back as an integer) or is not well-formed, an empty or
/// mixed set, and a set of anything but strings, numbers, or bytes.
pub open spec fn round_trippable(v: NativeV) -> bool
    decreases v,
{
    match v {
        NativeV::Null => true,
        NativeV::Bool(_) => true,
        NativeV::Int(i) => i64::MIN <= i <= i64::MAX,
        NativeV::Float(t) => has_float_marker(t) && float_text_wf(t),
        NativeV::Str(_) => true,
        NativeV::Bytes(_) => true,
        NativeV::List(items) => round_trippable_seq(items),
        NativeV::Dict(entries) => round_trippable_entries(entries),
        NativeV::SetVal(items) => items.len() > 0 && (all_str_v(items) || all_bytes_v(items) || (
        all_num_v(items) && round_trippable_seq(items)
        )),
    }
}

/// Whether every element of a sequence round-trips.
pub open spec fn round_trippable_seq(items: Seq<NativeV>) -> bool
    decreases items,
{
    if items.len() == 0 {
        true
    } else {
        round_trippable_seq(items.subrange(0, items.len() - 1)) && round_trippable(
            items[items.len() - 1],
        )
    }
}

/// Whether the value of every entry of a sequence round-trips.
pub open spec fn round_trippable_entries(entries: Seq<(Seq<char>, NativeV)>) -> bool
    decreases entries,
{
    if entries.len() == 0 {
        true
    } else {
        round_trippable_entries(entries.subrange(0, entries.len() - 1)) && round_trippable(
            entries[entries.len() - 1].1,
        )
    }
}

/// Decoding number texts element by element gives back the values the
/// texts were made from.
proof fn lemma_decode_num_seq_pointwise(ns: Seq<Seq<char>>, vals: Seq<NativeV>)
    requires
        ns.len() == vals.len(),
        forall|i: int|
            0 <= i < ns.len() ==> decode_num_v(#[trigger] ns[i]) == Ok::<NativeV, DecErr>(vals[i]),
    ensures
        decode_num_seq_v(ns) == Ok::<Seq<NativeV>, DecErr>(vals),
    decreases ns.len(),
{
    if ns.len() == 0 {
        assert(vals =~= Seq::<NativeV>::empty());
    } else {
        let np = ns.subrange(0, ns.len() - 1);
        let vp = vals.subrange(0, vals.len() - 1);
        assert forall|i: int| 0 <= i < np.len() implies decode_num_v(#[trigger] np[i]) == Ok::<
            NativeV,
            DecErr,
        >(vp[i]) by {
            assert(np[i] == ns[i]);
            assert(vp[i] == vals[i]);
        }
        lemma_decode_num_seq_pointwise(np, vp);
        assert(vp.push(vals[vals.len() - 1]) =~= vals);
    }
}

/// Round trip: decoding what a supported native value encodes to gives the
/// value back, for every value outside the documented lossy edges of
/// `round_trippable`.
pub proof fn lemma_round_trip(v: NativeV)
    requires
        round_trippable(v),
    ensures
        encode_v(v) is Ok,
        decode_v(encode_v(v)->Ok_0) == Ok::<NativeV, DecErr>(v),
    decreases v,
{
    match v {
        NativeV::Null => {},
        NativeV::Bool(_) => {},
        NativeV::Int(i) => {
            crate::numtext::lemma_int_text_round_trip(i);
        },
        NativeV::Float(_) => {},
        NativeV::Str(_) => {},
        NativeV::Bytes(_) => {},
        NativeV::List(items) => {
            lemma_round_trip_seq(items);
        },
        NativeV::Dict(entries) => {
            lemma_round_trip_entries(entries);
        },
        NativeV::SetVal(items) => {
            if all_str_v(items) {
                let ss = Seq::new(items.len(), |i: int| items[i]->Str_0);
                let back = Seq::new(ss.len(), |i: int| NativeV::Str(ss[i]));
                assert forall|i: int| 0 <= i < items.len() implies back[i] == items[i] by {
                    assert(items[i] is Str);
                }
                assert(back =~= items);
            } else if all_bytes_v(items) {
                assert(items[0] is Bytes);
                let bs = Seq::new(items.len(), |i: int| items[i]->Bytes_0);
                let back = Seq::new(bs.len(), |i: int| NativeV::Bytes(bs[i]));
                assert forall|i: int| 0 <= i < items.len() implies back[i] == items[i] by {
                    assert(items[i] is Bytes);
                }
                assert(back =~= items);
            } else {
                assert(all_num_v(items) && round_trippable_seq(items));
                assert(is_num_v(items[0]));
                assert(!(items[0] is Str));
                let ns = Seq::new(items.len(), |i: int| num_text_v(items[i]));
                lemma_rt_seq_elements(items);
                assert forall|i: int| 0 <= i < ns.len() implies decode_num_v(#[trigger] ns[i])
                    == Ok::<NativeV, DecErr>(items[i]) by {
                    assert(is_num_v(items[i]));
                    assert(round_trippable(items[i]));
                    if items[i] is Int {
                        crate::numtext::lemma_int_text_round_trip(items[i]->Int_0);
                    }
                }
                lemma_decode_num_seq_pointwise(ns, items);
            }
        },
    }
}

/// Every element of a round-trippable sequence is itself round-trippable.
proof fn lemma_rt_seq_elements(items: Seq<NativeV>)
    requires
        round_trippable_seq(items),
    ensures
        forall|i: int| 0 <= i < items.len() ==> round_trippable(#[trigger] items[i]),
    decreases items.len(),
{
    if items.len() > 0 {
        let p = items.subrange(0, items.len() - 1);
        lemma_rt_seq_elements(p);
        assert forall|i: int| 0 <= i < items.len() implies round_trippable(
            #[trigger] items[i],
        ) by {
            if i < items.len() - 1 {
                assert(round_trippable(p[i]));
            }
        }
    }
}

/// Round trip of a sequence of values, element by element.
proof fn lemma_round_trip_seq(items: Seq<NativeV>)
    requires
        round_trippable_seq(items),
    ensures
        encode_seq_v(items) is Ok,
        decode_seq_v(encode_seq_v(items)->Ok_0) == Ok::<Seq<NativeV>, DecErr>(items),
    decreases items,
{
    if items.len() == 0 {
        assert(items =~= Seq::<NativeV>::empty());
    } else {
        let p = items.subrange(0, items.len() - 1);
        let last = items[items.len() - 1];
        lemma_round_trip_seq(p);
        lemma_round_trip(last);
        let ep = encode_seq_v(p)->Ok_0;
        let es = encode_seq_v(items)->Ok_0;
        assert(es == ep.push(encode_v(last)->Ok_0));
        assert(es.subrange(0, es.len() - 1) =~= ep);
        assert(decode_seq_v(es) == Ok::<Seq<NativeV>, DecErr>(p.push(last)));
        assert(p.push(last) =~= items);
    }
}

/// Round trip of string-keyed entries, element by element; keys pass
/// through untouched.
proof fn lemma_round_trip_entries(entries: Seq<(Seq<char>, NativeV)>)
    requires
        round_trippable_entries(entries),
    ensures
        encode_entries_v(entries) is Ok,
        decode_entries_v(encode_entries_v(entries)->Ok_0) == Ok::<
            Seq<(Seq<char>, NativeV)>,
            DecErr,
        >(entries),
    decreases entries,
{
    if entries.len() == 0 {
        assert(entries =~= Seq::<(Seq<char>, NativeV)>::empty());
    } else {
        let p = entries.subrange(0, entries.len() - 1);
        let last = entries[entries.len() - 1];
        lemma_round_trip_entries(p);
        lemma_round_trip(last.1);
        let ep = encode_entries_v(p)->Ok_0;
        let es = encode_entries_v(entries)->Ok_0;
        assert(es == ep.push((last.0, encode_v(last.1)->Ok_0)));
        assert(es.subrange(0, es.len() - 1) =~= ep);
        assert(decode_entries_v(es) == Ok::<Seq<(Seq<char>, NativeV)>, DecErr>(p.push(last)));
        assert(p.push(last) =~= entries);
    }
}

/// Sets encode by these rules and no others: an empty set is refused as a
/// validation failure, a non-empty homogeneous set of strings, numbers, or
/// bytes is accepted, and a mixed set is refused.
pub proof fn lemma_set_encoding(items: Seq<NativeV>)
    ensures
        items.len() == 0 ==> encode_v(NativeV::SetVal(items)) == Err::<AttrV, EncErr>(
            EncErr::EmptySet,
        ),
        items.len() > 0 && all_str_v(items) ==> encode_v(NativeV::SetVal(items)) is Ok,
        items.len() > 0 && all_num_v(items) ==> encode_v(NativeV::SetVal(items)) is Ok,
        items.len() > 0 && all_bytes_v(items) ==> encode_v(NativeV::SetVal(items)) is Ok,
        items.len() > 0 && items[0] is Str && !all_str_v(items) ==> encode_v(
            NativeV::SetVal(items),
        ) == Err::<AttrV, EncErr>(EncErr::MixedStr),
        items.len() > 0 && is_num_v(items[0]) && !all_num_v(items) ==> encode_v(
            NativeV::SetVal(items),
        ) == Err::<AttrV, EncErr>(EncErr::MixedNum),
        items.len() > 0 && items[0] is Bytes && !all_bytes_v(items) ==> encode_v(
            NativeV::SetVal(items),
        ) == Err::<AttrV, EncErr>(EncErr::MixedBytes),
{
    if items.len() > 0 && all_str_v(items) {
        assert(items[0] is Str);
    }
    if items.len() > 0 && all_num_v(items) {
        assert(is_num_v(items[0]));
        assert(!(items[0] is Str));
    }
    if items.len() > 0 && all_bytes_v(items) {
        assert(items[0] is Bytes);
        assert(!(items[0] is Str) && !is_num_v(items[0]));
    }
}

/// A boolean encodes to the boolean attribute variant, never to the number
/// variant.
pub proof fn lemma_bool_encodes_to_bool(b: bool)
    ensures
        encode_v(NativeV::Bool(b)) == Ok::<AttrV, EncErr>(AttrV::Bool(b)),
        !(encode_v(NativeV::Bool(b))->Ok_0 is N),
{
}


/// Encodes every value of an item's entries, keeping the keys and their
/// order. Fails exactly when encoding one of the values fails, with the
/// earliest refusal.
#[verifier::loop_isolation(false)]
pub fn encode_item(entries: &Vec<(String, NativeValue)>) -> (r: Result<
    Vec<(String, AttributeValue)>,
    PydynoError,
>)
    ensures
        match r {
            Ok(out) => encode_entries_v(native_entries_view(entries@)) == Ok::<
                Seq<(Seq<char>, AttrV)>,
                EncErr,
            >(attr_entries_view(out@)),
            Err(e) => encode_entries_v(native_entries_view(entries@)) matches Err(k) && e@
                == enc_err_v(k),
        },
{
    let ghost ne = native_entries_view(entries@);
    proof {
        lemma_native_entries_view(entries@);
    }
    let mut out: Vec<(String, AttributeValue)> = Vec::new();
    let mut j: usize = 0;
    while j < entries.len()
        invariant
            0 <= j <= entries@.len(),
            encode_entries_v(ne.subrange(0, j as int)) == Ok::<Seq<(Seq<char>, AttrV)>, EncErr>(
                attr_entries_view(out@),
            ),
        decreases entries@.len() - j,
    {
        match encode(&entries[j].1) {
            Ok(a) => {
                let key = entries[j].0.clone();
                let ghost old_out = out@;
                out.push((key, a));
                proof {
                    let p = ne.subrange(0, j as int);
                    let q = ne.subrange(0, j as int + 1);
                    assert(q.subrange(0, q.len() - 1) =~= p);
                    assert(q[q.len() - 1] == ne[j as int]);
                    assert(ne[j as int] == (entries@[j as int].0@, entries@[j as int].1@));
                    assert(out@.subrange(0, out@.len() - 1) =~= old_out);
                    assert(attr_entries_view(out@) == attr_entries_view(old_out).push(
                        (out@[out@.len() - 1].0@, out@[out@.len() - 1].1@),
                    ));
                }
            },
            Err(e) => {
                proof {
                    let q = ne.subrange(0, j as int + 1);
                    assert(q.subrange(0, q.len() - 1) =~= ne.subrange(0, j as int));
                    assert(q[q.len() - 1] == ne[j as int]);
                    assert(ne[j as int] == (entries@[j as int].0@, entries@[j as int].1@));
                    assert(encode_entries_v(q) is Err);
                    lemma_encode_entries_err_extends(ne, j as int + 1);
                }
                return Err(e);
            },
        }
        j += 1;
    }
    proof {
        assert(ne.subrange(0, j as int) =~= ne);
    }
    Ok(out)
}

/// Decodes every value of a stored item's entries, keeping the keys and
/// their order. Fails exactly when re-parsing one of the values fails, with
/// the earliest refusal.
#[verifier::loop_isolation(false)]
pub fn decode_item(item: &Vec<(String, AttributeValue)>) -> (r: Result<
    Vec<(String, NativeValue)>,
    PydynoError,
>)
    ensures
        match r {
            Ok(out) => decode_entries_v(attr_entries_view(item@)) == Ok::<
                Seq<(Seq<char>, NativeV)>,
                DecErr,
            >(native_entries_view(out@)),
            Err(e) => decode_entries_v(attr_entries_view(item@)) matches Err(k) && e@
                == dec_err_v(k),
        },
{
    let ghost ae = attr_entries_view(item@);
    proof {
        lemma_attr_entries_view(item@);
    }
    let mut out: Vec<(String, NativeValue)> = Vec::new();
    let mut j: usize = 0;
    while j < item.len()
        invariant
            0 <= j <= item@.len(),
            decode_entries_v(ae.subrange(0, j as int)) == Ok::<Seq<(Seq<char>, NativeV)>, DecErr>(
                native_entries_view(out@),
            ),
        decreases item@.len() - j,
    {
        match decode(&item[j].1) {
            Ok(n) => {
                let key = item[j].0.clone();
                let ghost old_out = out@;
                out.push((key, n));
                proof {
                    let p = ae.subrange(0, j as int);
                    let q = ae.subrange(0, j as int + 1);
                    assert(q.subrange(0, q.len() - 1) =~= p);
                    assert(q[q.len() - 1] == ae[j as int]);
                    assert(ae[j as int] == (item@[j as int].0@, item@[j as int].1@));
                    assert(out@.subrange(0, out@.len() - 1) =~= old_out);
                    assert(native_entries_view(out@) == native_entries_view(old_out).push(
                        (out@[out@.len() - 1].0@, out@[out@.len() - 1].1@),
                    ));
                }
            },
            Err(e) => {
                proof {
                    let q = ae.subrange(0, j as int + 1);
                    assert(q.subrange(0, q.len() - 1) =~= ae.subrange(0, j as int));
                    assert(q[q.len() - 1] == ae[j as int]);
                    assert(ae[j as int] == (item@[j as int].0@, item@[j as int].1@));
                    assert(decode_entries_v(q) is Err);
                    lemma_decode_entries_err_extends(ae, j as int + 1);
                }
                return Err(e);
            },
        }
        j += 1;
    }
    proof {
        assert(ae.subrange(0, j as int) =~= ae);
    }
    Ok(out)
}

} // verus!
