//! The expression builder: turns a flat field-to-value mapping into a `SET`
//! update expression with positional placeholders (`#f0 = :v0, ...`), so
//! that field names are never interpolated literally and reserved words are
//! always safe; and merges placeholder maps with caller-supplied entries
//! taking precedence on key collision.

use vstd::prelude::*;

use crate::codec::enc_err_v;
use crate::codec::encode_entries_v;
use crate::codec::encode_v;
use crate::codec::lemma_encode_entries_err_extends;
use crate::codec::EncErr;
use crate::errors::PydynoError;
use crate::numtext::dec_of_nat;
use crate::value::native_entries_view;
use crate::value::lemma_native_entries_view;
use crate::value::AttrV;
use crate::value::AttributeValue;
use crate::value::NativeValue;

verus! {

broadcast use vstd::std_specs::vec::group_vec_axioms, vstd::seq::group_seq_axioms;

/// The name placeholder for position `i`: `#f` followed by the decimal of
/// `i`.
pub open spec fn name_ph_v(i: nat) -> Seq<char> {
    "#f"@ + dec_of_nat(i)
}

/// The value placeholder for position `i`: `:v` followed by the decimal of
/// `i`.
pub open spec fn value_ph_v(i: nat) -> Seq<char> {
    ":v"@ + dec_of_nat(i)
}

/// The assignment pair for position `i`: `#fi = :vi`.
pub open spec fn assign_pair_v(i: nat) -> Seq<char> {
    name_ph_v(i) + " = "@ + value_ph_v(i)
}

/// The comma-joined assignment pairs for positions `0 .. n`.
pub open spec fn joined_pairs_v(n: nat) -> Seq<char>
    decreases n,
{
    if n == 0 {
        Seq::empty()
    } else if n == 1 {
        assign_pair_v(0)
    } else {
        joined_pairs_v((n - 1) as nat) + ", "@ + assign_pair_v((n - 1) as nat)
    }
}

/// The whole `SET` expression text for `n` fields.
pub open spec fn set_expr_text_v(n: nat) -> Seq<char> {
    "SET "@ + joined_pairs_v(n)
}

/// The value under key `k` in an association list, the latest entry
/// winning, or nothing when no entry carries the key.
pub open spec fn assoc_get<V>(s: Seq<(String, V)>, k: Seq<char>) -> Option<V>
    decreases s.len(),
{
    if s.len() == 0 {
        None
    } else if s.last().0@ == k {
        Some(s.last().1)
    } else {
        assoc_get(s.drop_last(), k)
    }
}

/// Whether the keys of an association list are pairwise distinct.
pub open spec fn assoc_keys_unique<V>(s: Seq<(String, V)>) -> bool {
    forall|i: int, j: int|
        0 <= i < j < s.len() ==> (#[trigger] s[i].0@) != (#[trigger] s[j].0@)
}

/// Appending one entry changes exactly the lookups of its key.
pub proof fn lemma_assoc_get_push<V>(s: Seq<(String, V)>, e: (String, V), k: Seq<char>)
    ensures
        assoc_get(s.push(e), k) == if e.0@ == k {
            Some(e.1)
        } else {
            assoc_get(s, k)
        },
{
    assert(s.push(e).drop_last() =~= s);
    assert(s.push(e).last() == e);
}

/// A lookup in a concatenation takes the right side's entry when it has
/// one, and the left side's otherwise.
pub proof fn lemma_assoc_get_concat<V>(a: Seq<(String, V)>, b: Seq<(String, V)>, k: Seq<char>)
    ensures
        assoc_get(a + b, k) == match assoc_get(b, k) {
            Some(v) => Some(v),
            None => assoc_get(a, k),
        },
    decreases b.len(),
{
    if b.len() == 0 {
        assert(a + b =~= a);
    } else {
        let bp = b.drop_last();
        lemma_assoc_get_concat(a, bp, k);
        assert((a + b).drop_last() =~= a + bp);
        assert((a + b).last() == b.last());
        assert(b.drop_last() =~= bp);
    }
}

/// A lookup succeeds exactly when some entry carries the key.
pub proof fn lemma_assoc_get_some<V>(s: Seq<(String, V)>, k: Seq<char>)
    ensures
        (assoc_get(s, k) is Some) == (exists|i: int| 0 <= i < s.len() && (#[trigger] s[i].0@) == k),
    decreases s.len(),
{
    if s.len() > 0 {
        lemma_assoc_get_some(s.drop_last(), k);
        if s.last().0@ == k {
            assert(s[s.len() - 1].0@ == k);
        } else {
            if exists|i: int| 0 <= i < s.len() && (#[trigger] s[i].0@) == k {
                let i = choose|i: int| 0 <= i < s.len() && (#[trigger] s[i].0@) == k;
                assert(i < s.len() - 1);
                assert(s.drop_last()[i].0@ == k);
            }
            assert forall|i: int|
                0 <= i < s.drop_last().len() && (#[trigger] s.drop_last()[i].0@)
                    == k implies exists|j: int| 0 <= j < s.len() && (#[trigger] s[j].0@) == k by {
                assert(s[i].0@ == k);
            }
        }
    }
}

/// Reports whether any entry of `entries` carries the key `k`.
pub fn assoc_contains_key<V>(entries: &Vec<(String, V)>, k: &str) -> (r: bool)
    ensures
        r == (assoc_get(entries@, k@) is Some),
{
    proof {
        lemma_assoc_get_some(entries@, k@);
    }
    let mut j: usize = 0;
    while j < entries.len()
        invariant
            0 <= j <= entries@.len(),
            forall|i: int| 0 <= i < j ==> (#[trigger] entries@[i].0@) != k@,
        decreases entries@.len() - j,
    {
        if crate::strutil::str_eq(entries[j].0.as_str(), k) {
            proof {
                assert(entries@[j as int].0@ == k@);
                lemma_assoc_get_some(entries@, k@);
            }
            return true;
        }
        j += 1;
    }
    false
}

/// Merges auto-generated entries with caller-supplied ones: a caller entry
/// wins over an auto-generated entry with the same key; every other entry
/// of either side is kept. When both sides have pairwise distinct keys, so
/// has the result.
#[verifier::loop_isolation(false)]
pub fn merge_entries<V>(auto: Vec<(String, V)>, user: Vec<(String, V)>) -> (r: Vec<(String, V)>)
    ensures
        forall|k: Seq<char>|
            #[trigger] assoc_get(r@, k) == match assoc_get(user@, k) {
                Some(v) => Some(v),
                None => assoc_get(auto@, k),
            },
        assoc_keys_unique(auto@) && assoc_keys_unique(user@) ==> assoc_keys_unique(r@),
{
    let ghost auto0 = auto@;
    let mut rest = auto;
    let mut result: Vec<(String, V)> = Vec::new();
    let ghost processed: Seq<(String, V)> = Seq::empty();
    proof {
        assert(processed + rest@ =~= auto0);
    }
    while rest.len() > 0
        invariant
            processed + rest@ == auto0,
            forall|k: Seq<char>|
                #[trigger] assoc_get(result@, k) == if assoc_get(user@, k) is Some {
                    Option::<V>::None
                } else {
                    assoc_get(processed, k)
                },
            assoc_keys_unique(auto0) ==> assoc_keys_unique(result@),
        decreases rest@.len(),
    {
        let ghost rest0 = rest@;
        let e = rest.remove(0);
        proof {
            assert(rest0.remove(0) =~= rest0.subrange(1, rest0.len() as int));
            assert(processed.push(e) + rest@ =~= auto0);
        }
        let keep = !assoc_contains_key(&user, e.0.as_str());
        let ghost old_result = result@;
        let ghost old_processed = processed;
        proof {
            processed = processed.push(e);
        }
        if keep {
            proof {
                if assoc_keys_unique(auto0) {
                    assert forall|i: int| 0 <= i < old_result.len() implies (
                    #[trigger] old_result[i].0@) != e.0@ by {
                        if old_result[i].0@ == e.0@ {
                            lemma_assoc_get_some(old_result, e.0@);
                            assert(assoc_get(old_result, e.0@) is Some);
                            assert(assoc_get(old_processed, e.0@) is Some);
                            lemma_assoc_get_some(old_processed, e.0@);
                            let m = choose|m: int|
                                0 <= m < old_processed.len() && (#[trigger] old_processed[m].0@)
                                    == e.0@;
                            assert(auto0[m] == (old_processed + rest0)[m]);
                            assert(auto0[old_processed.len() as int] == (old_processed
                                + rest0)[old_processed.len() as int]);
                            assert(auto0[m].0@ == auto0[old_processed.len() as int].0@);
                        }
                    }
                }
            }
            result.push(e);
        }
        proof {
            assert forall|k: Seq<char>| #[trigger] assoc_get(result@, k) == (if assoc_get(
                user@,
                k,
            ) is Some {
                Option::<V>::None
            } else {
                assoc_get(processed, k)
            }) by {
                lemma_assoc_get_push(old_processed, e, k);
                if keep {
                    lemma_assoc_get_push(old_result, e, k);
                    if k == e.0@ {
                        lemma_assoc_get_some(user@, k);
                    }
                }
            }
        }
    }
    proof {
        assert(processed =~= auto0);
    }
    let mut user_entries = user;
    let ghost user0 = user_entries@;
    let ghost kept = result@;
    result.append(&mut user_entries);
    proof {
        assert(result@ == kept + user0);
        assert forall|k: Seq<char>| #[trigger] assoc_get(result@, k) == (match assoc_get(
            user0,
            k,
        ) {
            Some(v) => Some(v),
            None => assoc_get(auto0, k),
        }) by {
            lemma_assoc_get_concat(kept, user0, k);
        }
        if assoc_keys_unique(auto0) && assoc_keys_unique(user0) {
            assert forall|i: int, j: int|
                0 <= i < j < result@.len() implies (#[trigger] result@[i].0@) != (
            #[trigger] result@[j].0@) by {
                if i < kept.len() && j >= kept.len() {
                    assert(result@[i] == kept[i]);
                    assert(result@[j] == user0[j - kept.len()]);
                    if kept[i].0@ == user0[j - kept.len()].0@ {
                        lemma_assoc_get_some(kept, kept[i].0@);
                        assert(assoc_get(kept, kept[i].0@) is Some);
                        lemma_assoc_get_some(user0, kept[i].0@);
                        assert(assoc_get(user0, kept[i].0@) is Some);
                        assert(assoc_get(kept, kept[i].0@) is None);
                    }
                } else if j < kept.len() {
                    assert(result@[i] == kept[i]);
                    assert(result@[j] == kept[j]);
                } else {
                    assert(result@[i] == user0[i - kept.len()]);
                    assert(result@[j] == user0[j - kept.len()]);
                }
            }
        }
    }
    result
}


/// Builds a `SET` update expression from field-to-value entries, in entry
/// order: the text `SET #f0 = :v0, #f1 = :v1, ...`, the name-placeholder
/// map sending `#fi` to the i-th field name, and the value-placeholder map
/// sending `:vi` to the i-th value's attribute encoding. Field names are
/// never interpolated into the text. Fails exactly when encoding one of
/// the values fails, with that value's refusal.
#[verifier::loop_isolation(false)]
pub fn build_set_expression(updates: &Vec<(String, NativeValue)>) -> (r: Result<
    (String, Vec<(String, String)>, Vec<(String, AttributeValue)>),
    PydynoError,
>)
    ensures
        match r {
            Ok(out) => {
                &&& out.0@ == set_expr_text_v(updates@.len())
                &&& out.1@.len() == updates@.len()
                &&& forall|i: int|
                    0 <= i < updates@.len() ==> (#[trigger] out.1@[i]).0@ == name_ph_v(i as nat)
                        && out.1@[i].1@ == updates@[i].0@
                &&& out.2@.len() == updates@.len()
                &&& forall|i: int|
                    0 <= i < updates@.len() ==> (#[trigger] out.2@[i]).0@ == value_ph_v(i as nat)
                        && encode_v(updates@[i].1@) == Ok::<AttrV, EncErr>(out.2@[i].1@)
            },
            Err(e) => encode_entries_v(native_entries_view(updates@)) matches Err(k) && e@
                == enc_err_v(k),
        },
{
    let ghost ne = native_entries_view(updates@);
    proof {
        lemma_native_entries_view(updates@);
    }
    let mut expr = String::from_str("SET ");
    let mut names: Vec<(String, String)> = Vec::new();
    let mut values: Vec<(String, AttributeValue)> = Vec::new();
    proof {
        assert(expr@ =~= set_expr_text_v(0));
    }
    let mut j: usize = 0;
    while j < updates.len()
        invariant
            0 <= j <= updates@.len(),
            expr@ == set_expr_text_v(j as nat),
            names@.len() == j,
            forall|i: int|
                0 <= i < j ==> (#[trigger] names@[i]).0@ == name_ph_v(i as nat)
                    && names@[i].1@ == updates@[i].0@,
            values@.len() == j,
            forall|i: int|
                0 <= i < j ==> (#[trigger] values@[i]).0@ == value_ph_v(i as nat)
                    && encode_v(updates@[i].1@) == Ok::<AttrV, EncErr>(values@[i].1@),
            encode_entries_v(ne.subrange(0, j as int)) is Ok,
        decreases updates@.len() - j,
    {
        match crate::codec::encode(&updates[j].1) {
            Ok(a) => {
                if j > 0 {
                    expr.append(", ");
                }
                let digits = crate::numtext::u64_to_decimal(j as u64);
                let nph = String::from_str("#f").concat(digits.as_str());
                let vph = String::from_str(":v").concat(digits.as_str());
                expr.append(nph.as_str());
                expr.append(" = ");
                expr.append(vph.as_str());
                let field = updates[j].0.clone();
                proof {
                    assert(nph@ == name_ph_v(j as nat));
                    assert(vph@ == value_ph_v(j as nat));
                    assert(expr@ =~= set_expr_text_v((j + 1) as nat));
                    let p = ne.subrange(0, j as int);
                    let q = ne.subrange(0, j as int + 1);
                    assert(q.subrange(0, q.len() - 1) =~= p);
                    assert(q[q.len() - 1] == ne[j as int]);
                    assert(ne[j as int] == (updates@[j as int].0@, updates@[j as int].1@));
                    assert(encode_entries_v(q) is Ok);
                }
                names.push((nph, field));
                values.push((vph, a));
            },
            Err(e) => {
                proof {
                    let p = ne.subrange(0, j as int);
                    let q = ne.subrange(0, j as int + 1);
                    assert(q.subrange(0, q.len() - 1) =~= p);
                    assert(q[q.len() - 1] == ne[j as int]);
                    assert(ne[j as int] == (updates@[j as int].0@, updates@[j as int].1@));
                    assert(encode_entries_v(q) is Err);
                    lemma_encode_entries_err_extends(ne, j as int + 1);
                }
                return Err(e);
            },
        }
        j += 1;
    }
    Ok((expr, names, values))
}


/// Placeholder names are distinct across positions.
pub proof fn lemma_name_ph_injective(a: nat, b: nat)
    requires
        name_ph_v(a) == name_ph_v(b),
    ensures
        a == b,
{
    assert(name_ph_v(a).subrange(2, name_ph_v(a).len() as int) =~= dec_of_nat(a)) by {
        reveal_strlit("#f");
    }
    assert(name_ph_v(b).subrange(2, name_ph_v(b).len() as int) =~= dec_of_nat(b)) by {
        reveal_strlit("#f");
    }
    crate::numtext::lemma_dec_of_nat_injective(a, b);
}

/// Placeholder values are distinct across positions.
pub proof fn lemma_value_ph_injective(a: nat, b: nat)
    requires
        value_ph_v(a) == value_ph_v(b),
    ensures
        a == b,
{
    assert(value_ph_v(a).subrange(2, value_ph_v(a).len() as int) =~= dec_of_nat(a)) by {
        reveal_strlit(":v");
    }
    assert(value_ph_v(b).subrange(2, value_ph_v(b).len() as int) =~= dec_of_nat(b)) by {
        reveal_strlit(":v");
    }
    crate::numtext::lemma_dec_of_nat_injective(a, b);
}

/// In an association list with pairwise distinct keys, looking an entry's
/// key up gives that entry's value.
pub proof fn lemma_assoc_get_unique_index<V>(s: Seq<(String, V)>, i: int)
    requires
        assoc_keys_unique(s),
        0 <= i < s.len(),
    ensures
        assoc_get(s, s[i].0@) == Some(s[i].1),
    decreases s.len(),
{
    if i == s.len() - 1 {
        assert(s.last() == s[i]);
    } else {
        assert(s.last().0@ != s[i].0@);
        assert forall|a: int, b: int|
            0 <= a < b < s.drop_last().len() implies (#[trigger] s.drop_last()[a].0@) != (
        #[trigger] s.drop_last()[b].0@) by {
            assert(s[a].0@ != s[b].0@);
        }
        assert(s.drop_last()[i] == s[i]);
        lemma_assoc_get_unique_index(s.drop_last(), i);
    }
}

/// Two association lists of the same length with the same keys answer
/// lookups at the same entry position.
pub proof fn lemma_assoc_get_parallel<V1, V2>(
    a: Seq<(String, V1)>,
    b: Seq<(String, V2)>,
    k: Seq<char>,
)
    requires
        a.len() == b.len(),
        forall|i: int| 0 <= i < a.len() ==> (#[trigger] a[i].0@) == b[i].0@,
    ensures
        (assoc_get(a, k) is Some) == (assoc_get(b, k) is Some),
        assoc_get(a, k) is Some ==> exists|i: int|
            0 <= i < a.len() && (#[trigger] a[i].0@) == k && assoc_get(a, k) == Some(a[i].1)
                && assoc_get(b, k) == Some(b[i].1),
    decreases a.len(),
{
    if a.len() > 0 {
        assert(a.last().0@ == b.last().0@);
        if a.last().0@ == k {
            assert(a[a.len() - 1].0@ == k);
            assert(assoc_get(a, k) == Some(a[a.len() - 1].1));
            assert(assoc_get(b, k) == Some(b[b.len() - 1].1));
        } else {
            let ap = a.drop_last();
            let bp = b.drop_last();
            assert forall|i: int| 0 <= i < ap.len() implies (#[trigger] ap[i].0@) == bp[i].0@ by {
                assert(a[i].0@ == b[i].0@);
            }
            lemma_assoc_get_parallel(ap, bp, k);
            if assoc_get(a, k) is Some {
                let i = choose|i: int|
                    0 <= i < ap.len() && (#[trigger] ap[i].0@) == k && assoc_get(ap, k) == Some(
                        ap[i].1,
                    ) && assoc_get(bp, k) == Some(bp[i].1);
                assert(a[i].0@ == k);
                assert(a[i].1 == ap[i].1);
                assert(b[i].1 == bp[i].1);
            }
        }
    }
}

} // verus!
