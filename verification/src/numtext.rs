//! Decimal text for numbers.
//!
//! Stored numbers travel as decimal text. This module renders integers to
//! that text, parses the text back, and detects the markers (`.`, `e`, `E`)
//! that tell a floating-point text from an integer one.

use vstd::prelude::*;

verus! {

broadcast use vstd::std_specs::vec::group_vec_axioms, vstd::seq::group_seq_axioms;

/// The decimal digit character for `d` (meaningful for `0 <= d <= 9`).
pub open spec fn digit_char(d: int) -> char {
    if d == 0 {
        '0'
    } else if d == 1 {
        '1'
    } else if d == 2 {
        '2'
    } else if d == 3 {
        '3'
    } else if d == 4 {
        '4'
    } else if d == 5 {
        '5'
    } else if d == 6 {
        '6'
    } else if d == 7 {
        '7'
    } else if d == 8 {
        '8'
    } else {
        '9'
    }
}

/// Whether `c` is a decimal digit character.
pub open spec fn is_digit_char(c: char) -> bool {
    c == '0' || c == '1' || c == '2' || c == '3' || c == '4' || c == '5' || c == '6' || c == '7'
        || c == '8' || c == '9'
}

/// The numeric value of a digit character (meaningful when `is_digit_char(c)`).
pub open spec fn digit_char_val(c: char) -> int {
    if c == '0' {
        0
    } else if c == '1' {
        1
    } else if c == '2' {
        2
    } else if c == '3' {
        3
    } else if c == '4' {
        4
    } else if c == '5' {
        5
    } else if c == '6' {
        6
    } else if c == '7' {
        7
    } else if c == '8' {
        8
    } else {
        9
    }
}

/// The decimal text of a natural number, without sign or leading zeros.
pub open spec fn dec_of_nat(n: nat) -> Seq<char>
    decreases n,
{
    if n < 10 {
        seq![digit_char(n as int)]
    } else {
        dec_of_nat(n / 10).push(digit_char((n % 10) as int))
    }
}

/// The decimal text of an integer: a minus sign for negatives, then digits.
pub open spec fn dec_of_int(i: int) -> Seq<char> {
    if i < 0 {
        seq!['-'] + dec_of_nat((-i) as nat)
    } else {
        dec_of_nat(i as nat)
    }
}

/// Whether every character of `s` is a decimal digit.
pub open spec fn all_digit_chars(s: Seq<char>) -> bool {
    forall|i: int| 0 <= i < s.len() ==> is_digit_char(#[trigger] s[i])
}

/// The value of a run of digit characters, most significant first.
pub open spec fn digits_val(s: Seq<char>) -> int
    decreases s.len(),
{
    if s.len() == 0 {
        0
    } else {
        digits_val(s.drop_last()) * 10 + digit_char_val(s.last())
    }
}

/// Whether `s` is well-formed integer text: an optional single `+` or `-`
/// sign followed by one or more digits.
pub open spec fn int_text_wf(s: Seq<char>) -> bool {
    if s.len() == 0 {
        false
    } else if s[0] == '-' || s[0] == '+' {
        s.len() > 1 && all_digit_chars(s.subrange(1, s.len() as int))
    } else {
        all_digit_chars(s)
    }
}

/// The integer value of well-formed integer text.
pub open spec fn int_text_val(s: Seq<char>) -> int {
    if s.len() > 0 && s[0] == '-' {
        -digits_val(s.subrange(1, s.len() as int))
    } else if s.len() > 0 && s[0] == '+' {
        digits_val(s.subrange(1, s.len() as int))
    } else {
        digits_val(s)
    }
}

/// Whether number text carries a floating-point marker: a decimal point or
/// an exponent letter. Absence means the text names an integer.
pub open spec fn has_float_marker(s: Seq<char>) -> bool {
    exists|i: int| 0 <= i < s.len() && (#[trigger] s[i] == '.' || s[i] == 'e' || s[i] == 'E')
}

/// A one-character string for the digit `d`.
fn digit_str(d: u64) -> (r: &'static str)
    requires
        d < 10,
    ensures
        r@ =~= seq![digit_char(d as int)],
        r@.len() == 1,
{
    proof {
        reveal_strlit("0");
        reveal_strlit("1");
        reveal_strlit("2");
        reveal_strlit("3");
        reveal_strlit("4");
        reveal_strlit("5");
        reveal_strlit("6");
        reveal_strlit("7");
        reveal_strlit("8");
        reveal_strlit("9");
    }
    if d == 0 {
        "0"
    } else if d == 1 {
        "1"
    } else if d == 2 {
        "2"
    } else if d == 3 {
        "3"
    } else if d == 4 {
        "4"
    } else if d == 5 {
        "5"
    } else if d == 6 {
        "6"
    } else if d == 7 {
        "7"
    } else if d == 8 {
        "8"
    } else {
        "9"
    }
}

/// Renders a natural number as decimal text.
pub fn u64_to_decimal(n: u64) -> (r: String)
    ensures
        r@ == dec_of_nat(n as nat),
    decreases n,
{
    if n < 10 {
        String::from_str(digit_str(n))
    } else {
        let mut s = u64_to_decimal(n / 10);
        s.append(digit_str(n % 10));
        proof {
            assert(s@ =~= dec_of_nat((n / 10) as nat).push(digit_char((n % 10) as int)));
        }
        s
    }
}

/// Renders a signed integer as decimal text: a minus sign for negatives,
/// then the digits of the magnitude.
pub fn i64_to_decimal(i: i64) -> (r: String)
    ensures
        r@ == dec_of_int(i as int),
{
    if i >= 0 {
        u64_to_decimal(i as u64)
    } else {
        let mag: u64 = ((-(i + 1)) as u64) + 1;
        let mut s = String::from_str("-");
        let digits = u64_to_decimal(mag);
        s.append(digits.as_str());
        proof {
            reveal_strlit("-");
            assert(mag as int == -(i as int));
            assert(s@ =~= seq!['-'] + dec_of_nat((-(i as int)) as nat));
        }
        s
    }
}

/// A run of digit characters has a value of at least zero.
pub proof fn lemma_digits_val_nonneg(s: Seq<char>)
    ensures
        digits_val(s) >= 0,
    decreases s.len(),
{
    if s.len() > 0 {
        lemma_digits_val_nonneg(s.drop_last());
        assert(digit_char_val(s.last()) >= 0);
    }
}

/// Extending a run of digits never shrinks its value.
pub proof fn lemma_digits_val_prefix(s: Seq<char>, k: int)
    requires
        0 <= k <= s.len(),
    ensures
        digits_val(s) >= digits_val(s.subrange(0, k)),
    decreases s.len() - k,
{
    if k < s.len() {
        lemma_digits_val_prefix(s, k + 1);
        let p = s.subrange(0, k);
        let q = s.subrange(0, k + 1);
        assert(q.drop_last() =~= p);
        lemma_digits_val_nonneg(p);
        assert(digits_val(q) == digits_val(p) * 10 + digit_char_val(q.last()));
        assert(digit_char_val(q.last()) >= 0);
        assert(digits_val(p) * 10 >= digits_val(p));
    } else {
        assert(s.subrange(0, k) =~= s);
    }
}

/// The digit of a character, or nothing when the character is no digit.
fn digit_of_char(c: char) -> (r: Option<u64>)
    ensures
        match r {
            Some(d) => is_digit_char(c) && d < 10 && d as int == digit_char_val(c),
            None => !is_digit_char(c),
        },
{
    match c {
        '0' => Some(0),
        '1' => Some(1),
        '2' => Some(2),
        '3' => Some(3),
        '4' => Some(4),
        '5' => Some(5),
        '6' => Some(6),
        '7' => Some(7),
        '8' => Some(8),
        '9' => Some(9),
        _ => None,
    }
}

/// Parses decimal integer text: an optional single sign, then digits.
/// Returns the value exactly when the text is well-formed and the value
/// fits the machine integer; returns nothing otherwise.
pub fn parse_i64(s: &str) -> (r: Option<i64>)
    ensures
        match r {
            Some(v) => int_text_wf(s@) && v as int == int_text_val(s@),
            None => !(int_text_wf(s@) && i64::MIN <= int_text_val(s@) <= i64::MAX),
        },
{
    let len = s.unicode_len();
    if len == 0 {
        return None;
    }
    let first = s.get_char(0);
    let neg: bool = first == '-';
    let start: usize = if first == '-' || first == '+' {
        1
    } else {
        0
    };
    if start >= len {
        // A lone sign has no digits.
        return None;
    }
    let ghost digits: Seq<char> = s@.subrange(start as int, len as int);
    // Accumulate the magnitude as a non-positive number, so that the most
    // negative machine integer is reachable.
    let mut acc: i64 = 0;
    let mut j: usize = start;
    while j < len
        invariant
            start <= j <= len,
            len == s@.len(),
            start == 0 || start == 1,
            start == 1 ==> (s@[0] == '-' || s@[0] == '+'),
            start == 0 ==> !(s@[0] == '-' || s@[0] == '+'),
            neg == (s@[0] == '-'),
            start < len,
            digits == s@.subrange(start as int, len as int),
            all_digit_chars(s@.subrange(start as int, j as int)),
            acc <= 0,
            acc as int == -digits_val(s@.subrange(start as int, j as int)),
        decreases len - j,
    {
        let c = s.get_char(j);
        let d = match digit_of_char(c) {
            Some(d) => d,
            None => {
                proof {
                    assert(digits[j - start] == s@[j as int]);
                }
                return None;
            },
        };
        let ghost pre = s.view().subrange(start as int, j as int);
        let ghost ext = s.view().subrange(start as int, j as int + 1);
        proof {
            assert(ext.drop_last() =~= pre);
            assert(ext.last() == s@[j as int]);
        }
        let stepped = match acc.checked_mul(10) {
            Some(m) => m.checked_sub(d as i64),
            None => None,
        };
        acc = match stepped {
            Some(a) => a,
            None => {
                // The magnitude read so far is already past the machine
                // range, and further digits can only grow it.
                proof {
                    lemma_digits_val_nonneg(pre);
                    assert(digits_val(ext) == digits_val(pre) * 10 + digit_char_val(ext.last()));
                    assert(digits_val(ext) > i64::MAX);
                    if int_text_wf(s@) {
                        assert(digits =~= s@.subrange(start as int, len as int));
                        lemma_digits_val_prefix(digits, j as int + 1 - start);
                        assert(digits.subrange(0, j as int + 1 - start) =~= ext);
                        assert(digits_val(digits) >= digits_val(ext));
                        if neg {
                            assert(int_text_val(s@) == -digits_val(digits));
                        } else if s@[0] == '+' {
                            assert(int_text_val(s@) == digits_val(digits));
                        } else {
                            assert(s@.subrange(0, len as int) =~= s@);
                            assert(int_text_val(s@) == digits_val(s@));
                            lemma_digits_val_prefix(s@, j as int + 1);
                            assert(s@.subrange(0, j as int + 1) =~= ext);
                        }
                    }
                }
                return None;
            },
        };
        j += 1;
        proof {
            assert(s@.subrange(start as int, j as int) =~= ext);
        }
    }
    proof {
        assert(s@.subrange(start as int, j as int) =~= digits);
    }
    if neg {
        proof {
            assert(int_text_val(s@) == -digits_val(digits));
        }
        Some(acc)
    } else {
        match 0i64.checked_sub(acc) {
            Some(v) => {
                proof {
                    if s@[0] == '+' {
                        assert(int_text_val(s@) == digits_val(digits));
                    } else {
                        assert(s@.subrange(0, len as int) =~= s@);
                        assert(int_text_val(s@) == digits_val(s@));
                        assert(digits =~= s@);
                    }
                }
                Some(v)
            },
            None => {
                // The magnitude equals one more than the largest machine
                // integer, which only the negative sign can carry.
                proof {
                    if s@[0] == '+' {
                        assert(int_text_val(s@) == digits_val(digits));
                    } else {
                        assert(digits =~= s@);
                    }
                }
                None
            },
        }
    }
}

/// The decimal text of a natural number is one or more digit characters.
pub proof fn lemma_dec_of_nat_digits(n: nat)
    ensures
        dec_of_nat(n).len() >= 1,
        all_digit_chars(dec_of_nat(n)),
    decreases n,
{
    if n >= 10 {
        lemma_dec_of_nat_digits(n / 10);
        assert forall|i: int| 0 <= i < dec_of_nat(n).len() implies is_digit_char(
            #[trigger] dec_of_nat(n)[i],
        ) by {
            if i < dec_of_nat(n).len() - 1 {
                assert(dec_of_nat(n)[i] == dec_of_nat(n / 10)[i]);
            }
        }
    }
}

/// Reading back the decimal text of a natural number gives the number.
pub proof fn lemma_digits_val_dec_of_nat(n: nat)
    ensures
        digits_val(dec_of_nat(n)) == n,
    decreases n,
{
    if n < 10 {
        let s = dec_of_nat(n);
        assert(s == seq![digit_char(n as int)]);
        assert(s.drop_last() =~= Seq::<char>::empty());
        assert(s.last() == digit_char(n as int));
        assert(digits_val(s) == digits_val(s.drop_last()) * 10 + digit_char_val(s.last()));
        assert(digits_val(s.drop_last()) == 0);
        assert(digit_char_val(digit_char(n as int)) == n);
    } else {
        lemma_digits_val_dec_of_nat(n / 10);
        let s = dec_of_nat(n);
        assert(s == dec_of_nat(n / 10).push(digit_char((n % 10) as int)));
        assert(s.drop_last() =~= dec_of_nat(n / 10));
        assert(s.last() == digit_char((n % 10) as int));
        assert(digits_val(s) == digits_val(s.drop_last()) * 10 + digit_char_val(s.last()));
        assert(digit_char_val(digit_char((n % 10) as int)) == n % 10);
        assert(digits_val(s) == (n / 10) * 10 + n % 10);
        assert(n == (n / 10) * 10 + n % 10) by (nonlinear_arith);
    }
}

/// A digit character is no sign and no floating-point marker.
pub proof fn lemma_digit_char_plain(c: char)
    requires
        is_digit_char(c),
    ensures
        c != '-' && c != '+' && c != '.' && c != 'e' && c != 'E',
{
}

/// The decimal text of an integer is well-formed integer text, carries no
/// floating-point marker, and reads back to the integer itself.
pub proof fn lemma_int_text_round_trip(i: int)
    ensures
        int_text_wf(dec_of_int(i)),
        int_text_val(dec_of_int(i)) == i,
        !has_float_marker(dec_of_int(i)),
{
    if i < 0 {
        let mag = (-i) as nat;
        lemma_dec_of_nat_digits(mag);
        lemma_digits_val_dec_of_nat(mag);
        let s = dec_of_int(i);
        assert(s[0] == '-');
        assert(s.subrange(1, s.len() as int) =~= dec_of_nat(mag));
        assert forall|k: int| 0 <= k < s.len() implies !(#[trigger] s[k] == '.' || s[k] == 'e'
            || s[k] == 'E') by {
            if k > 0 {
                assert(s[k] == dec_of_nat(mag)[k - 1]);
                lemma_digit_char_plain(s[k]);
            }
        }
    } else {
        lemma_dec_of_nat_digits(i as nat);
        lemma_digits_val_dec_of_nat(i as nat);
        let s = dec_of_int(i);
        assert(is_digit_char(s[0]));
        lemma_digit_char_plain(s[0]);
        assert forall|k: int| 0 <= k < s.len() implies !(#[trigger] s[k] == '.' || s[k] == 'e'
            || s[k] == 'E') by {
            lemma_digit_char_plain(s[k]);
        }
    }
}


/// Different natural numbers have different decimal texts.
pub proof fn lemma_dec_of_nat_injective(a: nat, b: nat)
    requires
        dec_of_nat(a) == dec_of_nat(b),
    ensures
        a == b,
{
    lemma_digits_val_dec_of_nat(a);
    lemma_digits_val_dec_of_nat(b);
}

/// Whether `c` is a sign character.
pub open spec fn is_sign_char(c: char) -> bool {
    c == '+' || c == '-'
}

/// Whether `c` marks an exponent.
pub open spec fn is_exp_char(c: char) -> bool {
    c == 'e' || c == 'E'
}

/// The first index at or after `i` holding an exponent marker, or the length
/// of `s` when there is none.
pub open spec fn find_exp_from(s: Seq<char>, i: int) -> int
    decreases s.len() - i,
{
    if 0 <= i < s.len() {
        if is_exp_char(s[i]) {
            i
        } else {
            find_exp_from(s, i + 1)
        }
    } else {
        s.len() as int
    }
}

/// How many characters of `s` are decimal digits.
pub open spec fn digit_count(s: Seq<char>) -> int
    decreases s.len(),
{
    if s.len() == 0 {
        0
    } else {
        digit_count(s.drop_last()) + if is_digit_char(s.last()) {
            1int
        } else {
            0int
        }
    }
}

/// How many characters of `s` are decimal points.
pub open spec fn dot_count(s: Seq<char>) -> int
    decreases s.len(),
{
    if s.len() == 0 {
        0
    } else {
        dot_count(s.drop_last()) + if s.last() == '.' {
            1int
        } else {
            0int
        }
    }
}

/// `s` without one leading sign character, if it has one.
pub open spec fn strip_sign(s: Seq<char>) -> Seq<char> {
    if s.len() > 0 && is_sign_char(s[0]) {
        s.subrange(1, s.len() as int)
    } else {
        s
    }
}

/// Whether `t` is a well-formed mantissa: an optional sign, then digits with
/// at most one decimal point among them and at least one digit.
pub open spec fn mantissa_wf(t: Seq<char>) -> bool {
    let u = strip_sign(t);
    &&& u.len() > 0
    &&& digit_count(u) >= 1
    &&& dot_count(u) <= 1
    &&& forall|i: int| 0 <= i < u.len() ==> (is_digit_char(#[trigger] u[i]) || u[i] == '.')
}

/// Whether `t` is a well-formed exponent body: an optional sign, then one or
/// more digits.
pub open spec fn exp_wf(t: Seq<char>) -> bool {
    let u = strip_sign(t);
    u.len() > 0 && all_digit_chars(u)
}

/// Whether `s` is well-formed floating-point text: a mantissa, optionally
/// followed by an exponent marker and an exponent body.
pub open spec fn float_text_wf(s: Seq<char>) -> bool {
    let k = find_exp_from(s, 0);
    &&& mantissa_wf(s.subrange(0, k))
    &&& (k == s.len() || exp_wf(s.subrange(k + 1, s.len() as int)))
}

/// `find_exp_from` stays within bounds, finds only exponent markers, and
/// passes over none.
pub proof fn lemma_find_exp_from(s: Seq<char>, i: int)
    requires
        0 <= i <= s.len(),
    ensures
        i <= find_exp_from(s, i) <= s.len(),
        find_exp_from(s, i) < s.len() ==> is_exp_char(s[find_exp_from(s, i)]),
        forall|j: int| i <= j < find_exp_from(s, i) ==> !is_exp_char(#[trigger] s[j]),
    decreases s.len() - i,
{
    if i < s.len() && !is_exp_char(s[i]) {
        lemma_find_exp_from(s, i + 1);
    }
}

/// Counts digits and decimal points in `s@` between `from` and `to`, and
/// reports whether every character there is a digit or a point.
fn scan_mantissa(s: &str, from: usize, to: usize) -> (r: (usize, usize, bool))
    requires
        from <= to <= s@.len(),
    ensures
        r.0 as int == digit_count(s@.subrange(from as int, to as int)),
        r.1 as int == dot_count(s@.subrange(from as int, to as int)),
        r.2 == forall|i: int|
            from <= i < to ==> (is_digit_char(#[trigger] s@[i]) || s@[i] == '.'),
{
    let mut digits: usize = 0;
    let mut dots: usize = 0;
    let mut plain: bool = true;
    let mut j: usize = from;
    while j < to
        invariant
            from <= j <= to <= s@.len(),
            digits <= j,
            dots <= j,
            digits as int == digit_count(s@.subrange(from as int, j as int)),
            dots as int == dot_count(s@.subrange(from as int, j as int)),
            plain == forall|i: int|
                from <= i < j ==> (is_digit_char(#[trigger] s@[i]) || s@[i] == '.'),
        decreases to - j,
    {
        let c = s.get_char(j);
        let ghost pre = s.view().subrange(from as int, j as int);
        let ghost ext = s.view().subrange(from as int, j as int + 1);
        proof {
            assert(ext.drop_last() =~= pre);
            assert(ext.last() == s@[j as int]);
            lemma_digit_count_bound(pre);
            lemma_dot_count_bound(pre);
        }
        let is_d = matches!(c, '0' | '1' | '2' | '3' | '4' | '5' | '6' | '7' | '8' | '9');
        if is_d {
            digits += 1;
        }
        if c == '.' {
            dots += 1;
        }
        if !is_d && c != '.' {
            plain = false;
        }
        j += 1;
    }
    (digits, dots, plain)
}

/// A digit count never goes below zero nor above the length.
pub proof fn lemma_digit_count_bound(s: Seq<char>)
    ensures
        0 <= digit_count(s) <= s.len(),
    decreases s.len(),
{
    if s.len() > 0 {
        lemma_digit_count_bound(s.drop_last());
    }
}

/// A decimal-point count never goes below zero nor above the length.
pub proof fn lemma_dot_count_bound(s: Seq<char>)
    ensures
        0 <= dot_count(s) <= s.len(),
    decreases s.len(),
{
    if s.len() > 0 {
        lemma_dot_count_bound(s.drop_last());
    }
}

/// The index of the first exponent marker of `s`, or its length.
fn find_exp_idx(s: &str) -> (k: usize)
    ensures
        k as int == find_exp_from(s@, 0),
        k <= s@.len(),
{
    let len = s.unicode_len();
    let mut k: usize = 0;
    while k < len
        invariant
            0 <= k <= len,
            len == s@.len(),
            forall|j: int| 0 <= j < k ==> !is_exp_char(#[trigger] s@[j]),
        decreases len - k,
    {
        let c = s.get_char(k);
        if c == 'e' || c == 'E' {
            proof {
                lemma_find_exp_from(s@, 0);
                let f = find_exp_from(s@, 0);
                assert(is_exp_char(s@[k as int]));
                if f < k as int {
                    assert(!is_exp_char(s@[f]));
                }
                if f > k as int {
                    assert(!is_exp_char(s@[k as int]));
                }
            }
            return k;
        }
        k += 1;
    }
    proof {
        lemma_find_exp_from(s@, 0);
        let f = find_exp_from(s@, 0);
        if f < len as int {
            assert(!is_exp_char(s@[f]));
            assert(is_exp_char(s@[f]));
        }
    }
    k
}

/// Reports whether `s` is well-formed floating-point text.
pub fn check_float_text(s: &str) -> (r: bool)
    ensures
        r == float_text_wf(s@),
{
    let len = s.unicode_len();
    let k = find_exp_idx(s);
    // The mantissa runs up to the marker.
    let m_end = k;
    let mut m_start: usize = 0;
    if m_end > 0 {
        let c0 = s.get_char(0);
        if c0 == '+' || c0 == '-' {
            m_start = 1;
        }
    }
    let ghost mant = s.view().subrange(0, m_end as int);
    proof {
        if m_end > 0 {
            assert(mant[0] == s@[0]);
        }
        assert(strip_sign(mant) =~= s@.subrange(m_start as int, m_end as int));
    }
    if m_start >= m_end {
        // An empty mantissa body cannot stand.
        return false;
    }
    let (digits, dots, plain) = scan_mantissa(s, m_start, m_end);
    proof {
        let u = strip_sign(mant);
        assert(u.len() == m_end - m_start);
        if plain {
            assert forall|i: int| 0 <= i < u.len() implies (is_digit_char(#[trigger] u[i])
                || u[i] == '.') by {
                assert(u[i] == s@[m_start + i]);
            }
        }
        if forall|i: int| 0 <= i < u.len() ==> (is_digit_char(#[trigger] u[i]) || u[i] == '.') {
            assert forall|i: int| m_start <= i < m_end implies (is_digit_char(#[trigger] s@[i])
                || s@[i] == '.') by {
                assert(s@[i] == u[i - m_start]);
            }
        }
        assert(plain == (forall|i: int|
            0 <= i < u.len() ==> (is_digit_char(#[trigger] u[i]) || u[i] == '.')));
    }
    if !(plain && digits >= 1 && dots <= 1) {
        return false;
    }
    if k == len {
        return true;
    }
    // The exponent body runs after the marker.
    let mut e_start = k + 1;
    if e_start < len {
        let ce = s.get_char(e_start);
        if ce == '+' || ce == '-' {
            e_start += 1;
        }
    }
    let ghost expp = s.view().subrange(k as int + 1, len as int);
    proof {
        if k as int + 1 < len {
            assert(expp[0] == s@[k as int + 1]);
        }
        assert(strip_sign(expp) =~= s@.subrange(e_start as int, len as int));
    }
    if e_start >= len {
        // An empty exponent body cannot stand.
        return false;
    }
    let (e_digits, e_dots, e_plain) = scan_mantissa(s, e_start, len);
    proof {
        let u = strip_sign(expp);
        assert(u.len() == len - e_start);
        if e_plain {
            assert forall|i: int| 0 <= i < u.len() implies (is_digit_char(#[trigger] u[i])
                || u[i] == '.') by {
                assert(u[i] == s@[e_start + i]);
            }
        }
        if all_digit_chars(u) {
            lemma_all_digits_counts(u);
            assert forall|i: int| e_start <= i < len implies (is_digit_char(#[trigger] s@[i])
                || s@[i] == '.') by {
                assert(s@[i] == u[i - e_start]);
            }
        }
        if e_plain && e_dots == 0 {
            assert(dot_count(u) == 0);
            lemma_no_dots_all_digits(u);
        }
    }
    e_plain && e_dots == 0
}

/// A run with no decimal points whose characters are all digits or points is
/// all digits.
pub proof fn lemma_no_dots_all_digits(u: Seq<char>)
    requires
        dot_count(u) == 0,
        forall|i: int| 0 <= i < u.len() ==> (is_digit_char(#[trigger] u[i]) || u[i] == '.'),
    ensures
        all_digit_chars(u),
    decreases u.len(),
{
    if u.len() > 0 {
        lemma_dot_count_bound(u.drop_last());
        assert(forall|i: int|
            0 <= i < u.drop_last().len() ==> (is_digit_char(#[trigger] u.drop_last()[i])
                || u.drop_last()[i] == '.'));
        lemma_no_dots_all_digits(u.drop_last());
        assert forall|i: int| 0 <= i < u.len() implies is_digit_char(#[trigger] u[i]) by {
            if i < u.len() - 1 {
                assert(u.drop_last()[i] == u[i]);
                assert(is_digit_char(u.drop_last()[i]));
            } else {
                assert(u[i] == u.last());
                if u.last() == '.' {
                    assert(dot_count(u) >= 1);
                }
            }
        }
    }
}

/// A run of digits has no decimal points, and every character counts as a
/// digit.
pub proof fn lemma_all_digits_counts(u: Seq<char>)
    requires
        all_digit_chars(u),
    ensures
        dot_count(u) == 0,
        digit_count(u) == u.len(),
    decreases u.len(),
{
    if u.len() > 0 {
        assert(forall|i: int|
            0 <= i < u.drop_last().len() ==> is_digit_char(#[trigger] u.drop_last()[i]));
        lemma_all_digits_counts(u.drop_last());
        assert(is_digit_char(u.last()));
        lemma_digit_char_plain(u.last());
    }
}

/// Reports whether number text carries a floating-point marker.
pub fn has_marker(s: &str) -> (r: bool)
    ensures
        r == has_float_marker(s@),
{
    let len = s.unicode_len();
    let mut j: usize = 0;
    while j < len
        invariant
            0 <= j <= len,
            len == s@.len(),
            forall|i: int|
                0 <= i < j ==> !(#[trigger] s@[i] == '.' || s@[i] == 'e' || s@[i] == 'E'),
        decreases len - j,
    {
        let c = s.get_char(j);
        if c == '.' || c == 'e' || c == 'E' {
            return true;
        }
        j += 1;
    }
    false
}

} // verus!
