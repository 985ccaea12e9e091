//! Recognition of the text that `str::parse::<f64>` accepts, and of the text that
//! `str::parse::<i64>` accepts together with its value.
//!
//! The grammar of `f64::from_str` is the one its documentation gives, read after ASCII
//! lower-casing:
//!
//! ```text
//! Float  ::= Sign? ( 'inf' | 'infinity' | 'nan' | Number )
//! Number ::= ( Digit+ | Digit+ '.' Digit* | Digit* '.' Digit+ ) Exp?
//! Exp    ::= 'e' Sign? Digit+
//! Sign   ::= [+-]
//! Digit  ::= [0-9]
//! ```
use vstd::prelude::*;

verus! {

/// ASCII lower-casing of one character.
pub open spec fn lower(c: char) -> char {
    if 'A' <= c <= 'Z' {
        ((c as int) + 32) as char
    } else {
        c
    }
}

/// ASCII lower-casing of a text.
pub open spec fn lower_seq(s: Seq<char>) -> Seq<char> {
    Seq::new(s.len(), |i: int| lower(s[i]))
}

pub open spec fn is_digit(c: char) -> bool {
    '0' <= c <= '9'
}

pub open spec fn is_sign(c: char) -> bool {
    c == '+' || c == '-'
}

pub open spec fn all_digits(s: Seq<char>) -> bool {
    forall|i: int| 0 <= i < s.len() ==> is_digit(#[trigger] s[i])
}

/// `Digit+ | Digit+ '.' Digit* | Digit* '.' Digit+`: digits and at most one point, with
/// at least one digit.
pub open spec fn is_mantissa(m: Seq<char>) -> bool {
    &&& forall|i: int| 0 <= i < m.len() ==> is_digit(#[trigger] m[i]) || m[i] == '.'
    &&& forall|i: int, j: int| 0 <= i < m.len() && 0 <= j < m.len() && #[trigger] m[i] == '.' && #[trigger] m[j] == '.' ==> i == j
    &&& exists|i: int| 0 <= i < m.len() && is_digit(#[trigger] m[i])
}

/// `'e' Sign? Digit+`
pub open spec fn is_exponent(x: Seq<char>) -> bool {
    &&& x.len() >= 2
    &&& x[0] == 'e'
    &&& (all_digits(x.skip(1)) || (x.len() >= 3 && is_sign(x[1]) && all_digits(x.skip(2))))
}

/// `Number`
pub open spec fn is_decimal_number(s: Seq<char>) -> bool {
    exists|k: int| 0 <= k <= s.len() && #[trigger] is_mantissa(s.take(k)) && (k == s.len() || is_exponent(s.skip(k)))
}

/// `'inf' | 'infinity' | 'nan' | Number`
pub open spec fn is_float_body(s: Seq<char>) -> bool {
    s == "inf"@ || s == "infinity"@ || s == "nan"@ || is_decimal_number(s)
}

/// The texts on which `str::parse::<f64>` succeeds.
pub open spec fn is_float_text(s: Seq<char>) -> bool {
    let l = lower_seq(s);
    is_float_body(l) || (l.len() > 0 && is_sign(l[0]) && is_float_body(l.skip(1)))
}

fn lower_char(c: char) -> (r: char)
    ensures
        r == lower(c),
{
    if 'A' <= c && c <= 'Z' {
        ((c as u8) + 32) as char
    } else {
        c
    }
}

fn is_digit_char(c: char) -> (r: bool)
    ensures
        r == is_digit(c),
{
    '0' <= c && c <= '9'
}

/// The characters of a text, one per element.
pub fn chars_of(s: &str) -> (v: Vec<char>)
    ensures
        v@ == s@,
{
    broadcast use vstd::string::axiom_spec_iter;
    let mut v: Vec<char> = Vec::new();
    for c in it: s.chars()
        invariant
            it.seq() == s@,
            v@ == it.seq().take(it.index()),
    {
        v.push(c);
        assert(v@ =~= it.seq().take(it.index() + 1));
    }
    assert(s@.take(s@.len() as int) =~= s@);
    v
}

/// Whether the characters of `v` from `start` on, lower-cased, are exactly `w`.
fn rest_is_word(v: &Vec<char>, start: usize, w: &str) -> (r: bool)
    requires
        start <= v.len(),
    ensures
        r == (lower_seq(v@).skip(start as int) == w@),
{
    let n = v.len();
    let wl = w.unicode_len();
    if n - start != wl {
        return false;
    }
    let mut i: usize = 0;
    while i < wl
        invariant
            n == v@.len(),
            start <= n,
            wl == w@.len(),
            n - start == wl,
            i <= wl,
            forall|j: int| 0 <= j < i ==> lower(v@[start + j]) == w@[j],
        decreases wl - i,
    {
        if lower_char(v[start + i]) != w.get_char(i) {
            assert(lower_seq(v@).skip(start as int)[i as int] != w@[i as int]);
            return false;
        }
        i = i + 1;
    }
    assert(lower_seq(v@).skip(start as int) =~= w@);
    true
}

proof fn lemma_mantissa_has_no_e(m: Seq<char>, j: int)
    requires
        is_mantissa(m),
        0 <= j < m.len(),
    ensures
        m[j] != 'e',
{
    assert(is_digit(m[j]) || m[j] == '.');
}

/// Whether the characters of `v` from `start` on form a `Number`, after lower-casing.
fn rest_is_decimal(v: &Vec<char>, start: usize) -> (r: bool)
    requires
        start <= v.len(),
    ensures
        r == is_decimal_number(lower_seq(v@).skip(start as int)),
{
    let ghost b = lower_seq(v@).skip(start as int);
    let n = v.len();
    let mut i: usize = start;
    let mut saw_dot = false;
    let mut dot_at: usize = 0;
    let mut saw_digit = false;
    let mut digit_at: usize = 0;
    while i < n && lower_char(v[i]) != 'e'
        invariant
            n == v@.len(),
            start <= i <= n,
            b == lower_seq(v@).skip(start as int),
            b.len() == n - start,
            forall|j: int| 0 <= j < i - start ==> is_digit(#[trigger] b[j]) || b[j] == '.',
            saw_dot ==> start <= dot_at < i && b[dot_at - start] == '.',
            saw_dot ==> forall|j: int| 0 <= j < i - start && #[trigger] b[j] == '.' ==> j == dot_at - start,
            !saw_dot ==> forall|j: int| 0 <= j < i - start ==> #[trigger] b[j] != '.',
            saw_digit ==> start <= digit_at < i && is_digit(b[digit_at - start]),
            !saw_digit ==> forall|j: int| 0 <= j < i - start ==> !is_digit(#[trigger] b[j]),
        decreases n - i,
    {
        let c = lower_char(v[i]);
        assert(b[i - start] == c);
        if is_digit_char(c) {
            saw_digit = true;
            digit_at = i;
        } else if c == '.' {
            if saw_dot {
                proof {
                    if is_decimal_number(b) {
                        let k = choose|k: int| 0 <= k <= b.len() && #[trigger] is_mantissa(b.take(k)) && (k == b.len() || is_exponent(b.skip(k)));
                        if k > i - start {
                            let m = b.take(k);
                            assert(m[dot_at - start] == '.');
                            assert(m[i - start] == '.');
                        } else {
                            assert(b.skip(k)[0] == 'e');
                            if k < i - start {
                                assert(is_digit(b[k]) || b[k] == '.');
                            }
                        }
                    }
                }
                return false;
            }
            saw_dot = true;
            dot_at = i;
        } else {
            proof {
                if is_decimal_number(b) {
                    let k = choose|k: int| 0 <= k <= b.len() && #[trigger] is_mantissa(b.take(k)) && (k == b.len() || is_exponent(b.skip(k)));
                    if k > i - start {
                        let m = b.take(k);
                        assert(is_digit(m[i - start]) || m[i - start] == '.');
                    } else {
                        assert(b.skip(k)[0] == 'e');
                        if k < i - start {
                            assert(is_digit(b[k]) || b[k] == '.');
                        }
                    }
                }
            }
            return false;
        }
        i = i + 1;
    }
    let k0: usize = i - start;
    // every character before k0 is a digit or a point, and k0 is the end or an 'e'
    assert(k0 == b.len() || b[k0 as int] == 'e');
    assert(is_decimal_number(b) ==> is_mantissa(b.take(k0 as int)) && (k0 == b.len() || is_exponent(b.skip(k0 as int)))) by {
        // a witness of Number must end its mantissa exactly at k0
        if is_decimal_number(b) {
            let k = choose|k: int| 0 <= k <= b.len() && #[trigger] is_mantissa(b.take(k)) && (k == b.len() || is_exponent(b.skip(k)));
            if k < k0 {
                assert(b.skip(k)[0] == 'e');
                assert(is_digit(b[k]) || b[k] == '.');
            }
            if k > k0 {
                assert(b.take(k)[k0 as int] == 'e');
                lemma_mantissa_has_no_e(b.take(k), k0 as int);
            }
            assert(k == k0);
        }
    }
    let ghost m = b.take(k0 as int);
    if !saw_digit {
        proof {
            if is_decimal_number(b) {
                let j = choose|j: int| 0 <= j < m.len() && is_digit(#[trigger] m[j]);
                assert(m[j] == b[j]);
            }
        }
        return false;
    }
    assert(is_digit(m[digit_at - start]));
    assert(is_mantissa(m)) by {
        assert forall|i1: int, j1: int| 0 <= i1 < m.len() && 0 <= j1 < m.len() && #[trigger] m[i1] == '.' && #[trigger] m[j1] == '.' implies i1 == j1 by {
            assert(m[i1] == b[i1]);
            assert(m[j1] == b[j1]);
        }
        assert forall|i1: int| 0 <= i1 < m.len() implies is_digit(#[trigger] m[i1]) || m[i1] == '.' by {
            assert(m[i1] == b[i1]);
        }
    }
    if i == n {
        assert(b.take(b.len() as int) =~= b);
        return true;
    }
    // the exponent
    let ghost x = b.skip(k0 as int);
    assert(x[0] == 'e');
    let mut j: usize = i + 1;
    let ghost mut signed = false;
    if j < n && (v[j] == '+' || v[j] == '-') {
        j = j + 1;
        proof {
            signed = true;
        }
    }
    let digits_from = j;
    proof {
        if i + 1 < n {
            assert(x[1] == lower(v@[(i + 1) as int]));
            assert(x.skip(1)[0] == x[1]);
        }
    }
    if j >= n {
        assert(!is_exponent(x));
        return false;
    }
    while j < n
        invariant
            n == v@.len(),
            i < digits_from <= j <= n,
            i + 1 < n,
            signed <==> digits_from == i + 2,
            signed ==> is_sign(x[1]),
            !signed ==> !is_sign(x[1]),
            x.skip(1)[0] == x[1],
            b == lower_seq(v@).skip(start as int),
            x == b.skip(k0 as int),
            x.len() == n - i,
            k0 == i - start,
            is_decimal_number(b) ==> is_exponent(x),
            forall|t: int| digits_from <= t < j ==> is_digit(#[trigger] v@[t]),
        decreases n - j,
    {
        if !is_digit_char(v[j]) {
            proof {
                assert(x[(j - i) as int] == lower(v@[j as int]));
                assert(!is_digit(lower(v@[j as int])));
                if signed {
                    assert(!is_digit(x.skip(1)[0]));
                    assert(x.skip(2)[(j - i - 2) as int] == x[(j - i) as int]);
                } else {
                    assert(x.skip(1)[(j - i - 1) as int] == x[(j - i) as int]);
                }
            }
            assert(!is_exponent(x));
            return false;
        }
        j = j + 1;
    }
    proof {
        let d = (digits_from - i) as int;
        assert forall|t: int| 0 <= t < x.skip(d).len() implies is_digit(#[trigger] x.skip(d)[t]) by {
            assert(x.skip(d)[t] == lower(v@[digits_from + t]));
            assert(is_digit(v@[digits_from + t]));
        }
    }
    true
}

/// Whether `token` is text that `str::parse::<f64>` accepts.
pub fn is_numerical(token: &String) -> (r: bool)
    ensures
        r == is_float_text(token@),
{
    let v = chars_of(token.as_str());
    let n = v.len();
    let ghost l = lower_seq(v@);
    assert(l.skip(0) =~= l);
    let start: usize = if n > 0 && (v[0] == '+' || v[0] == '-') { 1 } else { 0 };
    proof {
        reveal_strlit("inf");
        reveal_strlit("infinity");
        reveal_strlit("nan");
        if start == 1 {
            assert(l[0] == v@[0]);
            // a body never starts with a sign
            if is_decimal_number(l) {
                let k = choose|k: int| 0 <= k <= l.len() && #[trigger] is_mantissa(l.take(k)) && (k == l.len() || is_exponent(l.skip(k)));
                if k > 0 {
                    assert(is_digit(l.take(k)[0]) || l.take(k)[0] == '.');
                } else {
                    let t = choose|t: int| 0 <= t < l.take(k).len() && is_digit(#[trigger] l.take(k)[t]);
                }
            }
            assert(!is_float_body(l));
        } else {
            if n > 0 {
                assert(l[0] == lower(v@[0]));
            }
        }
    }
    let r = rest_is_word(&v, start, "inf") || rest_is_word(&v, start, "infinity") || rest_is_word(&v, start, "nan") || rest_is_decimal(&v, start);
    r
}

/// The value of a string of decimal digits.
pub open spec fn digits_value(s: Seq<char>) -> int
    decreases s.len(),
{
    if s.len() == 0 {
        0
    } else {
        digits_value(s.drop_last()) * 10 + (s.last() as int - '0' as int)
    }
}

/// The integer that a text denotes under `str::parse::<i64>`'s grammar (`Sign? Digit+`),
/// before the range check.
pub open spec fn int_text_value(s: Seq<char>) -> Option<int> {
    if s.len() > 0 && is_sign(s[0]) {
        let d = s.skip(1);
        if d.len() > 0 && all_digits(d) {
            Some(if s[0] == '-' { -digits_value(d) } else { digits_value(d) })
        } else {
            None
        }
    } else if s.len() > 0 && all_digits(s) {
        Some(digits_value(s))
    } else {
        None
    }
}

/// What `str::parse::<i64>` returns, with the error reduced to `None`.
pub open spec fn spec_parse_i64(s: Seq<char>) -> Option<i64> {
    match int_text_value(s) {
        Some(v) => if i64::MIN <= v <= i64::MAX { Some(v as i64) } else { None },
        None => None,
    }
}

proof fn lemma_digits_value_nonneg(s: Seq<char>)
    requires
        all_digits(s),
    ensures
        digits_value(s) >= 0,
    decreases s.len(),
{
    if s.len() > 0 {
        assert(is_digit(s[s.len() - 1]));
        lemma_digits_value_nonneg(s.drop_last());
    }
}

proof fn lemma_digits_value_grows(s: Seq<char>, k: int)
    requires
        all_digits(s),
        0 <= k <= s.len(),
    ensures
        digits_value(s.take(k)) <= digits_value(s),
    decreases s.len(),
{
    if k < s.len() {
        assert(is_digit(s[s.len() - 1]));
        assert(s.drop_last().take(k) =~= s.take(k));
        lemma_digits_value_grows(s.drop_last(), k);
        lemma_digits_value_nonneg(s.drop_last());
    } else {
        assert(s.take(k) =~= s);
    }
}

/// `str::parse::<i64>`: the value of a text of an optional sign and decimal digits, when
/// it fits in an `i64`.
pub fn parse_i64(text: &String) -> (r: Option<i64>)
    ensures
        r == spec_parse_i64(text@),
{
    let v = chars_of(text.as_str());
    let n = v.len();
    let ghost s = v@;
    if n == 0 {
        return None;
    }
    let negative = v[0] == '-';
    let start: usize = if v[0] == '+' || v[0] == '-' { 1 } else { 0 };
    if start == n {
        return None;
    }
    let ghost d = s.skip(start as int);
    assert(s.skip(0) =~= s);
    assert(d.take(0) =~= Seq::<char>::empty());
    let mut acc: u64 = 0;
    let mut i: usize = start;
    while i < n
        invariant
            n == s.len(),
            s == v@,
            start <= i <= n,
            start < n,
            d == s.skip(start as int),
            all_digits(d.take(i - start)),
            acc as int == digits_value(d.take(i - start)),
            acc <= 9223372036854775808u64,
            start <= 1,
            start == 1 <==> is_sign(s[0]),
            start == 0 ==> d == s,
            negative == (s[0] == '-'),
            s == text@,
        decreases n - i,
    {
        let c = v[i];
        if !is_digit_char(c) {
            proof {
                assert(d[i - start] == c);
            }
            assert(!all_digits(d));
            assert(int_text_value(s).is_none());
            return None;
        }
        let digit: u64 = (c as u64) - ('0' as u64);
        assert(d.take(i - start + 1).drop_last() =~= d.take(i - start));
        assert(d.take(i - start + 1).last() == c);
        proof {
            assert(all_digits(d.take(i - start + 1))) by {
                assert forall|t: int| 0 <= t < d.take(i - start + 1).len() implies is_digit(#[trigger] d.take(i - start + 1)[t]) by {
                    if t < i - start {
                        assert(d.take(i - start + 1)[t] == d.take(i - start)[t]);
                    }
                }
            }
        }
        assert(digits_value(d.take(i - start + 1)) == acc * 10 + digit);
        if acc > 922337203685477580u64 || (acc == 922337203685477580u64 && digit > 8) {
            // the value already exceeds what any i64 can hold
            proof {
                if all_digits(d) {
                    lemma_digits_value_grows(d, i - start + 1);
                    assert(digits_value(d) > 9223372036854775808);
                    if start == 1 {
                        assert(d == s.skip(1));
                        assert(d.len() > 0);
                    } else {
                        assert(!is_sign(s[0]));
                        assert(all_digits(s));
                        assert(int_text_value(s) == Some(digits_value(s)));
                    }
                }
                assert(spec_parse_i64(s).is_none());
            }
            return None;
        }
        acc = acc * 10 + digit;
        i = i + 1;
    }
    assert(d.take(n - start) =~= d);
    if negative {
        if acc == 9223372036854775808u64 {
            Some(i64::MIN)
        } else {
            Some(-(acc as i64))
        }
    } else if acc == 9223372036854775808u64 {
        None
    } else {
        Some(acc as i64)
    }
}

} // verus!
