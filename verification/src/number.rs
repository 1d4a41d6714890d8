//! The texts that stand for decimal numbers in the plain text formats.
//!
//! A number is written as an optional sign followed by `inf`, `infinity` or `nan` (in any
//! letter case), or by digits with an optional decimal point (at least one digit in all)
//! and an optional exponent: `e` or `E`, an optional sign and at least one digit.

use vstd::prelude::*;

use crate::record::{is_digit, texts};

verus! {

broadcast use vstd::string::group_string_axioms;

/// The number of digits at the start of `s`.
pub open spec fn lead_digits(s: Seq<char>) -> nat
    decreases s.len(),
{
    if s.len() > 0 && is_digit(s[0]) {
        1 + lead_digits(s.drop_first())
    } else {
        0
    }
}

/// The lower case of an ASCII letter (other characters are kept).
pub open spec fn ascii_lower(c: char) -> char {
    if 'A' <= c <= 'Z' {
        ((c as u8) + 32) as u8 as char
    } else {
        c
    }
}

/// `s` without its leading sign, if it has one.
pub open spec fn unsigned_part(s: Seq<char>) -> Seq<char> {
    if s.len() > 0 && (s[0] == '+' || s[0] == '-') {
        s.drop_first()
    } else {
        s
    }
}

/// Whether `s` is `w` (a lower case word) in any letter case.
pub open spec fn is_word(s: Seq<char>, w: Seq<char>) -> bool {
    s.len() == w.len() && forall|i: int| 0 <= i < s.len() ==> ascii_lower(#[trigger] s[i]) == w[i]
}

/// Whether `s` is an exponent: `e` or `E`, an optional sign and at least one digit.
pub open spec fn is_exponent(s: Seq<char>) -> bool {
    &&& s.len() > 0
    &&& (s[0] == 'e' || s[0] == 'E')
    &&& unsigned_part(s.drop_first()).len() > 0
    &&& lead_digits(unsigned_part(s.drop_first())) == unsigned_part(s.drop_first()).len()
}

/// Whether `b` is digits, an optional point and digits (at least one digit in all), and an
/// optional exponent.
pub open spec fn is_decimal(b: Seq<char>) -> bool {
    let i = lead_digits(b);
    let rest = b.skip(i as int);
    let has_point = rest.len() > 0 && rest[0] == '.';
    let j: nat = if has_point {
        lead_digits(rest.skip(1))
    } else {
        0
    };
    let tail = if has_point {
        rest.skip(1 + j as int)
    } else {
        rest
    };
    &&& i + j > 0
    &&& (tail.len() == 0 || is_exponent(tail))
}

/// Whether `s` writes a number.
pub open spec fn is_number_text(s: Seq<char>) -> bool {
    let b = unsigned_part(s);
    ||| is_word(b, "inf"@)
    ||| is_word(b, "infinity"@)
    ||| is_word(b, "nan"@)
    ||| is_decimal(b)
}

/// The first of the texts that does not write a number, if any.
pub open spec fn first_non_number(v: Seq<Seq<char>>) -> Option<Seq<char>>
    decreases v.len(),
{
    if v.len() == 0 {
        None
    } else if !is_number_text(v[0]) {
        Some(v[0])
    } else {
        first_non_number(v.drop_first())
    }
}

/// The detail of the error for a text that does not write a number.
pub open spec fn number_error(t: Seq<char>) -> Seq<char> {
    if t.len() == 0 {
        "cannot parse float from empty string"@
    } else {
        "invalid float literal"@
    }
}

/// `lead_digits` counts the digits before the first character that is not one.
proof fn lemma_lead_digits(s: Seq<char>, k: int)
    requires
        0 <= k <= s.len(),
        forall|i: int| 0 <= i < k ==> is_digit(#[trigger] s[i]),
        k < s.len() ==> !is_digit(s[k]),
    ensures
        lead_digits(s) == k,
    decreases k,
{
    if k > 0 {
        assert forall|i: int| 0 <= i < k - 1 implies is_digit(#[trigger] s.drop_first()[i]) by {
            assert(s.drop_first()[i] == s[i + 1]);
        }
        if k < s.len() {
            assert(s.drop_first()[k - 1] == s[k]);
        }
        lemma_lead_digits(s.drop_first(), k - 1);
    }
}

/// The number of digits at the start of `v[from..]`.
fn count_digits(v: &[char], from: usize) -> (k: usize)
    requires
        from <= v@.len(),
    ensures
        from <= k <= v@.len(),
        lead_digits(v@.skip(from as int)) == k - from,
{
    let mut k = from;
    while k < v.len() && '0' <= v[k] && v[k] <= '9'
        invariant
            from <= k <= v@.len(),
            forall|i: int| from <= i < k ==> is_digit(#[trigger] v@[i]),
        decreases v@.len() - k,
    {
        k = k + 1;
    }
    proof {
        let ghost s = v@.skip(from as int);
        assert forall|i: int| 0 <= i < k - from implies is_digit(#[trigger] s[i]) by {
            assert(s[i] == v@[from + i]);
        }
        if k < v@.len() {
            assert(s[k - from] == v@[k as int]);
        }
        lemma_lead_digits(s, k - from);
    }
    k
}

/// The lower case of an ASCII letter.
fn lower(c: char) -> (r: char)
    ensures
        r == ascii_lower(c),
{
    if 'A' <= c && c <= 'Z' {
        let u: u8 = (c as u8) + 32;
        u as char
    } else {
        c
    }
}

/// Whether `v[from..]` is the word `w` in any letter case.
fn word_at(v: &[char], from: usize, w: &str) -> (r: bool)
    requires
        from <= v@.len(),
    ensures
        r == is_word(v@.skip(from as int), w@),
{
    let wc = crate::text::chars_of(w);
    let ghost s = v@.skip(from as int);
    if v.len() - from != wc.len() {
        return false;
    }
    let n = v.len();
    let mut i: usize = 0;
    while i < wc.len()
        invariant
            n == v@.len(),
            i <= wc@.len(),
            wc@ == w@,
            v@.len() - from == wc@.len(),
            from <= v@.len(),
            s == v@.skip(from as int),
            forall|k: int| 0 <= k < i ==> ascii_lower(#[trigger] s[k]) == wc@[k],
        decreases wc@.len() - i,
    {
        assert(s[i as int] == v@[from + i]);
        assert(from + i < v@.len());
        let c = v[from + i];
        if lower(c) != wc[i] {
            return false;
        }
        i = i + 1;
    }
    true
}

/// Whether `v[from..]` is an exponent.
fn exponent_at(v: &[char], from: usize) -> (r: bool)
    requires
        from <= v@.len(),
    ensures
        r == is_exponent(v@.skip(from as int)),
{
    let ghost s = v@.skip(from as int);
    if from >= v.len() {
        return false;
    }
    assert(s[0] == v@[from as int]);
    if v[from] != 'e' && v[from] != 'E' {
        return false;
    }
    let mut k = from + 1;
    assert(s.drop_first() =~= v@.skip(k as int));
    if k < v.len() && (v[k] == '+' || v[k] == '-') {
        k = k + 1;
        assert(unsigned_part(s.drop_first()) =~= v@.skip(k as int));
    } else {
        assert(unsigned_part(s.drop_first()) =~= v@.skip(k as int));
    }
    let d = count_digits(v, k);
    k < v.len() && d == v.len()
}

/// Whether a text writes a number.
pub fn is_number(v: &[char]) -> (r: bool)
    ensures
        r == is_number_text(v@),
{
    let start: usize = if v.len() > 0 && (v[0] == '+' || v[0] == '-') {
        1
    } else {
        0
    };
    let ghost b = unsigned_part(v@);
    assert(b =~= v@.skip(start as int));
    if word_at(v, start, "inf") || word_at(v, start, "infinity") || word_at(v, start, "nan") {
        return true;
    }
    let i = count_digits(v, start);
    let ghost rest = b.skip((i - start) as int);
    assert(rest =~= v@.skip(i as int));
    let has_point = i < v.len() && v[i] == '.';
    let j = if has_point {
        assert(rest.skip(1) =~= v@.skip(i as int + 1));
        count_digits(v, i + 1)
    } else {
        i
    };
    let after = if has_point {
        j
    } else {
        i
    };
    proof {
        if has_point {
            assert(rest.skip(1 + (j - i - 1)) =~= v@.skip(j as int));
        }
    }
    let digits: usize = if has_point {
        (i - start) + (j - i - 1)
    } else {
        i - start
    };
    digits > 0 && (after == v.len() || exponent_at(v, after))
}

/// The first of the texts that does not write a number, if any.
pub fn find_non_number(v: &Vec<String>) -> (r: Option<String>)
    ensures
        match first_non_number(texts(v@)) {
            Some(t) => r matches Some(x) && x@ == t,
            None => r is None,
        },
{
    let mut i: usize = 0;
    assert(texts(v@).skip(0) =~= texts(v@));
    while i < v.len()
        invariant
            i <= v@.len(),
            first_non_number(texts(v@)) == first_non_number(texts(v@).skip(i as int)),
        decreases v@.len() - i,
    {
        let c = crate::text::chars_of(v[i].as_str());
        let ghost t = texts(v@).skip(i as int);
        assert(t[0] == v@[i as int]@);
        if !is_number(c.as_slice()) {
            return Some(crate::text::string_of(c.as_slice()));
        }
        assert(t.drop_first() =~= texts(v@).skip(i as int + 1));
        i = i + 1;
    }
    None
}

/// The error detail for a text that does not write a number.
pub fn number_error_text(t: &str) -> (r: String)
    ensures
        r@ == number_error(t@),
{
    if crate::text::chars_of(t).len() == 0 {
        crate::text::string_of(crate::text::chars_of("cannot parse float from empty string").as_slice())
    } else {
        crate::text::string_of(crate::text::chars_of("invalid float literal").as_slice())
    }
}

/// Texts that all write numbers have no first text that does not.
pub proof fn lemma_all_numbers(v: Seq<Seq<char>>)
    requires
        forall|i: int| 0 <= i < v.len() ==> is_number_text(#[trigger] v[i]),
    ensures
        first_non_number(v) is None,
    decreases v.len(),
{
    if v.len() > 0 {
        assert(is_number_text(v[0]));
        assert forall|i: int| 0 <= i < v.drop_first().len() implies is_number_text(
            #[trigger] v.drop_first()[i],
        ) by {
            assert(v.drop_first()[i] == v[i + 1]);
        }
        lemma_all_numbers(v.drop_first());
    }
}

} // verus!
