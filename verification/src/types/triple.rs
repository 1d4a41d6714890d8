//! The text form of the three values of a factor (renewable and non renewable primary
//! energy, CO2 emissions), as metadata and users write them: `(a, b, c)`, `a, b, c` or
//! `{ ren: a, nren: b, co2: c }`.

use vstd::prelude::*;

use crate::error::{is_parse_error, EpbdError};
use crate::number::{is_number, is_number_text};
use crate::record::{split_chars, trim_each, views};
use crate::text::{
    chars_eq, chars_of, find_char, prefix_until, slice_chars, split_on, string_of, trim,
    trim_all, trim_chars,
};
use crate::types::FactorTexts;

verus! {

broadcast use vstd::string::group_string_axioms;

/// `s` without its leading characters `a` or `b`.
pub open spec fn strip_start2(s: Seq<char>, a: char, b: char) -> Seq<char>
    decreases s.len(),
{
    if s.len() > 0 && (s[0] == a || s[0] == b) {
        strip_start2(s.drop_first(), a, b)
    } else {
        s
    }
}

/// `s` without its trailing characters `a` or `b`.
pub open spec fn strip_end2(s: Seq<char>, a: char, b: char) -> Seq<char>
    decreases s.len(),
{
    if s.len() > 0 && (s.last() == a || s.last() == b) {
        strip_end2(s.drop_last(), a, b)
    } else {
        s
    }
}

/// `s` without its leading and trailing characters `a` or `b`.
pub open spec fn strip2(s: Seq<char>, a: char, b: char) -> Seq<char> {
    strip_end2(strip_start2(s, a, b), a, b)
}

/// The key and the value of a part `key: value` of the named form, when it has a `:`.
pub open spec fn key_value(p: Seq<char>) -> Option<(Seq<char>, Seq<char>)> {
    let k = prefix_until(p, ':');
    if k.len() < p.len() {
        Some((trim(k), trim(p.skip(k.len() as int + 1))))
    } else {
        None
    }
}

/// The three values of the named form, from its parts: a part with the key `ren`, `nren`
/// or `co2` and a number sets that value (the last such part wins); the others are ignored,
/// and a value that no part sets is `0.0`.
pub open spec fn named_values(parts: Seq<Seq<char>>) -> (Seq<char>, Seq<char>, Seq<char>)
    decreases parts.len(),
{
    if parts.len() == 0 {
        ("0.0"@, "0.0"@, "0.0"@)
    } else {
        let (r, n, c) = named_values(parts.drop_last());
        match key_value(parts.last()) {
            Some((k, v)) => if !is_number_text(v) {
                (r, n, c)
            } else if k == "ren"@ {
                (v, n, c)
            } else if k == "nren"@ {
                (r, v, c)
            } else if k == "co2"@ {
                (r, n, v)
            } else {
                (r, n, c)
            },
            None => (r, n, c),
        }
    }
}

/// The three values that `s` gives, or the text (without white space and round brackets at
/// its ends) that the `ParseError` reports: the named form when it starts with `{`, else
/// exactly three numbers separated by commas.
pub open spec fn triple_parse(s: Seq<char>) -> Result<(Seq<char>, Seq<char>, Seq<char>), Seq<char>> {
    let t = strip2(trim(s), '(', ')');
    if t.len() > 0 && t[0] == '{' {
        Ok(named_values(split_on(strip2(t, '{', '}'), ',')))
    } else {
        let parts = trim_all(split_on(t, ','));
        if parts.len() == 3 && is_number_text(parts[0]) && is_number_text(parts[1])
            && is_number_text(parts[2]) {
            Ok((parts[0], parts[1], parts[2]))
        } else {
            Err(t)
        }
    }
}

/// The characters of `v` without those `a` or `b` at its ends.
fn strip_pair(v: &[char], a: char, b: char) -> (r: Vec<char>)
    ensures
        r@ == strip2(v@, a, b),
{
    let n = v.len();
    let mut lo: usize = 0;
    assert(v@.skip(0) =~= v@);
    while lo < n && (v[lo] == a || v[lo] == b)
        invariant
            lo <= n == v@.len(),
            strip_start2(v@, a, b) == strip_start2(v@.skip(lo as int), a, b),
        decreases n - lo,
    {
        proof {
            assert(v@.skip(lo as int).drop_first() =~= v@.skip(lo as int + 1));
            assert(v@.skip(lo as int)[0] == v@[lo as int]);
        }
        lo = lo + 1;
    }
    proof {
        if lo < n {
            assert(v@.skip(lo as int)[0] == v@[lo as int]);
        }
        assert(strip_start2(v@, a, b) == v@.skip(lo as int));
        assert(v@.subrange(lo as int, n as int) =~= v@.skip(lo as int));
    }
    let mut hi: usize = n;
    while hi > lo && (v[hi - 1] == a || v[hi - 1] == b)
        invariant
            lo <= hi <= n == v@.len(),
            strip_start2(v@, a, b) == v@.skip(lo as int),
            strip2(v@, a, b) == strip_end2(v@.subrange(lo as int, hi as int), a, b),
        decreases hi - lo,
    {
        proof {
            assert(v@.subrange(lo as int, hi as int).drop_last() =~= v@.subrange(
                lo as int,
                hi - 1,
            ));
            assert(v@.subrange(lo as int, hi as int).last() == v@[hi - 1]);
        }
        hi = hi - 1;
    }
    proof {
        if hi > lo {
            assert(v@.subrange(lo as int, hi as int).last() == v@[hi - 1]);
        }
    }
    slice_chars(v, lo, hi)
}

/// The values of the named form, from its parts.
fn named_values_of(parts: &Vec<Vec<char>>) -> (r: (Vec<char>, Vec<char>, Vec<char>))
    ensures
        (r.0@, r.1@, r.2@) == named_values(views(parts@)),
{
    let mut ren = chars_of("0.0");
    let mut nren = chars_of("0.0");
    let mut co2 = chars_of("0.0");
    let mut i: usize = 0;
    assert(views(parts@).take(0) =~= Seq::<Seq<char>>::empty());
    while i < parts.len()
        invariant
            i <= parts@.len(),
            (ren@, nren@, co2@) == named_values(views(parts@).take(i as int)),
        decreases parts@.len() - i,
    {
        let p = &parts[i];
        let ghost ps = views(parts@).take(i as int + 1);
        proof {
            assert(ps.drop_last() =~= views(parts@).take(i as int));
            assert(ps.last() == p@);
        }
        let k_end = find_char(p.as_slice(), 0, ':');
        proof {
            assert(p@.skip(0) =~= p@);
        }
        if k_end < p.len() {
            let key = trim_chars(slice_chars(p.as_slice(), 0, k_end).as_slice());
            let val = trim_chars(slice_chars(p.as_slice(), k_end + 1, p.len()).as_slice());
            proof {
                assert(p@.skip(k_end as int + 1) =~= p@.subrange(k_end as int + 1, p@.len() as int));
                assert(key_value(p@) == Some((key@, val@)));
            }
            if is_number(val.as_slice()) {
                if chars_eq(key.as_slice(), chars_of("ren").as_slice()) {
                    ren = val;
                } else if chars_eq(key.as_slice(), chars_of("nren").as_slice()) {
                    nren = val;
                } else if chars_eq(key.as_slice(), chars_of("co2").as_slice()) {
                    co2 = val;
                }
            }
        } else {
            proof {
                assert(key_value(p@) is None);
            }
        }
        i = i + 1;
    }
    assert(views(parts@).take(i as int) =~= views(parts@));
    (ren, nren, co2)
}

impl FactorTexts {
    /// Reads the three values from `(a, b, c)`, `a, b, c` or `{ ren: a, nren: b, co2: c }`.
    pub fn from_text(s: &str) -> (r: Result<FactorTexts, EpbdError>)
        ensures
            match triple_parse(s@) {
                Ok((a, b, c)) => r matches Ok(x) && x.ren@ == a && x.nren@ == b && x.co2@ == c,
                Err(m) => is_parse_error(r, m),
            },
    {
        let t0 = trim_chars(chars_of(s).as_slice());
        let t = strip_pair(t0.as_slice(), '(', ')');
        if t.len() > 0 && t[0] == '{' {
            let inner = strip_pair(t.as_slice(), '{', '}');
            let parts = split_chars(inner.as_slice(), ',');
            let (ren, nren, co2) = named_values_of(&parts);
            Ok(
                FactorTexts {
                    ren: string_of(ren.as_slice()),
                    nren: string_of(nren.as_slice()),
                    co2: string_of(co2.as_slice()),
                },
            )
        } else {
            let parts = trim_each(&split_chars(t.as_slice(), ','));
            if parts.len() == 3 && is_number(parts[0].as_slice()) && is_number(
                parts[1].as_slice(),
            ) && is_number(parts[2].as_slice()) {
                Ok(
                    FactorTexts {
                        ren: string_of(parts[0].as_slice()),
                        nren: string_of(parts[1].as_slice()),
                        co2: string_of(parts[2].as_slice()),
                    },
                )
            } else {
                Err(EpbdError::ParseError(string_of(t.as_slice())))
            }
        }
    }
}

impl std::str::FromStr for FactorTexts {
    type Err = EpbdError;

    fn from_str(s: &str) -> (r: Result<FactorTexts, EpbdError>)
        ensures
            match triple_parse(s@) {
                Ok((a, b, c)) => r matches Ok(x) && x.ren@ == a && x.nren@ == b && x.co2@ == c,
                Err(m) => is_parse_error(r, m),
            },
    {
        FactorTexts::from_text(s)
    }
}

} // verus!
