//! Text helpers over character sequences: the trimming, splitting and line
//! handling that the plain text formats of components and weighting factors use.

use vstd::prelude::*;
use vstd::std_specs::iter::IteratorSpec;

verus! {

broadcast use vstd::string::group_string_axioms;

/// Characters with the Unicode `White_Space` property.
pub open spec fn is_ws(c: char) -> bool {
    let u = c as u32;
    ||| 0x09 <= u <= 0x0D
    ||| u == 0x20
    ||| u == 0x85
    ||| u == 0xA0
    ||| u == 0x1680
    ||| 0x2000 <= u <= 0x200A
    ||| u == 0x2028
    ||| u == 0x2029
    ||| u == 0x202F
    ||| u == 0x205F
    ||| u == 0x3000
}

/// Leading white space removed.
pub open spec fn trim_start(s: Seq<char>) -> Seq<char>
    decreases s.len(),
{
    if s.len() > 0 && is_ws(s[0]) {
        trim_start(s.drop_first())
    } else {
        s
    }
}

/// Trailing white space removed.
pub open spec fn trim_end(s: Seq<char>) -> Seq<char>
    decreases s.len(),
{
    if s.len() > 0 && is_ws(s.last()) {
        trim_end(s.drop_last())
    } else {
        s
    }
}

/// Leading and trailing white space removed.
pub open spec fn trim(s: Seq<char>) -> Seq<char> {
    trim_end(trim_start(s))
}

/// The pieces of `s` between the occurrences of `sep`, in order (always at least one).
pub open spec fn split_on(s: Seq<char>, sep: char) -> Seq<Seq<char>>
    decreases s.len(),
{
    if s.len() == 0 {
        seq![Seq::<char>::empty()]
    } else {
        let r = split_on(s.drop_last(), sep);
        if s.last() == sep {
            r.push(Seq::<char>::empty())
        } else {
            r.update(r.len() - 1, r.last().push(s.last()))
        }
    }
}

/// The longest prefix of `s` that does not hold `c`.
pub open spec fn prefix_until(s: Seq<char>, c: char) -> Seq<char>
    decreases s.len(),
{
    if s.len() == 0 {
        s
    } else if s[0] == c {
        Seq::<char>::empty()
    } else {
        seq![s[0]] + prefix_until(s.drop_first(), c)
    }
}

/// Every element of `s` with white space trimmed.
pub open spec fn trim_all(s: Seq<Seq<char>>) -> Seq<Seq<char>> {
    s.map_values(|p: Seq<char>| trim(p))
}

/// The lines of `s`: split at `'\n'`, where a final line ending adds no empty line.
pub open spec fn lines_of(s: Seq<char>) -> Seq<Seq<char>> {
    let r = split_on(s, '\n');
    if r.last().len() == 0 {
        r.drop_last()
    } else {
        r
    }
}

/// Trimming never adds characters.
pub proof fn lemma_trim_len(s: Seq<char>)
    ensures
        trim_start(s).len() <= s.len(),
        trim_end(s).len() <= s.len(),
        trim(s).len() <= s.len(),
    decreases s.len(),
{
    if s.len() > 0 {
        lemma_trim_len(s.drop_first());
        lemma_trim_len(s.drop_last());
    }
    lemma_trim_len_end(trim_start(s));
}

proof fn lemma_trim_len_end(s: Seq<char>)
    ensures
        trim_end(s).len() <= s.len(),
    decreases s.len(),
{
    if s.len() > 0 {
        lemma_trim_len_end(s.drop_last());
    }
}

/// A trimmed non-empty sequence neither begins nor ends with white space.
pub proof fn lemma_trimmed_ends(x: Seq<char>)
    requires
        trim(x) == x,
        x.len() > 0,
    ensures
        !is_ws(x[0]),
        !is_ws(x.last()),
{
    lemma_trim_len(x);
    if is_ws(x[0]) {
        lemma_trim_len(x.drop_first());
        lemma_trim_len_end(trim_start(x));
        assert(trim_start(x) == trim_start(x.drop_first()));
        assert(false);
    }
    assert(trim_start(x) == x);
    if is_ws(x.last()) {
        lemma_trim_len_end(x.drop_last());
        assert(false);
    }
}

/// Leading white space does not change the trimmed text.
pub proof fn lemma_trim_skip_ws(c: char, x: Seq<char>)
    requires
        is_ws(c),
    ensures
        trim(seq![c] + x) == trim(x),
{
    assert((seq![c] + x).drop_first() =~= x);
}

/// The prefix before the first `c` of a text `a + [c] + b` where `a` has no `c` is `a`.
pub proof fn lemma_prefix_until_concat(a: Seq<char>, c: char, b: Seq<char>)
    requires
        !a.contains(c),
    ensures
        prefix_until(a + seq![c] + b, c) == a,
    decreases a.len(),
{
    let s = a + seq![c] + b;
    if a.len() == 0 {
        assert(s[0] == c);
    } else {
        assert(s[0] == a[0]);
        assert(s.drop_first() =~= a.drop_first() + seq![c] + b);
        assert(!a.drop_first().contains(c)) by {
            if a.drop_first().contains(c) {
                let k = choose|k: int| 0 <= k < a.drop_first().len() && a.drop_first()[k] == c;
                assert(a[k + 1] == c);
            }
        }
        lemma_prefix_until_concat(a.drop_first(), c, b);
        assert(seq![a[0]] + a.drop_first() =~= a);
    }
}

/// The characters of a string slice, in order.
pub fn chars_of(s: &str) -> (v: Vec<char>)
    ensures
        v@ == s@,
{
    let mut v: Vec<char> = Vec::new();
    let mut it = s.chars();
    loop
        invariant
            v@ + it.remaining() == s@,
            it.decrease() is Some,
        ensures
            v@ == s@,
        decreases it.decrease()->0,
    {
        match it.next() {
            Some(c) => {
                v.push(c);
            },
            None => {
                break;
            },
        }
    }
    v
}

/// Appends one character to a string.
///
/// Calls `String::push`, which std documents as appending the given `char` to the end of
/// the string; the contract states exactly that.
#[verifier::external_body]
pub(crate) fn push_char(s: &mut String, c: char)
    ensures
        final(s)@ == old(s)@.push(c),
{
    s.push(c);
}

/// A string holding the given characters.
pub fn string_of(v: &[char]) -> (s: String)
    ensures
        s@ == v@,
{
    let mut s = String::new();
    let mut i: usize = 0;
    while i < v.len()
        invariant
            i <= v@.len(),
            s@ == v@.take(i as int),
        decreases v@.len() - i,
    {
        push_char(&mut s, v[i]);
        i = i + 1;
        assert(s@ =~= v@.take(i as int));
    }
    assert(v@.take(v@.len() as int) =~= v@);
    s
}

/// Whether `c` has the Unicode `White_Space` property.
pub fn is_white_space(c: char) -> (r: bool)
    ensures
        r == is_ws(c),
{
    let u = c as u32;
    (0x09 <= u && u <= 0x0D) || u == 0x20 || u == 0x85 || u == 0xA0 || u == 0x1680 || (0x2000
        <= u && u <= 0x200A) || u == 0x2028 || u == 0x2029 || u == 0x202F || u == 0x205F || u
        == 0x3000
}

proof fn lemma_trim_start_skip(s: Seq<char>, i: int)
    requires
        0 <= i < s.len(),
        is_ws(s[i]),
    ensures
        trim_start(s.skip(i)) == trim_start(s.skip(i + 1)),
{
    assert(s.skip(i).drop_first() =~= s.skip(i + 1));
}

proof fn lemma_trim_end_take(s: Seq<char>, j: int)
    requires
        0 < j <= s.len(),
        is_ws(s[j - 1]),
    ensures
        trim_end(s.take(j)) == trim_end(s.take(j - 1)),
{
    assert(s.take(j).drop_last() =~= s.take(j - 1));
}

/// The characters of `v` with leading and trailing white space removed.
pub fn trim_chars(v: &[char]) -> (r: Vec<char>)
    ensures
        r@ == trim(v@),
{
    let n = v.len();
    let mut lo: usize = 0;
    assert(v@.skip(0) =~= v@);
    while lo < n && is_white_space(v[lo])
        invariant
            lo <= n,
            n == v@.len(),
            trim_start(v@) == trim_start(v@.skip(lo as int)),
        decreases n - lo,
    {
        proof {
            lemma_trim_start_skip(v@, lo as int);
        }
        lo = lo + 1;
    }
    // trim_start(v) == v.skip(lo)
    let ghost ts = v@.skip(lo as int);
    assert(trim_start(v@) == ts);
    let mut hi: usize = n;
    assert(ts.take((n - lo) as int) =~= ts);
    while hi > lo && is_white_space(v[hi - 1])
        invariant
            lo <= hi <= n,
            n == v@.len(),
            ts == v@.skip(lo as int),
            trim_end(ts) == trim_end(ts.take(hi - lo)),
        decreases hi,
    {
        proof {
            lemma_trim_end_take(ts, (hi - lo) as int);
        }
        hi = hi - 1;
    }
    assert(trim_end(ts) == ts.take(hi - lo));
    let mut r: Vec<char> = Vec::new();
    let mut k: usize = lo;
    while k < hi
        invariant
            lo <= k <= hi <= n,
            n == v@.len(),
            r@ == v@.subrange(lo as int, k as int),
        decreases hi - k,
    {
        r.push(v[k]);
        k = k + 1;
        assert(r@ =~= v@.subrange(lo as int, k as int));
    }
    assert(r@ =~= ts.take(hi - lo));
    r
}

/// Whether two string slices hold the same characters.
pub fn str_eq(a: &str, b: &str) -> (r: bool)
    ensures
        r == (a@ == b@),
{
    let x = chars_of(a);
    let y = chars_of(b);
    chars_eq(&x, &y)
}

/// Whether two character slices are equal.
pub fn chars_eq(x: &[char], y: &[char]) -> (r: bool)
    ensures
        r == (x@ == y@),
{
    if x.len() != y.len() {
        return false;
    }
    let mut i: usize = 0;
    while i < x.len()
        invariant
            i <= x@.len(),
            x@.len() == y@.len(),
            x@.take(i as int) == y@.take(i as int),
        decreases x@.len() - i,
    {
        if x[i] != y[i] {
            assert(x@.take(i as int + 1)[i as int] != y@.take(i as int + 1)[i as int]);
            assert(x@[i as int] != y@[i as int]);
            return false;
        }
        i = i + 1;
        assert(x@.take(i as int) =~= y@.take(i as int)) by {
            assert(x@.take(i as int - 1) == y@.take(i as int - 1));
            assert forall|k: int| 0 <= k < i implies x@.take(i as int)[k] == y@.take(i as int)[k] by {
                if k < i - 1 {
                    assert(x@.take(i as int - 1)[k] == y@.take(i as int - 1)[k]);
                }
            }
        }
    }
    assert(x@ =~= x@.take(x@.len() as int));
    assert(y@ =~= y@.take(y@.len() as int));
    true
}

/// Whether the characters `v` begin with the characters of `prefix`.
pub fn starts_with_chars(v: &[char], prefix: &str) -> (r: bool)
    ensures
        r == (prefix@.len() <= v@.len() && v@.take(prefix@.len() as int) == prefix@),
{
    let p = chars_of(prefix);
    if p.len() > v.len() {
        return false;
    }
    let mut i: usize = 0;
    while i < p.len()
        invariant
            i <= p@.len() <= v@.len(),
            p@ == prefix@,
            v@.take(i as int) == p@.take(i as int),
        decreases p@.len() - i,
    {
        if v[i] != p[i] {
            assert(v@.take(p@.len() as int)[i as int] != p@[i as int]);
            return false;
        }
        i = i + 1;
        assert(v@.take(i as int) =~= p@.take(i as int)) by {
            assert forall|k: int| 0 <= k < i implies v@.take(i as int)[k] == p@.take(i as int)[k] by {
                if k < i - 1 {
                    assert(v@.take(i as int - 1)[k] == p@.take(i as int - 1)[k]);
                }
            }
        }
    }
    assert(p@.take(p@.len() as int) =~= p@);
    true
}

/// The characters of `a` followed by those of `b`.
pub fn concat(a: &str, b: &str) -> (s: String)
    ensures
        s@ == a@ + b@,
{
    let mut v = chars_of(a);
    let w = chars_of(b);
    let ghost v0 = v@;
    let mut i: usize = 0;
    while i < w.len()
        invariant
            i <= w@.len(),
            v@ == v0 + w@.take(i as int),
        decreases w@.len() - i,
    {
        v.push(w[i]);
        i = i + 1;
        assert(v@ =~= v0 + w@.take(i as int));
    }
    assert(w@.take(w@.len() as int) =~= w@);
    string_of(&v)
}

/// The index of the first `c` in `t` at or after `from` (the length of `t` if none).
pub fn find_char(t: &[char], from: usize, c: char) -> (j: usize)
    requires
        from <= t@.len(),
    ensures
        from <= j <= t@.len(),
        prefix_until(t@.skip(from as int), c) == t@.subrange(from as int, j as int),
        j < t@.len() ==> t@[j as int] == c,
{
    let mut j: usize = from;
    assert(t@.subrange(from as int, from as int) =~= Seq::<char>::empty());
    while j < t.len() && t[j] != c
        invariant
            from <= j <= t@.len(),
            prefix_until(t@.skip(from as int), c) == t@.subrange(from as int, j as int)
                + prefix_until(t@.skip(j as int), c),
        decreases t@.len() - j,
    {
        proof {
            assert(t@.skip(j as int).drop_first() =~= t@.skip(j as int + 1));
            assert(t@.subrange(from as int, j as int + 1) =~= t@.subrange(from as int, j as int)
                + seq![t@[j as int]]);
            assert(t@.skip(j as int)[0] == t@[j as int]);
        }
        j = j + 1;
    }
    proof {
        assert(prefix_until(t@.skip(j as int), c) =~= Seq::<char>::empty());
    }
    assert(t@.subrange(from as int, j as int) + Seq::<char>::empty() =~= t@.subrange(
        from as int,
        j as int,
    ));
    j
}

/// The characters `v[from..to]`.
pub fn slice_chars(v: &[char], from: usize, to: usize) -> (r: Vec<char>)
    requires
        from <= to <= v@.len(),
    ensures
        r@ == v@.subrange(from as int, to as int),
{
    let mut r: Vec<char> = Vec::new();
    let mut k = from;
    while k < to
        invariant
            from <= k <= to <= v@.len(),
            r@ == v@.subrange(from as int, k as int),
        decreases to - k,
    {
        r.push(v[k]);
        k = k + 1;
        assert(r@ =~= v@.subrange(from as int, k as int));
    }
    r
}

/// After leading white space is removed, the first character (if any) is not white space.
proof fn lemma_trim_start_first(s: Seq<char>)
    ensures
        trim_start(s).len() > 0 ==> !is_ws(trim_start(s)[0]),
    decreases s.len(),
{
    if s.len() > 0 && is_ws(s[0]) {
        lemma_trim_start_first(s.drop_first());
    }
}

/// Removing trailing white space keeps a prefix: the first character stays when some
/// character is left.
pub proof fn lemma_trim_end_prefix(s: Seq<char>)
    ensures
        trim_end(s).len() <= s.len(),
        trim_end(s) == s.take(trim_end(s).len() as int),
        trim_end(s).len() > 0 ==> !is_ws(trim_end(s).last()),
    decreases s.len(),
{
    if s.len() > 0 && is_ws(s.last()) {
        lemma_trim_end_prefix(s.drop_last());
        assert(s.drop_last().take(trim_end(s).len() as int) =~= s.take(trim_end(s).len() as int));
    } else {
        assert(s.take(s.len() as int) =~= s);
    }
}

/// Trimming a trimmed text changes nothing.
pub proof fn lemma_trim_idempotent(s: Seq<char>)
    ensures
        trim(trim(s)) == trim(s),
{
    let a = trim_start(s);
    let t = trim_end(a);
    lemma_trim_start_first(s);
    lemma_trim_end_prefix(a);
    if t.len() > 0 {
        assert(t[0] == a[0]);
        assert(trim_start(t) == t);
        assert(trim_end(t) == t);
    } else {
        assert(trim_start(t) == t);
        assert(trim_end(t) == t);
    }
}

} // verus!
