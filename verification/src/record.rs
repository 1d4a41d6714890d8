//! Records of the plain text formats: a line holds fields separated by commas and, after
//! the first `#`, an optional comment. This module reads and writes such lines and the
//! integer ids that they hold.

use vstd::prelude::*;

use crate::text::{
    chars_of, find_char, is_ws, lemma_prefix_until_concat, lemma_trim_skip_ws, lemma_trimmed_ends, prefix_until,
    slice_chars, split_on, string_of, trim, trim_all, trim_chars, trim_end, trim_start,
};

verus! {

broadcast use vstd::string::group_string_axioms;

/// The character sequences of a list of character vectors.
pub open spec fn views(v: Seq<Vec<char>>) -> Seq<Seq<char>> {
    v.map_values(|x: Vec<char>| x@)
}

/// The character sequences of a list of strings.
pub open spec fn texts(v: Seq<String>) -> Seq<Seq<char>> {
    v.map_values(|x: String| x@)
}

/// The part of a record before its comment mark, trimmed.
pub open spec fn head_of(s: Seq<char>) -> Seq<char> {
    trim(prefix_until(trim(s), '#'))
}

/// The comment of a record: what follows its first `#`, trimmed (empty without a `#`).
pub open spec fn comment_of(s: Seq<char>) -> Seq<char> {
    let t = trim(s);
    let p = prefix_until(t, '#');
    if p.len() < t.len() {
        trim(t.skip(p.len() as int + 1))
    } else {
        Seq::<char>::empty()
    }
}

/// The fields of a record: its head split at commas, each trimmed.
pub open spec fn fields_of(s: Seq<char>) -> Seq<Seq<char>> {
    trim_all(split_on(head_of(s), ','))
}

/// `p` joined with `sep` between consecutive elements.
pub open spec fn join(p: Seq<Seq<char>>, sep: Seq<char>) -> Seq<char>
    decreases p.len(),
{
    if p.len() == 0 {
        Seq::<char>::empty()
    } else if p.len() == 1 {
        p[0]
    } else {
        join(p.drop_last(), sep) + sep + p.last()
    }
}

/// A record line: the fields joined with `", "`, then `" # "` and the comment when it is
/// not empty.
pub open spec fn record_text(fields: Seq<Seq<char>>, comment: Seq<char>) -> Seq<char> {
    if comment.len() == 0 {
        join(fields, ", "@)
    } else {
        join(fields, ", "@) + " # "@ + comment
    }
}

/// A field that reads back as itself inside a record: not empty, without surrounding white
/// space, and without the `,` and `#` marks.
pub open spec fn plain_field(f: Seq<char>) -> bool {
    &&& f.len() > 0
    &&& trim(f) == f
    &&& !f.contains(',')
    &&& !f.contains('#')
}

/// Whether `c` is an ASCII decimal digit.
pub open spec fn is_digit(c: char) -> bool {
    '0' <= c <= '9'
}

/// Whether every character of `s` is a digit.
pub open spec fn all_digits(s: Seq<char>) -> bool {
    forall|i: int| 0 <= i < s.len() ==> is_digit(#[trigger] s[i])
}

/// The number that a sequence of digits writes in base ten.
pub open spec fn digits_value(s: Seq<char>) -> nat
    decreases s.len(),
{
    if s.len() == 0 {
        0
    } else {
        digits_value(s.drop_last()) * 10 + ((s.last() as u32) - ('0' as u32)) as nat
    }
}

/// The integer that `s` writes: an optional sign and at least one digit.
pub open spec fn int_of_text(s: Seq<char>) -> Option<int> {
    if s.len() > 1 && s[0] == '-' && all_digits(s.drop_first()) {
        Some(-(digits_value(s.drop_first()) as int))
    } else if s.len() > 1 && s[0] == '+' && all_digits(s.drop_first()) {
        Some(digits_value(s.drop_first()) as int)
    } else if s.len() > 0 && all_digits(s) {
        Some(digits_value(s) as int)
    } else {
        None
    }
}

/// The `i32` that `s` writes, if it writes one in range.
pub open spec fn i32_of_text(s: Seq<char>) -> Option<i32> {
    match int_of_text(s) {
        Some(n) => if i32::MIN <= n <= i32::MAX {
            Some(n as i32)
        } else {
            None
        },
        None => None,
    }
}

/// The digit character for `d < 10`.
pub open spec fn digit_char(d: nat) -> char {
    if d == 0 {
        '0'
    } else if d == 1 {
        '1'
    } else if d == 2 {
        '2'
    } else if d == 3 {
        '3'
    } else if d == 4 {
        '4'
    } else if d == 5 {
        '5'
    } else if d == 6 {
        '6'
    } else if d == 7 {
        '7'
    } else if d == 8 {
        '8'
    } else {
        '9'
    }
}

/// The decimal digits of `n`, without leading zeros.
pub open spec fn nat_text(n: nat) -> Seq<char>
    decreases n,
{
    if n < 10 {
        seq![digit_char(n)]
    } else {
        nat_text(n / 10).push(digit_char(n % 10))
    }
}

/// The decimal text of `i`, with a `-` when it is negative.
pub open spec fn int_text(i: int) -> Seq<char> {
    if i < 0 {
        seq!['-'] + nat_text((-i) as nat)
    } else {
        nat_text(i as nat)
    }
}

/// The characters of each vector, each one trimmed.
pub fn trim_each(v: &Vec<Vec<char>>) -> (r: Vec<Vec<char>>)
    ensures
        views(r@) == trim_all(views(v@)),
{
    let mut r: Vec<Vec<char>> = Vec::new();
    let mut i: usize = 0;
    while i < v.len()
        invariant
            i <= v@.len(),
            r@.len() == i,
            trim_all(views(v@)).len() == v@.len(),
            views(r@) == trim_all(views(v@)).take(i as int),
        decreases v@.len() - i,
    {
        let t = trim_chars(v[i].as_slice());
        let ghost old_r = r@;
        r.push(t);
        proof {
            let w = trim_all(views(v@));
            assert(w[i as int] == trim(v@[i as int]@));
            assert forall|k: int| 0 <= k <= i implies #[trigger] views(r@)[k] == w.take(
                i as int + 1,
            )[k] by {
                if k < i {
                    assert(r@[k] == old_r[k]);
                    assert(views(old_r)[k] == w.take(i as int)[k]);
                }
            }
            assert(views(r@) =~= w.take(i as int + 1));
        }
        i = i + 1;
    }
    assert(trim_all(views(v@)).take(i as int) =~= trim_all(views(v@)));
    r
}

/// The pieces of `v` between the occurrences of `sep`.
pub fn split_chars(v: &[char], sep: char) -> (r: Vec<Vec<char>>)
    ensures
        views(r@) == split_on(v@, sep),
{
    let mut r: Vec<Vec<char>> = Vec::new();
    let mut cur: Vec<char> = Vec::new();
    let mut i: usize = 0;
    assert(v@.take(0) =~= Seq::<char>::empty());
    assert(views(r@).push(cur@) =~= seq![Seq::<char>::empty()]);
    while i < v.len()
        invariant
            i <= v@.len(),
            views(r@).push(cur@) == split_on(v@.take(i as int), sep),
        decreases v@.len() - i,
    {
        let c = v[i];
        let ghost before = views(r@).push(cur@);
        proof {
            assert(v@.take(i as int + 1).drop_last() =~= v@.take(i as int));
            assert(v@.take(i as int + 1).last() == c);
        }
        if c == sep {
            r.push(cur);
            cur = Vec::new();
            assert(views(r@).push(cur@) =~= before.push(Seq::<char>::empty()));
        } else {
            let ghost old_cur = cur@;
            cur.push(c);
            assert(views(r@).push(cur@) =~= before.update(
                before.len() - 1,
                before.last().push(c),
            ));
        }
        i = i + 1;
    }
    assert(v@.take(v@.len() as int) =~= v@);
    r.push(cur);
    r
}

/// The fields and the comment of a record line.
pub fn split_record(s: &str) -> (r: (Vec<Vec<char>>, Vec<char>))
    ensures
        views(r.0@) == fields_of(s@),
        r.1@ == comment_of(s@),
{
    let t = trim_chars(chars_of(s).as_slice());
    let p = find_char(t.as_slice(), 0, '#');
    assert(t@.skip(0) =~= t@);
    let head = trim_chars(slice_chars(t.as_slice(), 0, p).as_slice());
    let comment = if p < t.len() {
        let rest = slice_chars(t.as_slice(), p + 1, t.len());
        assert(rest@ =~= t@.skip(p + 1));
        trim_chars(rest.as_slice())
    } else {
        Vec::new()
    };
    let pieces = split_chars(head.as_slice(), ',');
    (trim_each(&pieces), comment)
}

/// Reads an `i32` written with an optional sign and decimal digits.
pub fn parse_i32(v: &[char]) -> (r: Option<i32>)
    ensures
        r == i32_of_text(v@),
{
    let n = v.len();
    if n == 0 {
        return None;
    }
    let negative = v[0] == '-';
    let start: usize = if v[0] == '-' || v[0] == '+' {
        1
    } else {
        0
    };
    if start == n {
        return None;
    }
    let ghost d = v@.skip(start as int);
    let big: i64 = 2147483649;
    let mut acc: i64 = 0;
    let mut i: usize = start;
    assert(v@.subrange(start as int, start as int) =~= Seq::<char>::empty());
    while i < n
        invariant
            start <= i <= n,
            n == v@.len(),
            start <= 1,
            big == 2147483649,
            negative == (v@[0] == '-'),
            n > 0,
            start == 0 ==> (v@[0] != '-' && v@[0] != '+'),
            start == 1 ==> (v@[0] == '-' || v@[0] == '+'),
            d == v@.skip(start as int),
            all_digits(v@.subrange(start as int, i as int)),
            0 <= acc <= big,
            acc == if digits_value(v@.subrange(start as int, i as int)) < big {
                digits_value(v@.subrange(start as int, i as int)) as int
            } else {
                big as int
            },
        decreases n - i,
    {
        let c = v[i];
        if c < '0' || c > '9' {
            proof {
                assert(v@[i as int] == c);
                assert(!all_digits(v@));
                assert(v@.drop_first() =~= v@.skip(1));
                if start == 1 {
                    assert(d[i - start] == c);
                    assert(!all_digits(v@.drop_first()));
                }
            }
            return None;
        }
        let ghost pre = v@.subrange(start as int, i as int);
        let dv: i64 = ((c as u32) - ('0' as u32)) as i64;
        proof {
            assert(v@.subrange(start as int, i as int + 1).drop_last() =~= pre);
            assert(v@.subrange(start as int, i as int + 1).last() == c);
        }
        let next: i64 = acc * 10 + dv;
        acc = if next < big {
            next
        } else {
            big
        };
        i = i + 1;
        proof {
            let cur = v@.subrange(start as int, i as int);
            assert forall|k: int| 0 <= k < cur.len() implies is_digit(#[trigger] cur[k]) by {
                if k < cur.len() - 1 {
                    assert(cur[k] == pre[k]);
                }
            }
        }
    }
    proof {
        assert(v@.subrange(start as int, n as int) =~= d);
        if start == 1 {
            assert(v@.drop_first() =~= d);
        } else {
            assert(v@ =~= d);
        }
    }
    if negative {
        if acc <= 2147483648 {
            Some((0 - acc) as i32)
        } else {
            None
        }
    } else {
        if acc <= 2147483647 {
            Some(acc as i32)
        } else {
            None
        }
    }
}

/// The digit character for `d < 10`.
fn digit_of(d: u64) -> (c: char)
    requires
        d < 10,
    ensures
        c == digit_char(d as nat),
{
    if d == 0 {
        '0'
    } else if d == 1 {
        '1'
    } else if d == 2 {
        '2'
    } else if d == 3 {
        '3'
    } else if d == 4 {
        '4'
    } else if d == 5 {
        '5'
    } else if d == 6 {
        '6'
    } else if d == 7 {
        '7'
    } else if d == 8 {
        '8'
    } else {
        '9'
    }
}

/// The decimal digits of `n`.
fn nat_chars(n: u64) -> (v: Vec<char>)
    ensures
        v@ == nat_text(n as nat),
    decreases n,
{
    if n < 10 {
        let mut v: Vec<char> = Vec::new();
        v.push(digit_of(n));
        assert(v@ =~= seq![digit_char(n as nat)]);
        v
    } else {
        let mut v = nat_chars(n / 10);
        v.push(digit_of(n % 10));
        v
    }
}

/// The decimal text of an `i32`.
pub fn i32_chars(i: i32) -> (v: Vec<char>)
    ensures
        v@ == int_text(i as int),
{
    if i < 0 {
        let m: u64 = (0 - (i as i64)) as u64;
        let d = nat_chars(m);
        let mut v: Vec<char> = Vec::new();
        v.push('-');
        let mut k: usize = 0;
        while k < d.len()
            invariant
                k <= d@.len(),
                v@ == seq!['-'] + d@.take(k as int),
            decreases d@.len() - k,
        {
            v.push(d[k]);
            k = k + 1;
            assert(v@ =~= seq!['-'] + d@.take(k as int));
        }
        assert(d@.take(d@.len() as int) =~= d@);
        v
    } else {
        nat_chars(i as u64)
    }
}

/// Appends the characters of `w` to `v`.
pub fn append_chars(v: &mut Vec<char>, w: &[char])
    ensures
        final(v)@ == old(v)@ + w@,
{
    let ghost v0 = v@;
    let mut k: usize = 0;
    while k < w.len()
        invariant
            k <= w@.len(),
            v@ == v0 + w@.take(k as int),
        decreases w@.len() - k,
    {
        v.push(w[k]);
        k = k + 1;
        assert(v@ =~= v0 + w@.take(k as int));
    }
    assert(w@.take(w@.len() as int) =~= w@);
}

/// A record line made of the given fields and comment.
pub fn record_line(fields: &Vec<Vec<char>>, comment: &[char]) -> (r: String)
    ensures
        r@ == record_text(views(fields@), comment@),
{
    let mut v: Vec<char> = Vec::new();
    let mut k: usize = 0;
    let sep = chars_of(", ");
    while k < fields.len()
        invariant
            k <= fields@.len(),
            sep@ == ", "@,
            v@ == join(views(fields@).take(k as int), ", "@),
        decreases fields@.len() - k,
    {
        let ghost before = v@;
        if k > 0 {
            append_chars(&mut v, sep.as_slice());
        }
        append_chars(&mut v, fields[k].as_slice());
        proof {
            let p = views(fields@).take(k as int + 1);
            assert(p.drop_last() =~= views(fields@).take(k as int));
            if k == 0 {
                assert(before =~= Seq::<char>::empty());
                assert(v@ =~= p[0]);
            }
        }
        k = k + 1;
    }
    assert(views(fields@).take(fields@.len() as int) =~= views(fields@));
    if comment.len() > 0 {
        append_chars(&mut v, chars_of(" # ").as_slice());
        append_chars(&mut v, comment);
    }
    string_of(v.as_slice())
}

/// The decimal text of a natural number is a non-empty run of digits that writes it.
pub proof fn lemma_nat_text(n: nat)
    ensures
        nat_text(n).len() > 0,
        all_digits(nat_text(n)),
        digits_value(nat_text(n)) == n,
    decreases n,
{
    if n < 10 {
        let t = nat_text(n);
        assert(t.drop_last() =~= Seq::<char>::empty());
        assert(t.last() == digit_char(n));
        assert(digits_value(t.drop_last()) == 0);
        assert(((digit_char(n) as u32) - ('0' as u32)) as nat == n);
        assert(is_digit(t[0]));
    } else {
        lemma_nat_text(n / 10);
        let t = nat_text(n);
        let d = (n % 10) as nat;
        assert(t.drop_last() =~= nat_text(n / 10));
        assert(t.last() == digit_char(d));
        assert(((digit_char(d) as u32) - ('0' as u32)) as nat == d);
        assert forall|k: int| 0 <= k < t.len() implies is_digit(#[trigger] t[k]) by {
            if k < t.len() - 1 {
                assert(t[k] == nat_text(n / 10)[k]);
            }
        }
    }
}

/// Reading the decimal text of an `i32` gives it back.
pub proof fn lemma_i32_text_roundtrip(i: i32)
    ensures
        i32_of_text(int_text(i as int)) == Some(i),
{
    if i < 0 {
        let m = (-i) as nat;
        lemma_nat_text(m);
        let t = int_text(i as int);
        assert(t.drop_first() =~= nat_text(m));
    } else {
        lemma_nat_text(i as nat);
        let t = nat_text(i as nat);
        assert(is_digit(t[0]));
    }
}

/// Splitting at a separator that stands between two texts splits each text apart.
pub proof fn lemma_split_concat(x: Seq<char>, y: Seq<char>, sep: char)
    ensures
        split_on(x + seq![sep] + y, sep) == split_on(x, sep) + split_on(y, sep),
    decreases y.len(),
{
    let xs = x + seq![sep];
    if y.len() == 0 {
        assert(xs + y =~= xs);
        assert(xs.drop_last() =~= x);
        assert(split_on(x, sep).push(Seq::<char>::empty()) =~= split_on(x, sep) + split_on(
            y,
            sep,
        ));
    } else {
        lemma_split_concat(x, y.drop_last(), sep);
        assert((xs + y).drop_last() =~= xs + y.drop_last());
        assert((xs + y).last() == y.last());
        lemma_split_nonempty(y.drop_last(), sep);
        let a = split_on(x, sep);
        let b = split_on(y.drop_last(), sep);
        if y.last() == sep {
            assert((a + b).push(Seq::<char>::empty()) =~= a + b.push(Seq::<char>::empty()));
        } else {
            assert((a + b).update((a + b).len() - 1, (a + b).last().push(y.last())) =~= a
                + b.update(b.len() - 1, b.last().push(y.last())));
        }
    }
}

/// A split always has at least one piece.
pub proof fn lemma_split_nonempty(s: Seq<char>, sep: char)
    ensures
        split_on(s, sep).len() >= 1,
    decreases s.len(),
{
    if s.len() > 0 {
        lemma_split_nonempty(s.drop_last(), sep);
    }
}

/// A text without the separator is a single piece.
pub proof fn lemma_split_none(s: Seq<char>, sep: char)
    requires
        !s.contains(sep),
    ensures
        split_on(s, sep) == seq![s],
    decreases s.len(),
{
    if s.len() > 0 {
        assert(!s.drop_last().contains(sep)) by {
            if s.drop_last().contains(sep) {
                let k = choose|k: int| 0 <= k < s.drop_last().len() && s.drop_last()[k] == sep;
                assert(s[k] == sep);
            }
        }
        lemma_split_none(s.drop_last(), sep);
        assert(s[s.len() - 1] != sep);
        assert(s.drop_last().push(s.last()) =~= s);
        let r = split_on(s.drop_last(), sep);
        assert(r == seq![s.drop_last()]);
        assert(r.len() == 1);
        assert(r.last() == s.drop_last());
        assert(r.update(0, r.last().push(s.last())) =~= seq![s]);
    } else {
        assert(s =~= Seq::<char>::empty());
        assert(seq![Seq::<char>::empty()] =~= seq![s]);
    }
}

/// A text without `c` is its own prefix before `c`.
pub proof fn lemma_prefix_until_none(s: Seq<char>, c: char)
    requires
        !s.contains(c),
    ensures
        prefix_until(s, c) == s,
    decreases s.len(),
{
    if s.len() > 0 {
        assert(s[0] != c);
        assert(!s.drop_first().contains(c)) by {
            if s.drop_first().contains(c) {
                let k = choose|k: int| 0 <= k < s.drop_first().len() && s.drop_first()[k] == c;
                assert(s[k + 1] == c);
            }
        }
        lemma_prefix_until_none(s.drop_first(), c);
        assert(seq![s[0]] + s.drop_first() =~= s);
    }
}

/// Joined fields start with the first field's first character and end with the last
/// field's last character, and hold no character that no field and no separator holds.
pub proof fn lemma_join_shape(p: Seq<Seq<char>>, sep: Seq<char>, c: char)
    requires
        p.len() > 0,
        forall|i: int| 0 <= i < p.len() ==> (#[trigger] p[i]).len() > 0,
        forall|i: int| 0 <= i < p.len() ==> !(#[trigger] p[i]).contains(c),
        !sep.contains(c),
    ensures
        join(p, sep).len() > 0,
        join(p, sep)[0] == p[0][0],
        join(p, sep).last() == p.last().last(),
        !join(p, sep).contains(c),
    decreases p.len(),
{
    if p.len() > 1 {
        let q = p.drop_last();
        assert forall|i: int| 0 <= i < q.len() implies (#[trigger] q[i]).len() > 0 by {
            assert(q[i] == p[i]);
        }
        assert forall|i: int| 0 <= i < q.len() implies !(#[trigger] q[i]).contains(c) by {
            assert(q[i] == p[i]);
        }
        lemma_join_shape(q, sep, c);
        let j = join(p, sep);
        let a = join(q, sep);
        assert(j == a + sep + p.last());
        assert(j[0] == a[0]);
        assert(p.last().len() > 0);
        assert(j.last() == p.last().last());
        assert(!j.contains(c)) by {
            if j.contains(c) {
                let k = choose|k: int| 0 <= k < j.len() && j[k] == c;
                if k < a.len() {
                    assert(a[k] == c);
                } else if k < a.len() + sep.len() {
                    assert(sep[k - a.len()] == c);
                } else {
                    assert(p.last()[k - a.len() - sep.len()] == c);
                    assert(p.last() == p[p.len() - 1]);
                }
            }
        }
    }
}

/// A text that starts and ends with characters that are not white space is trimmed.
pub proof fn lemma_trim_fixed(s: Seq<char>)
    requires
        s.len() > 0,
        !is_ws(s[0]),
        !is_ws(s.last()),
    ensures
        trim(s) == s,
{
    assert(trim_start(s) == s);
}

/// Splitting plain fields joined with `", "` at commas and trimming the pieces gives the
/// fields back.
proof fn lemma_split_join(p: Seq<Seq<char>>)
    requires
        p.len() > 0,
        forall|i: int| 0 <= i < p.len() ==> plain_field(#[trigger] p[i]),
    ensures
        trim_all(split_on(join(p, ", "@), ',')) == p,
    decreases p.len(),
{
    if p.len() == 1 {
        assert(plain_field(p[0]));
        lemma_split_none(p[0], ',');
        assert(trim_all(seq![p[0]]) =~= p);
    } else {
        let q = p.drop_last();
        assert forall|i: int| 0 <= i < q.len() implies plain_field(#[trigger] q[i]) by {
            assert(q[i] == p[i]);
        }
        lemma_split_join(q);
        let last = p.last();
        assert(plain_field(p[p.len() - 1]));
        let tail = seq![' '] + last;
        let jq = join(q, ", "@);
        assert(join(p, ", "@) == jq + ", "@ + last);
        assert(", "@ =~= seq![',', ' ']) by {
            reveal_strlit(", ");
        }
        assert(jq + ", "@ + last =~= jq + seq![','] + tail);
        lemma_split_tail(jq, last);
        assert(q.push(last) =~= p);
    }
}

/// The step of `lemma_split_join`: one more field after a comma and a space.
proof fn lemma_split_tail(jq: Seq<char>, last: Seq<char>)
    requires
        plain_field(last),
    ensures
        trim_all(split_on(jq + seq![','] + (seq![' '] + last), ',')) == trim_all(
            split_on(jq, ','),
        ).push(last),
{
    let tail = seq![' '] + last;
    lemma_split_concat(jq, tail, ',');
    assert(!tail.contains(',')) by {
        if tail.contains(',') {
            let k = choose|k: int| 0 <= k < tail.len() && tail[k] == ',';
            assert(last[k - 1] == ',');
        }
    }
    lemma_split_none(tail, ',');
    lemma_trim_skip_ws(' ', last);
    let a = split_on(jq, ',');
    assert(trim_all(a + seq![tail]) =~= trim_all(a).push(trim(tail)));
}

/// Reading a record line made of plain fields and a trimmed comment gives back its fields
/// and its comment.
pub proof fn lemma_record_roundtrip(fields: Seq<Seq<char>>, comment: Seq<char>)
    requires
        fields.len() > 0,
        forall|i: int| 0 <= i < fields.len() ==> plain_field(#[trigger] fields[i]),
        trim(comment) == comment,
    ensures
        fields_of(record_text(fields, comment)) == fields,
        comment_of(record_text(fields, comment)) == comment,
{
    reveal_strlit(", ");
    reveal_strlit(" # ");
    let j = join(fields, ", "@);
    assert(!", "@.contains('#'));
    assert forall|i: int| 0 <= i < fields.len() implies (#[trigger] fields[i]).len() > 0
        && !fields[i].contains('#') by {
        assert(plain_field(fields[i]));
    }
    lemma_join_shape(fields, ", "@, '#');
    assert(plain_field(fields[0]));
    assert(plain_field(fields[fields.len() - 1]));
    lemma_trimmed_ends(fields[0]);
    lemma_trimmed_ends(fields.last());
    lemma_trim_fixed(j);
    lemma_split_join(fields);
    let t = record_text(fields, comment);
    if comment.len() == 0 {
        assert(t == j);
        lemma_prefix_until_none(j, '#');
    } else {
        lemma_trimmed_ends(comment);
        let a = j + seq![' '];
        let b = seq![' '] + comment;
        assert(t =~= a + seq!['#'] + b);
        assert(t[0] == j[0]);
        assert(t.last() == comment.last());
        lemma_trim_fixed(t);
        assert(!a.contains('#')) by {
            if a.contains('#') {
                let k = choose|k: int| 0 <= k < a.len() && a[k] == '#';
                assert(j[k] == '#');
            }
        }
        lemma_prefix_until_concat(a, '#', b);
        assert(trim_start(a) == a);
        assert(a.drop_last() =~= j);
        assert(trim_end(a) == trim_end(j));
        assert(t.skip(a.len() as int + 1) =~= b);
        lemma_trim_skip_ws(' ', comment);
    }
}

/// The strings of the pieces `v[from..]`.
pub fn strings_from(v: &Vec<Vec<char>>, from: usize) -> (r: Vec<String>)
    requires
        from <= v@.len(),
    ensures
        texts(r@) == views(v@).skip(from as int),
{
    let mut r: Vec<String> = Vec::new();
    let mut k: usize = from;
    while k < v.len()
        invariant
            from <= k <= v@.len(),
            texts(r@) == views(v@).subrange(from as int, k as int),
        decreases v@.len() - k,
    {
        let s = string_of(v[k].as_slice());
        let ghost old_r = r@;
        r.push(s);
        proof {
            lemma_texts_push(old_r, s);
            assert(views(v@).subrange(from as int, k as int + 1) =~= views(v@).subrange(
                from as int,
                k as int,
            ).push(v@[k as int]@));
        }
        k = k + 1;
    }
    assert(views(v@).subrange(from as int, k as int) =~= views(v@).skip(from as int));
    r
}

/// The characters of each string.
pub fn chars_each(v: &Vec<String>) -> (r: Vec<Vec<char>>)
    ensures
        views(r@) == texts(v@),
{
    let mut r: Vec<Vec<char>> = Vec::new();
    let mut k: usize = 0;
    while k < v.len()
        invariant
            k <= v@.len(),
            views(r@) == texts(v@).take(k as int),
        decreases v@.len() - k,
    {
        let c = chars_of(v[k].as_str());
        let ghost old_r = r@;
        r.push(c);
        proof {
            lemma_views_push(old_r, c);
            assert(texts(v@).take(k as int + 1) =~= texts(v@).take(k as int).push(v@[k as int]@));
        }
        k = k + 1;
    }
    assert(texts(v@).take(k as int) =~= texts(v@));
    r
}

/// The views of a list after a push.
pub proof fn lemma_views_push(r: Seq<Vec<char>>, x: Vec<char>)
    ensures
        views(r.push(x)) == views(r).push(x@),
{
    assert(views(r.push(x)) =~= views(r).push(x@));
}

/// The texts of a list after a push.
pub proof fn lemma_texts_push(r: Seq<String>, x: String)
    ensures
        texts(r.push(x)) == texts(r).push(x@),
{
    assert(texts(r.push(x)) =~= texts(r).push(x@));
}

/// The decimal text of an integer reads back as itself inside a record.
pub proof fn lemma_int_text_plain(i: int)
    ensures
        plain_field(int_text(i)),
        int_text(i)[0] == '-' || is_digit(int_text(i)[0]),
        !int_text(i).contains('\n'),
{
    let n: nat = if i < 0 {
        (-i) as nat
    } else {
        i as nat
    };
    lemma_nat_text(n);
    let d = nat_text(n);
    let t = int_text(i);
    assert(forall|k: int| 0 <= k < t.len() ==> t[k] == '-' || is_digit(#[trigger] t[k])) by {
        assert forall|k: int| 0 <= k < t.len() implies t[k] == '-' || is_digit(#[trigger] t[k]) by {
            if i < 0 {
                if k > 0 {
                    assert(t[k] == d[k - 1]);
                }
            } else {
                assert(t[k] == d[k]);
            }
        }
    }
    assert(t.last() == d.last());
    assert(is_digit(d[d.len() - 1]));
    assert(!t.contains(',')) by {
        if t.contains(',') {
            let k = choose|k: int| 0 <= k < t.len() && t[k] == ',';
            assert(t[k] == '-' || is_digit(t[k]));
        }
    }
    assert(!t.contains('#')) by {
        if t.contains('#') {
            let k = choose|k: int| 0 <= k < t.len() && t[k] == '#';
            assert(t[k] == '-' || is_digit(t[k]));
        }
    }
    assert(t[0] == '-' || is_digit(t[0]));
    lemma_trim_fixed(t);
    assert(!t.contains('\n')) by {
        if t.contains('\n') {
            let k = choose|k: int| 0 <= k < t.len() && t[k] == '\n';
            assert(t[k] == '-' || is_digit(t[k]));
        }
    }
}

/// The pieces joined with `sep`.
pub fn join_with(p: &Vec<Vec<char>>, sep: &str) -> (r: Vec<char>)
    ensures
        r@ == join(views(p@), sep@),
{
    let mut v: Vec<char> = Vec::new();
    let mut k: usize = 0;
    let sepv = chars_of(sep);
    while k < p.len()
        invariant
            k <= p@.len(),
            sepv@ == sep@,
            v@ == join(views(p@).take(k as int), sep@),
        decreases p@.len() - k,
    {
        let ghost before = v@;
        if k > 0 {
            append_chars(&mut v, sepv.as_slice());
        }
        append_chars(&mut v, p[k].as_slice());
        proof {
            let q = views(p@).take(k as int + 1);
            assert(q.drop_last() =~= views(p@).take(k as int));
            if k == 0 {
                assert(before =~= Seq::<char>::empty());
                assert(v@ =~= q[0]);
            }
        }
        k = k + 1;
    }
    assert(views(p@).take(p@.len() as int) =~= views(p@));
    v
}

/// The texts concatenated.
pub open spec fn concat_all(p: Seq<Seq<char>>) -> Seq<char>
    decreases p.len(),
{
    if p.len() == 0 {
        Seq::empty()
    } else {
        concat_all(p.drop_last()) + p.last()
    }
}

/// The strings concatenated.
pub fn concat_strings(p: &Vec<&str>) -> (r: String)
    ensures
        r@ == concat_all(p@.map_values(|x: &str| x@)),
{
    let ghost t = p@.map_values(|x: &str| x@);
    let mut v: Vec<char> = Vec::new();
    let mut k: usize = 0;
    while k < p.len()
        invariant
            k <= p@.len(),
            t == p@.map_values(|x: &str| x@),
            v@ == concat_all(t.take(k as int)),
        decreases p@.len() - k,
    {
        append_chars(&mut v, chars_of(p[k]).as_slice());
        assert(t.take(k as int + 1).drop_last() =~= t.take(k as int));
        k = k + 1;
    }
    assert(t.take(k as int) =~= t);
    string_of(v.as_slice())
}

/// A join of two or more pieces is the first piece, the separator and the join of the rest.
pub proof fn lemma_join_front(p: Seq<Seq<char>>, sep: Seq<char>)
    requires
        p.len() >= 2,
    ensures
        join(p, sep) == p[0] + sep + join(p.drop_first(), sep),
    decreases p.len(),
{
    if p.len() == 2 {
        assert(p.drop_last() =~= seq![p[0]]);
        assert(p.drop_first() =~= seq![p[1]]);
        assert(join(p.drop_last(), sep) == p[0]);
        assert(join(p.drop_first(), sep) == p[1]);
        assert(p.last() == p[1]);
        assert(p[0] + sep + p[1] =~= p[0] + sep + p[1]);
    } else {
        let q = p.drop_last();
        lemma_join_front(q, sep);
        assert(q.drop_first() =~= p.drop_first().drop_last());
        assert(p.drop_first().last() == p.last());
        assert(q[0] == p[0]);
        assert(join(p, sep) =~= p[0] + sep + (join(q.drop_first(), sep) + sep + p.last()));
    }
}

/// Pieces without `c`, joined with `c`, split at `c` back into themselves (an empty list
/// gives one empty piece).
pub proof fn lemma_split_join_char(p: Seq<Seq<char>>, c: char)
    requires
        forall|i: int| 0 <= i < p.len() ==> !(#[trigger] p[i]).contains(c),
    ensures
        split_on(join(p, seq![c]), c) == (if p.len() == 0 {
            seq![Seq::<char>::empty()]
        } else {
            p
        }),
    decreases p.len(),
{
    if p.len() == 0 {
        assert(join(p, seq![c]) =~= Seq::<char>::empty());
    } else if p.len() == 1 {
        assert(!p[0].contains(c));
        lemma_split_none(p[0], c);
        assert(seq![p[0]] =~= p);
    } else {
        let q = p.drop_last();
        assert forall|i: int| 0 <= i < q.len() implies !(#[trigger] q[i]).contains(c) by {
            assert(q[i] == p[i]);
        }
        lemma_split_join_char(q, c);
        assert(!p[p.len() - 1].contains(c));
        lemma_split_concat(join(q, seq![c]), p.last(), c);
        lemma_split_none(p.last(), c);
        assert(q + seq![p.last()] =~= p);
    }
}

} // verus!
