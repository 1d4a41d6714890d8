//! Metadata of components and weighting factors, and the lists that hold them.

use vstd::prelude::*;

use crate::error::EpbdError;
use crate::text::{find_char, slice_chars, is_ws, lemma_prefix_until_concat, lemma_trim_skip_ws, lemma_trimmed_ends, trim_end, trim_start, chars_eq, chars_of, concat, prefix_until, push_char, string_of, trim, trim_chars};

verus! {

/// Metadata of components or weighting factors
#[derive(Debug, Clone)]
pub struct Meta {
    /// metadata name.
    pub key: String,
    /// metadata value
    pub value: String,
}

/// Number of bytes of the UTF-8 encoding of a character.
pub open spec fn utf8_width(c: char) -> int {
    let u = c as u32;
    if u < 0x80 {
        1
    } else if u < 0x800 {
        2
    } else if u < 0x10000 {
        3
    } else {
        4
    }
}

/// Whether the first `n` bytes of the UTF-8 encoding of `s` end at a character boundary.
pub open spec fn byte_boundary(s: Seq<char>, n: int) -> bool
    decreases s.len(),
{
    if n == 0 {
        true
    } else if n < 0 || s.len() == 0 {
        false
    } else {
        byte_boundary(s.drop_first(), n - utf8_width(s[0]))
    }
}

/// The characters of `s` that follow its first `n` bytes.
pub open spec fn skip_bytes(s: Seq<char>, n: int) -> Seq<char>
    decreases s.len(),
{
    if n <= 0 || s.len() == 0 {
        s
    } else {
        skip_bytes(s.drop_first(), n - utf8_width(s[0]))
    }
}

/// Keys of an earlier version of the format and the keys that replace them.
pub open spec fn current_key(k: Seq<char>) -> Seq<char> {
    if k == "Localizacion"@ {
        "CTE_LOCALIZACION"@
    } else if k == "Area_ref"@ {
        "CTE_AREAREF"@
    } else if k == "kexp"@ {
        "CTE_KEXP"@
    } else {
        k
    }
}

/// The metadata (key, value) that a line with a metadata marker holds, if it holds one.
///
/// The first five bytes (the marker `#META` or `#CTE_`) are skipped, and the rest is split at
/// its first `:`.
pub open spec fn spec_meta_parse(s: Seq<char>) -> Option<(Seq<char>, Seq<char>)> {
    let rest = skip_bytes(trim(s), 5);
    let first = prefix_until(rest, ':');
    if first.len() < rest.len() {
        Some((current_key(trim(first)), trim(rest.skip(first.len() as int + 1))))
    } else {
        None
    }
}

/// The XML text of a character: markup characters are written as entities.
pub open spec fn xml_escape_char(c: char) -> Seq<char> {
    if c == '&' {
        "&amp;"@
    } else if c == '<' {
        "&lt;"@
    } else if c == '>' {
        "&gt;"@
    } else if c == '\'' {
        "&apos;"@
    } else if c == '"' {
        "&quot;"@
    } else {
        seq![c]
    }
}

/// The XML text of a character sequence.
pub open spec fn xml_escape(s: Seq<char>) -> Seq<char>
    decreases s.len(),
{
    if s.len() == 0 {
        s
    } else {
        xml_escape(s.drop_last()) + xml_escape_char(s.last())
    }
}

/// Escapes the XML markup characters of a text.
pub fn escape_xml(unescaped: &str) -> (r: String)
    ensures
        r@ == xml_escape(unescaped@),
{
    let v = chars_of(unescaped);
    let mut out = String::new();
    let mut i: usize = 0;
    while i < v.len()
        invariant
            i <= v@.len(),
            v@ == unescaped@,
            out@ == xml_escape(v@.take(i as int)),
        decreases v@.len() - i,
    {
        let c = v[i];
        if c == '&' {
            out = concat(out.as_str(), "&amp;");
        } else if c == '<' {
            out = concat(out.as_str(), "&lt;");
        } else if c == '>' {
            out = concat(out.as_str(), "&gt;");
        } else if c == '\'' {
            out = concat(out.as_str(), "&apos;");
        } else if c == '"' {
            out = concat(out.as_str(), "&quot;");
        } else {
            push_char(&mut out, c);
        }
        proof {
            assert(v@.take(i as int + 1).drop_last() =~= v@.take(i as int));
            assert(v@.take(i as int + 1).last() == c);
        }
        i = i + 1;
    }
    assert(v@.take(v@.len() as int) =~= v@);
    out
}

impl Meta {
    /// Metadata constructor
    pub fn new(key: &str, value: &str) -> (r: Meta)
        ensures
            r.key@ == key@,
            r.value@ == value@,
    {
        Meta { key: key.to_owned(), value: value.to_owned() }
    }

    /// Textual representation of metadata: `#META key: value`.
    pub open spec fn spec_text(&self) -> Seq<char> {
        "#META "@ + self.key@ + ": "@ + self.value@
    }

    /// Textual representation of metadata: `#META key: value`.
    pub fn to_text(&self) -> (r: String)
        ensures
            r@ == self.spec_text(),
    {
        let a = concat("#META ", self.key.as_str());
        let b = concat(a.as_str(), ": ");
        concat(b.as_str(), self.value.as_str())
    }

    /// Reads metadata from a line that begins, once trimmed, with a five byte marker
    /// (`#META` or `#CTE_`): the rest is split at the first `:` into key and value, both
    /// trimmed, and keys of an earlier version of the format are renamed.
    pub fn from_text(s: &str) -> (r: Result<Meta, EpbdError>)
        requires
            byte_boundary(trim(s@), 5),
        ensures
            match spec_meta_parse(s@) {
                Some((k, v)) => r matches Ok(m) && m.key@ == k && m.value@ == v,
                None => r matches Err(EpbdError::ParseError(e)) && e@ == s@,
            },
    {
        let all = chars_of(s);
        let t = trim_chars(&all);
        let i = skip_five_bytes(&t);
        let j = find_char(&t, i, ':');
        let ghost rest = t@.skip(i as int);
        let ghost first = t@.subrange(i as int, j as int);
        assert(prefix_until(rest, ':') == first);
        if j < t.len() {
            let key_raw = slice_chars(&t, i, j);
            let key_t = trim_chars(&key_raw);
            let value_raw = slice_chars(&t, j + 1, t.len());
            let value_t = trim_chars(&value_raw);
            assert(value_raw@ =~= rest.skip(first.len() as int + 1));
            let key = current_key_of(&key_t);
            Ok(Meta { key, value: string_of(&value_t) })
        } else {
            assert(first =~= rest);
            Err(EpbdError::ParseError(string_of(&all)))
        }
    }

    /// XML representation of metadata, with markup characters escaped.
    pub open spec fn spec_xml(&self) -> Seq<char> {
        "<Metadato><Clave>"@ + xml_escape(self.key@) + "</Clave><Valor>"@ + xml_escape(
            self.value@,
        ) + "</Valor></Metadato>"@
    }

    /// XML representation of metadata, with markup characters escaped.
    pub fn to_xml(&self) -> (r: String)
        ensures
            r@ == self.spec_xml(),
    {
        let k = escape_xml(self.key.as_str());
        let v = escape_xml(self.value.as_str());
        let a = concat("<Metadato><Clave>", k.as_str());
        let b = concat(a.as_str(), "</Clave><Valor>");
        let c = concat(b.as_str(), v.as_str());
        concat(c.as_str(), "</Valor></Metadato>")
    }
}

/// Whether a metadata key and value are written as the text format reads them back:
/// both trimmed, the key free of `:` and not one of the keys of an earlier version.
pub open spec fn canonical_meta(key: Seq<char>, value: Seq<char>) -> bool {
    &&& trim(key) == key
    &&& !key.contains(':')
    &&& current_key(key) == key
    &&& trim(value) == value
}

pub proof fn lemma_five_ascii(t: Seq<char>)
    requires
        t.len() >= 5,
        forall|k: int| 0 <= k < 5 ==> (t[k] as u32) < 0x80,
    ensures
        byte_boundary(t, 5),
        skip_bytes(t, 5) == t.skip(5),
{
    let t1 = t.drop_first();
    let t2 = t1.drop_first();
    let t3 = t2.drop_first();
    let t4 = t3.drop_first();
    let t5 = t4.drop_first();
    assert(t1[0] == t[1] && t2[0] == t[2] && t3[0] == t[3] && t4[0] == t[4]);
    assert(byte_boundary(t5, 0));
    assert(byte_boundary(t4, 1));
    assert(byte_boundary(t3, 2));
    assert(byte_boundary(t2, 3));
    assert(byte_boundary(t1, 4));
    assert(skip_bytes(t5, 0) == t5);
    assert(skip_bytes(t4, 1) == t5);
    assert(skip_bytes(t3, 2) == t5);
    assert(skip_bytes(t2, 3) == t5);
    assert(skip_bytes(t1, 4) == t5);
    assert(t5 =~= t.skip(5));
}

/// Reading the text of metadata with a canonical key and value gives the metadata back.
pub proof fn lemma_meta_text_roundtrip(m: Meta)
    requires
        canonical_meta(m.key@, m.value@),
    ensures
        byte_boundary(trim(m.spec_text()), 5),
        spec_meta_parse(m.spec_text()) == Some((m.key@, m.value@)),
        trim(m.spec_text()).len() >= 5,
        trim(m.spec_text()).take(5) == "#META"@,
{
    reveal_strlit("#META");
    reveal_strlit("#META ");
    reveal_strlit(": ");
    let key = m.key@;
    let value = m.value@;
    let head: Seq<char> = seq!['#', 'M', 'E', 'T', 'A', ' '];
    assert("#META "@ =~= head);
    assert(": "@ =~= seq![':', ' ']);
    let text = m.spec_text();
    // the trimmed text
    let tail: Seq<char> = if value.len() > 0 {
        seq![' '] + value
    } else {
        Seq::<char>::empty()
    };
    let tt = head + key + seq![':'] + tail;
    assert(text[0] == '#');
    assert(trim_start(text) == text);
    if value.len() > 0 {
        lemma_trimmed_ends(value);
        assert(text =~= tt);
        assert(text.last() == value.last());
        assert(trim_end(text) == text);
    } else {
        assert(text =~= tt + seq![' ']);
        assert(text.drop_last() =~= tt);
        assert(is_ws(text.last()));
        assert(tt.last() == ':');
        assert(trim_end(tt) == tt);
        assert(trim_end(text) == tt);
    }
    assert(trim(text) == tt);
    assert(tt[0] == '#' && tt[1] == 'M' && tt[2] == 'E' && tt[3] == 'T' && tt[4] == 'A');
    assert(tt.take(5) =~= "#META"@);
    lemma_five_ascii(tt);
    let rest = tt.skip(5);
    assert(rest =~= (seq![' '] + key) + seq![':'] + tail);
    assert(!(seq![' '] + key).contains(':')) by {
        if (seq![' '] + key).contains(':') {
            let k = choose|k: int| 0 <= k < (seq![' '] + key).len() && (seq![' '] + key)[k]
                == ':';
            assert(key[k - 1] == ':');
        }
    }
    lemma_prefix_until_concat(seq![' '] + key, ':', tail);
    let first = seq![' '] + key;
    assert(prefix_until(rest, ':') == first);
    lemma_trim_skip_ws(' ', key);
    assert(rest.skip(first.len() as int + 1) =~= tail);
    if value.len() > 0 {
        lemma_trim_skip_ws(' ', value);
    } else {
        assert(trim(tail) =~= value);
    }
}

/// Number of bytes of the UTF-8 encoding of a character.
pub fn utf8_len(c: char) -> (r: usize)
    ensures
        r == utf8_width(c),
{
    let u = c as u32;
    if u < 0x80 {
        1
    } else if u < 0x800 {
        2
    } else if u < 0x10000 {
        3
    } else {
        4
    }
}

proof fn lemma_skip_step(s: Seq<char>, n: int)
    requires
        n > 0,
        byte_boundary(s, n),
    ensures
        s.len() > 0,
        n - utf8_width(s[0]) >= 0,
        byte_boundary(s.drop_first(), n - utf8_width(s[0])),
        skip_bytes(s, n) == skip_bytes(s.drop_first(), n - utf8_width(s[0])),
{
    if n - utf8_width(s[0]) < 0 {
        let d = s.drop_first();
        assert(!byte_boundary(d, n - utf8_width(s[0])));
    }
}

/// The index of the first character after the first five bytes of `t`.
fn skip_five_bytes(t: &[char]) -> (i: usize)
    requires
        byte_boundary(t@, 5),
    ensures
        i <= t@.len(),
        t@.skip(i as int) == skip_bytes(t@, 5),
{
    let mut i: usize = 0;
    let mut rem: usize = 5;
    assert(t@.skip(0) =~= t@);
    while rem > 0
        invariant
            i <= t@.len(),
            rem <= 5,
            byte_boundary(t@.skip(i as int), rem as int),
            skip_bytes(t@, 5) == skip_bytes(t@.skip(i as int), rem as int),
        decreases rem,
    {
        proof {
            lemma_skip_step(t@.skip(i as int), rem as int);
            assert(t@.skip(i as int).drop_first() =~= t@.skip(i as int + 1));
            assert(t@.skip(i as int)[0] == t@[i as int]);
        }
        let w = utf8_len(t[i]);
        rem = rem - w;
        i = i + 1;
    }
    i
}

/// The current name of a metadata key, as a string.
fn current_key_of(k: &[char]) -> (r: String)
    ensures
        r@ == current_key(k@),
{
    if chars_eq(k, &chars_of("Localizacion")) {
        string_of(&chars_of("CTE_LOCALIZACION"))
    } else if chars_eq(k, &chars_of("Area_ref")) {
        string_of(&chars_of("CTE_AREAREF"))
    } else if chars_eq(k, &chars_of("kexp")) {
        string_of(&chars_of("CTE_KEXP"))
    } else {
        string_of(k)
    }
}

} // verus!
