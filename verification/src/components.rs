//! Lists of energy components with their metadata, the energy needs of the building and of
//! its zones: their text format and the rules that complete and select components.
//!
//! ```text
//! #META CTE_AREAREF: 100.5
//! 0, CONSUMO, CAL, ELECTRICIDAD, 16.39, 13.11, 8.20
//! 0, PRODUCCION, EL_INSITU, 8.20, 6.56, 4.10
//! ```

use vstd::prelude::*;

use crate::error::{is_parse_error, EpbdError};
use crate::record::{append_chars, fields_of, join, lemma_split_nonempty, split_chars, trim_each, views};
use crate::text::{
    chars_eq, chars_of, concat, find_char, lemma_trim_idempotent, lines_of, prefix_until,
    slice_chars, starts_with_chars, string_of, trim, trim_all, trim_chars,
};
use crate::types::energy::{
    aux_error, aux_read, id_base, out_error, out_read, prod_error, prod_read, used_error,
    used_read, EAux, EOut, EProd, EUsed, Energy,
};
use crate::types::meta::{byte_boundary, lemma_five_ascii, spec_meta_parse};
use crate::types::metavec::metas_view;
use crate::types::needs::{
    building_error, building_read, zone_error, zone_read, BuildingNeeds, ZoneNeeds,
};
use crate::types::{Carrier, Meta, MetaVec, ProdSource, Service};

verus! {

broadcast use vstd::string::group_string_axioms;

/// Energy components with their metadata, and the energy needs of the building and of its
/// zones.
#[derive(Debug, Clone)]
pub struct Components<T> {
    /// Metadata
    pub cmeta: Vec<Meta>,
    /// Used, produced, auxiliary and delivered energy
    pub cdata: Vec<Energy<T>>,
    /// Energy needs of the building
    pub building: Vec<BuildingNeeds<T>>,
    /// Energy needs of the zones
    pub zones: Vec<ZoneNeeds<T>>,
}

// ------------------------------------------------------------ the text format

/// The text without its leading byte order mark, if it has one.
pub open spec fn strip_bom(s: Seq<char>) -> Seq<char> {
    if s.len() > 0 && s[0] == '\u{feff}' {
        s.drop_first()
    } else {
        s
    }
}

/// The lines of a text, trimmed.
pub open spec fn text_lines(s: Seq<char>) -> Seq<Seq<char>> {
    trim_all(lines_of(strip_bom(s)))
}

/// Whether `l` begins with `p`.
pub open spec fn begins_with(l: Seq<char>, p: Seq<char>) -> bool {
    p.len() <= l.len() && l.take(p.len() as int) == p
}

/// A metadata line: it begins with `#META` or `#CTE_`.
pub open spec fn is_meta_line(l: Seq<char>) -> bool {
    begins_with(l, "#META"@) || begins_with(l, "#CTE_"@)
}

/// A data line: not empty, not a comment and not a header line (`vector,`).
pub open spec fn is_data_line(l: Seq<char>) -> bool {
    !(begins_with(l, "#"@) || begins_with(l, "vector,"@) || l.len() == 0)
}

/// What the metadata lines among `ls` read as, in order, or the first of them that reads
/// as no metadata.
pub open spec fn read_metas(ls: Seq<Seq<char>>) -> Result<Seq<(Seq<char>, Seq<char>)>, Seq<char>>
    decreases ls.len(),
{
    if ls.len() == 0 {
        Ok(Seq::empty())
    } else {
        match read_metas(ls.drop_last()) {
            Err(m) => Err(m),
            Ok(p) => if is_meta_line(ls.last()) {
                match spec_meta_parse(ls.last()) {
                    Some(kv) => Ok(p.push(kv)),
                    None => Err(ls.last()),
                }
            } else {
                Ok(p)
            },
        }
    }
}

/// The first comma separated piece of a line, trimmed.
pub open spec fn first_tag(l: Seq<char>) -> Seq<char> {
    trim(prefix_until(l, ','))
}

/// The second comma separated piece of a line, trimmed (empty if there is none).
pub open spec fn second_tag(l: Seq<char>) -> Seq<char> {
    let p = prefix_until(l, ',');
    if p.len() < l.len() {
        trim(prefix_until(l.skip(p.len() as int + 1), ','))
    } else {
        Seq::<char>::empty()
    }
}

/// The tags that name the kind of a data line.
pub open spec fn is_kind_tag(t: Seq<char>) -> bool {
    ||| t == "CONSUMO"@
    ||| t == "PRODUCCION"@
    ||| t == "AUX"@
    ||| t == "SALIDA"@
    ||| t == "EDIFICIO"@
    ||| t == "ZONA"@
    ||| t == "SISTEMA"@
}

/// The kind of a data line: its first piece when that names a kind, else its second piece.
pub open spec fn line_tag(l: Seq<char>) -> Seq<char> {
    if is_kind_tag(first_tag(l)) {
        first_tag(l)
    } else {
        second_tag(l)
    }
}

/// The tags of energy components.
pub open spec fn is_energy_tag(t: Seq<char>) -> bool {
    t == "CONSUMO"@ || t == "PRODUCCION"@ || t == "AUX"@ || t == "SALIDA"@
}

/// A data line of system data, which is not supported.
pub open spec fn is_system_line(l: Seq<char>) -> bool {
    line_tag(l) == "SISTEMA"@
}

/// The detail of the error that a data line (other than a system line) gives, if any.
pub open spec fn data_line_error(l: Seq<char>) -> Option<Seq<char>> {
    let t = line_tag(l);
    if t == "CONSUMO"@ {
        used_error(l)
    } else if t == "PRODUCCION"@ {
        prod_error(l)
    } else if t == "AUX"@ {
        aux_error(l)
    } else if t == "SALIDA"@ {
        out_error(l)
    } else if t == "EDIFICIO"@ {
        building_error(l)
    } else if t == "ZONA"@ {
        zone_error(l)
    } else {
        Some("ERROR: No se reconoce el componente de la línea: "@ + l + " "@ + t)
    }
}

/// A data line that stops the reading: a system line or a line with an error.
pub open spec fn is_problem(l: Seq<char>) -> bool {
    is_data_line(l) && (is_system_line(l) || data_line_error(l) is Some)
}

/// The position of the first line that stops the reading (the number of lines if none).
pub open spec fn first_problem(ls: Seq<Seq<char>>) -> int
    decreases ls.len(),
{
    if ls.len() == 0 {
        0
    } else if is_problem(ls[0]) {
        0
    } else {
        1 + first_problem(ls.drop_first())
    }
}

/// The data lines of `ls` whose tag satisfies `p`, in order.
pub open spec fn tagged_lines(ls: Seq<Seq<char>>, p: spec_fn(Seq<char>) -> bool) -> Seq<
    Seq<char>,
>
    decreases ls.len(),
{
    if ls.len() == 0 {
        ls
    } else {
        let r = tagged_lines(ls.drop_last(), p);
        if is_data_line(ls.last()) && p(line_tag(ls.last())) {
            r.push(ls.last())
        } else {
            r
        }
    }
}

/// The energy component lines of `ls`.
pub open spec fn energy_lines(ls: Seq<Seq<char>>) -> Seq<Seq<char>> {
    tagged_lines(ls, |t: Seq<char>| is_energy_tag(t))
}

/// The building needs lines of `ls`.
pub open spec fn building_lines(ls: Seq<Seq<char>>) -> Seq<Seq<char>> {
    tagged_lines(ls, |t: Seq<char>| t == "EDIFICIO"@)
}

/// The zone needs lines of `ls`.
pub open spec fn zone_lines(ls: Seq<Seq<char>>) -> Seq<Seq<char>> {
    tagged_lines(ls, |t: Seq<char>| t == "ZONA"@)
}

/// Whether `e` is what the energy line `l` reads as.
pub open spec fn energy_read(e: Energy<String>, l: Seq<char>) -> bool {
    let t = line_tag(l);
    if t == "CONSUMO"@ {
        e matches Energy::Used(x) && used_read(x, l)
    } else if t == "PRODUCCION"@ {
        e matches Energy::Prod(x) && prod_read(x, l)
    } else if t == "AUX"@ {
        e matches Energy::Aux(x) && aux_read(x, l)
    } else {
        e matches Energy::Out(x) && out_read(x, l)
    }
}

/// The number of values of an energy line.
pub open spec fn energy_steps(l: Seq<char>) -> int {
    let f = fields_of(l);
    let b = id_base(f);
    let t = line_tag(l);
    if t == "CONSUMO"@ {
        f.len() - b - 3
    } else if t == "PRODUCCION"@ {
        f.len() - b - 2
    } else if t == "AUX"@ {
        f.len() - b - 1
    } else {
        f.len() - b - 2
    }
}

/// Whether all the energy lines have as many values as the first one.
pub open spec fn same_steps(ls: Seq<Seq<char>>) -> bool {
    forall|i: int| 0 <= i < ls.len() ==> energy_steps(#[trigger] ls[i]) == energy_steps(ls[0])
}

/// Whether reading `s` reaches a line of system data, which is not supported.
pub open spec fn components_stop_at_system(s: Seq<char>) -> bool {
    let ls = text_lines(s);
    &&& read_metas(ls) is Ok
    &&& first_problem(ls) < ls.len()
    &&& is_system_line(ls[first_problem(ls)])
}

/// The detail of the error that reading `s` as components gives, if it gives one: the first
/// metadata line that holds no metadata, else the first data line with an error, else a
/// different number of values among the energy components.
pub open spec fn components_error(s: Seq<char>) -> Option<Seq<char>> {
    let ls = text_lines(s);
    match read_metas(ls) {
        Err(m) => Some(m),
        Ok(_) => if first_problem(ls) < ls.len() {
            data_line_error(ls[first_problem(ls)])
        } else if !same_steps(energy_lines(ls)) {
            Some("Componentes con distinto número de pasos de cálculo"@)
        } else {
            None
        },
    }
}

/// Whether `c` is what the text `s` reads as: its metadata lines, then its energy, building
/// needs and zone needs lines, each in order.
pub open spec fn components_read(c: Components<String>, s: Seq<char>) -> bool {
    let ls = text_lines(s);
    &&& read_metas(ls) == Ok::<_, Seq<char>>(metas_view(c.cmeta@))
    &&& c.cdata@.len() == energy_lines(ls).len()
    &&& forall|k: int|
        0 <= k < c.cdata@.len() ==> energy_read(#[trigger] c.cdata@[k], energy_lines(ls)[k])
    &&& c.building@.len() == building_lines(ls).len()
    &&& forall|k: int|
        0 <= k < c.building@.len() ==> building_read(
            #[trigger] c.building@[k],
            building_lines(ls)[k],
        )
    &&& c.zones@.len() == zone_lines(ls).len()
    &&& forall|k: int|
        0 <= k < c.zones@.len() ==> zone_read(#[trigger] c.zones@[k], zone_lines(ls)[k])
}

/// The trimmed lines of a text.
pub(crate) fn trimmed_lines(body: &[char]) -> (r: Vec<Vec<char>>)
    ensures
        views(r@) == trim_all(lines_of(body@)),
{
    let mut pieces = split_chars(body, '\n');
    proof {
        lemma_split_nonempty(body@, '\n');
    }
    let n = pieces.len();
    assert(views(pieces@)[n - 1] == pieces@[n - 1]@);
    if pieces[n - 1].len() == 0 {
        let ghost before = pieces@;
        pieces.pop();
        assert(views(pieces@) =~= views(before).drop_last());
    }
    assert(views(pieces@) == lines_of(body@));
    trim_each(&pieces)
}

/// The trimmed lines of a text, without its byte order mark.
fn lines_of_text(s: &str) -> (r: Vec<Vec<char>>)
    ensures
        views(r@) == text_lines(s@),
{
    let all = chars_of(s);
    let start: usize = if all.len() > 0 && all[0] == '\u{feff}' {
        1
    } else {
        0
    };
    let body = slice_chars(all.as_slice(), start, all.len());
    assert(body@ =~= strip_bom(s@));
    trimmed_lines(body.as_slice())
}

/// Whether `l` begins with `p`.
pub(crate) fn begins(l: &[char], p: &str) -> (r: bool)
    ensures
        r == begins_with(l@, p@),
{
    starts_with_chars(l, p)
}

/// The kind tag of a line.
fn tag_of(l: &[char]) -> (r: Vec<char>)
    ensures
        r@ == line_tag(l@),
{
    let p = find_char(l, 0, ',');
    assert(l@.skip(0) =~= l@);
    let first = trim_chars(slice_chars(l, 0, p).as_slice());
    assert(l@.subrange(0, p as int) == prefix_until(l@, ','));
    let ghost f = first@;
    if chars_eq(first.as_slice(), chars_of("CONSUMO").as_slice()) || chars_eq(
        first.as_slice(),
        chars_of("PRODUCCION").as_slice(),
    ) || chars_eq(first.as_slice(), chars_of("AUX").as_slice()) || chars_eq(
        first.as_slice(),
        chars_of("SALIDA").as_slice(),
    ) || chars_eq(first.as_slice(), chars_of("EDIFICIO").as_slice()) || chars_eq(
        first.as_slice(),
        chars_of("ZONA").as_slice(),
    ) || chars_eq(first.as_slice(), chars_of("SISTEMA").as_slice()) {
        first
    } else if p < l.len() {
        let q = find_char(l, p + 1, ',');
        let second = trim_chars(slice_chars(l, p + 1, q).as_slice());
        assert(l@.skip(p as int + 1) =~= l@.skip(prefix_until(l@, ',').len() as int + 1));
        second
    } else {
        Vec::new()
    }
}

/// Once the metadata lines of a prefix give an error, the whole list gives that error.
proof fn lemma_read_metas_error(ls: Seq<Seq<char>>, k: int)
    requires
        0 <= k <= ls.len(),
        read_metas(ls.take(k)) is Err,
    ensures
        read_metas(ls) == read_metas(ls.take(k)),
    decreases ls.len() - k,
{
    if k < ls.len() {
        assert(ls.take(k + 1).drop_last() =~= ls.take(k));
        lemma_read_metas_error(ls, k + 1);
    } else {
        assert(ls.take(k) =~= ls);
    }
}

/// A position is `first_problem` when the line there stops the reading and no earlier one
/// does.
proof fn lemma_first_problem(ls: Seq<Seq<char>>, i: int)
    requires
        0 <= i <= ls.len(),
        forall|j: int| 0 <= j < i ==> !is_problem(#[trigger] ls[j]),
        i < ls.len() ==> is_problem(ls[i]),
    ensures
        first_problem(ls) == i,
    decreases i,
{
    if i > 0 {
        assert forall|j: int| 0 <= j < i - 1 implies !is_problem(#[trigger] ls.drop_first()[j]) by {
            assert(ls.drop_first()[j] == ls[j + 1]);
        }
        if i < ls.len() {
            assert(ls.drop_first()[i - 1] == ls[i]);
        }
        lemma_first_problem(ls.drop_first(), i - 1);
        assert(!is_problem(ls[0]));
    }
}

/// Why reading components stopped.
enum ReadStop {
    /// A line with an error
    Error(EpbdError),
    /// A line of system data, which is not supported
    System,
}

/// What a data line holds.
enum DataItem {
    /// An energy component
    Energy(Energy<String>),
    /// Building needs
    Building(BuildingNeeds<String>),
    /// Zone needs
    Zone(ZoneNeeds<String>),
}

/// Whether `item` is what the data line `l` reads as.
spec fn item_read(item: DataItem, l: Seq<char>) -> bool {
    let t = line_tag(l);
    match item {
        DataItem::Energy(e) => is_energy_tag(t) && energy_read(e, l),
        DataItem::Building(b) => t == "EDIFICIO"@ && building_read(b, l),
        DataItem::Zone(z) => t == "ZONA"@ && zone_read(z, l),
    }
}

/// Whether `r` stops with a `ParseError` whose detail is `m`.
spec fn stops_with(r: Result<DataItem, ReadStop>, m: Seq<char>) -> bool {
    match r {
        Err(ReadStop::Error(EpbdError::ParseError(x))) => x@ == m,
        _ => false,
    }
}

/// Reads a data line.
fn read_data_line(l: &[char]) -> (r: Result<DataItem, ReadStop>)
    ensures
        is_system_line(l@) ==> r matches Err(ReadStop::System),
        !is_system_line(l@) ==> match data_line_error(l@) {
            Some(m) => stops_with(r, m),
            None => r matches Ok(item) && item_read(item, l@),
        },
{
    let tag = tag_of(l);
    let text = string_of(l);
    proof {
        lemma_tags_distinct();
    }
    if chars_eq(tag.as_slice(), chars_of("CONSUMO").as_slice()) {
        match EUsed::from_text(text.as_str()) {
            Ok(e) => Ok(DataItem::Energy(Energy::Used(e))),
            Err(e) => Err(ReadStop::Error(e)),
        }
    } else if chars_eq(tag.as_slice(), chars_of("PRODUCCION").as_slice()) {
        match EProd::from_text(text.as_str()) {
            Ok(e) => Ok(DataItem::Energy(Energy::Prod(e))),
            Err(e) => Err(ReadStop::Error(e)),
        }
    } else if chars_eq(tag.as_slice(), chars_of("AUX").as_slice()) {
        match EAux::from_text(text.as_str()) {
            Ok(e) => Ok(DataItem::Energy(Energy::Aux(e))),
            Err(e) => Err(ReadStop::Error(e)),
        }
    } else if chars_eq(tag.as_slice(), chars_of("SALIDA").as_slice()) {
        match EOut::from_text(text.as_str()) {
            Ok(e) => Ok(DataItem::Energy(Energy::Out(e))),
            Err(e) => Err(ReadStop::Error(e)),
        }
    } else if chars_eq(tag.as_slice(), chars_of("EDIFICIO").as_slice()) {
        match BuildingNeeds::from_text(text.as_str()) {
            Ok(e) => Ok(DataItem::Building(e)),
            Err(e) => Err(ReadStop::Error(e)),
        }
    } else if chars_eq(tag.as_slice(), chars_of("ZONA").as_slice()) {
        match ZoneNeeds::from_text(text.as_str()) {
            Ok(e) => Ok(DataItem::Zone(e)),
            Err(e) => Err(ReadStop::Error(e)),
        }
    } else if chars_eq(tag.as_slice(), chars_of("SISTEMA").as_slice()) {
        Err(ReadStop::System)
    } else {
        let a = concat("ERROR: No se reconoce el componente de la línea: ", text.as_str());
        let b = concat(a.as_str(), " ");
        let t = string_of(tag.as_slice());
        Err(ReadStop::Error(EpbdError::ParseError(concat(b.as_str(), t.as_str()))))
    }
}

/// The kind tags are different texts.
proof fn lemma_tags_distinct()
    ensures
        "SISTEMA"@ != "CONSUMO"@,
        "SISTEMA"@ != "PRODUCCION"@,
        "SISTEMA"@ != "AUX"@,
        "SISTEMA"@ != "SALIDA"@,
        "SISTEMA"@ != "EDIFICIO"@,
        "SISTEMA"@ != "ZONA"@,
        "EDIFICIO"@ != "ZONA"@,
        !is_energy_tag("EDIFICIO"@),
        !is_energy_tag("ZONA"@),
        !is_energy_tag("SISTEMA"@),
{
    reveal_strlit("SISTEMA");
    reveal_strlit("CONSUMO");
    reveal_strlit("PRODUCCION");
    reveal_strlit("AUX");
    reveal_strlit("SALIDA");
    reveal_strlit("EDIFICIO");
    reveal_strlit("ZONA");
    assert("SISTEMA"@[0] != "CONSUMO"@[0]);
    assert("SISTEMA"@[1] != "SALIDA"@[1]);
    assert("EDIFICIO"@[0] != "CONSUMO"@[0]);
    assert("ZONA"@[0] != "AUX"@[0]);
}

/// Reads the metadata lines of a list of trimmed lines.
pub(crate) fn read_meta_lines(ls: &Vec<Vec<char>>) -> (r: Result<Vec<Meta>, EpbdError>)
    requires
        forall|i: int| 0 <= i < ls@.len() ==> trim(#[trigger] views(ls@)[i]) == views(ls@)[i],
    ensures
        match read_metas(views(ls@)) {
            Err(m) => is_parse_error(r, m),
            Ok(p) => r matches Ok(v) && metas_view(v@) == p,
        },
{
    let ghost lv = views(ls@);
    let mut cmeta: Vec<Meta> = Vec::new();
    let mut i: usize = 0;
    assert(lv.take(0) =~= Seq::<Seq<char>>::empty());
    assert(metas_view(cmeta@) =~= Seq::<(Seq<char>, Seq<char>)>::empty());
    while i < ls.len()
        invariant
            i <= ls@.len(),
            lv == views(ls@),
            forall|j: int| 0 <= j < ls@.len() ==> trim(#[trigger] lv[j]) == lv[j],
            read_metas(lv.take(i as int)) == Ok::<_, Seq<char>>(metas_view(cmeta@)),
        decreases ls@.len() - i,
    {
        let l = ls[i].as_slice();
        proof {
            assert(lv[i as int] == ls@[i as int]@);
            assert(lv.take(i as int + 1).drop_last() =~= lv.take(i as int));
            assert(lv.take(i as int + 1).last() == lv[i as int]);
        }
        if begins(l, "#META") || begins(l, "#CTE_") {
            proof {
                reveal_strlit("#META");
                reveal_strlit("#CTE_");
                let t = lv[i as int];
                assert(trim(t) == t);
                assert(t.len() >= 5);
                assert(forall|k: int| 0 <= k < 5 ==> (t[k] as u32) < 0x80) by {
                    if begins_with(t, "#META"@) {
                        assert(t.take(5) == "#META"@);
                        assert forall|k: int| 0 <= k < 5 implies (t[k] as u32) < 0x80 by {
                            assert(t[k] == t.take(5)[k]);
                        }
                    } else {
                        assert(t.take(5) == "#CTE_"@);
                        assert forall|k: int| 0 <= k < 5 implies (t[k] as u32) < 0x80 by {
                            assert(t[k] == t.take(5)[k]);
                        }
                    }
                }
                lemma_five_ascii(t);
            }
            let text = string_of(l);
            match Meta::from_text(text.as_str()) {
                Ok(m) => {
                    let ghost before = cmeta@;
                    cmeta.push(m);
                    assert(metas_view(cmeta@) =~= metas_view(before).push((m.key@, m.value@)));
                },
                Err(e) => {
                    proof {
                        lemma_read_metas_error(lv, i as int + 1);
                    }
                    return Err(e);
                },
            }
        }
        i = i + 1;
    }
    assert(lv.take(i as int) =~= lv);
    Ok(cmeta)
}

/// Reads components from their text.
fn read_components(s: &str) -> (r: Result<Components<String>, ReadStop>)
    ensures
        components_stop_at_system(s@) ==> r matches Err(ReadStop::System),
        !components_stop_at_system(s@) ==> match components_error(s@) {
            Some(m) => r matches Err(ReadStop::Error(e)) && is_parse_error::<()>(Err(e), m),
            None => r matches Ok(c) && components_read(c, s@),
        },
{
    let ls = lines_of_text(s);
    let ghost lv = views(ls@);
    proof {
        assert forall|j: int| 0 <= j < ls@.len() implies trim(#[trigger] views(ls@)[j])
            == views(ls@)[j] by {
            lemma_trim_idempotent(lines_of(strip_bom(s@))[j]);
        }
    }
    let cmeta = match read_meta_lines(&ls) {
        Ok(v) => v,
        Err(e) => {
            return Err(ReadStop::Error(e));
        },
    };
    let mut cdata: Vec<Energy<String>> = Vec::new();
    let mut building: Vec<BuildingNeeds<String>> = Vec::new();
    let mut zones: Vec<ZoneNeeds<String>> = Vec::new();
    let mut i: usize = 0;
    assert(lv.take(0) =~= Seq::<Seq<char>>::empty());
    while i < ls.len()
        invariant
            i <= ls@.len(),
            lv == views(ls@),
            lv == text_lines(s@),
            read_metas(lv) == Ok::<_, Seq<char>>(metas_view(cmeta@)),
            forall|j: int| 0 <= j < i ==> !is_problem(#[trigger] lv[j]),
            cdata@.len() == energy_lines(lv.take(i as int)).len(),
            forall|k: int|
                0 <= k < cdata@.len() ==> energy_read(
                    #[trigger] cdata@[k],
                    energy_lines(lv.take(i as int))[k],
                ),
            building@.len() == building_lines(lv.take(i as int)).len(),
            forall|k: int|
                0 <= k < building@.len() ==> building_read(
                    #[trigger] building@[k],
                    building_lines(lv.take(i as int))[k],
                ),
            zones@.len() == zone_lines(lv.take(i as int)).len(),
            forall|k: int|
                0 <= k < zones@.len() ==> zone_read(
                    #[trigger] zones@[k],
                    zone_lines(lv.take(i as int))[k],
                ),
        decreases ls@.len() - i,
    {
        let l = ls[i].as_slice();
        let ghost lt = lv.take(i as int + 1);
        proof {
            assert(lv[i as int] == ls@[i as int]@);
            assert(lt.drop_last() =~= lv.take(i as int));
            assert(lt.last() == lv[i as int]);
        }
        if !(begins(l, "#") || begins(l, "vector,") || l.len() == 0) {
            proof {
                lemma_tags_distinct();
                assert(is_data_line(lv[i as int]));
            }
            match read_data_line(l) {
                Ok(DataItem::Energy(e)) => {
                    cdata.push(e);
                    proof {
                        assert(energy_lines(lt) == energy_lines(lv.take(i as int)).push(lv[i as int]));
                        assert(building_lines(lt) == building_lines(lv.take(i as int)));
                        assert(zone_lines(lt) == zone_lines(lv.take(i as int)));
                    }
                },
                Ok(DataItem::Building(b)) => {
                    building.push(b);
                    proof {
                        assert(energy_lines(lt) == energy_lines(lv.take(i as int)));
                        assert(building_lines(lt) == building_lines(lv.take(i as int)).push(lv[i as int]));
                        assert(zone_lines(lt) == zone_lines(lv.take(i as int)));
                    }
                },
                Ok(DataItem::Zone(z)) => {
                    zones.push(z);
                    proof {
                        assert(energy_lines(lt) == energy_lines(lv.take(i as int)));
                        assert(building_lines(lt) == building_lines(lv.take(i as int)));
                        assert(zone_lines(lt) == zone_lines(lv.take(i as int)).push(lv[i as int]));
                    }
                },
                Err(stop) => {
                    proof {
                        lemma_first_problem(lv, i as int);
                    }
                    return Err(stop);
                },
            }
        } else {
            proof {
                assert(!is_data_line(lv[i as int]));
                assert(energy_lines(lt) == energy_lines(lv.take(i as int)));
                assert(building_lines(lt) == building_lines(lv.take(i as int)));
                assert(zone_lines(lt) == zone_lines(lv.take(i as int)));
            }
        }
        i = i + 1;
    }
    proof {
        assert(lv.take(i as int) =~= lv);
        lemma_first_problem(lv, i as int);
        lemma_energy_lines_ok(lv);
        assert forall|j: int| 0 <= j < cdata@.len() implies (#[trigger] cdata@[j]).spec_values().len()
            == energy_steps(energy_lines(lv)[j]) by {
            lemma_energy_steps(cdata@[j], energy_lines(lv)[j]);
        }
    }
    if !same_lengths(&cdata) {
        proof {
            let j = choose|j: int| 0 <= j < cdata@.len() && (#[trigger] cdata@[j]).spec_values().len()
                != cdata@[0].spec_values().len();
            assert(energy_steps(energy_lines(lv)[j]) != energy_steps(energy_lines(lv)[0]));
            assert(!same_steps(energy_lines(lv)));
        }
        return Err(
            ReadStop::Error(
                EpbdError::ParseError(
                    string_of(
                        chars_of("Componentes con distinto número de pasos de cálculo").as_slice(),
                    ),
                ),
            ),
        );
    }
    proof {
        let e = energy_lines(lv);
        assert forall|j: int| 0 <= j < e.len() implies energy_steps(#[trigger] e[j]) == energy_steps(
            e[0],
        ) by {
            assert(cdata@[j].spec_values().len() == cdata@[0].spec_values().len());
        }
    }
    Ok(Components { cmeta, cdata, building, zones })
}

/// The lines that `tagged_lines` keeps are data lines of the list whose tag satisfies the
/// predicate.
proof fn lemma_tagged_lines_elems(ls: Seq<Seq<char>>, p: spec_fn(Seq<char>) -> bool)
    ensures
        forall|k: int|
            0 <= k < tagged_lines(ls, p).len() ==> exists|j: int|
                0 <= j < ls.len() && ls[j] == #[trigger] tagged_lines(ls, p)[k] && is_data_line(
                    ls[j],
                ) && p(line_tag(ls[j])),
    decreases ls.len(),
{
    if ls.len() > 0 {
        let q = ls.drop_last();
        lemma_tagged_lines_elems(q, p);
        let r = tagged_lines(q, p);
        assert forall|k: int| 0 <= k < tagged_lines(ls, p).len() implies exists|j: int|
            0 <= j < ls.len() && ls[j] == #[trigger] tagged_lines(ls, p)[k] && is_data_line(ls[j])
                && p(line_tag(ls[j])) by {
            if k < r.len() {
                let j = choose|j: int|
                    0 <= j < q.len() && q[j] == #[trigger] r[k] && is_data_line(q[j]) && p(
                        line_tag(q[j]),
                    );
                assert(ls[j] == q[j]);
                assert(tagged_lines(ls, p)[k] == r[k]);
            } else {
                assert(tagged_lines(ls, p)[k] == ls.last());
                assert(ls[ls.len() - 1] == ls.last());
            }
        }
    }
}

/// When no line stops the reading, the energy lines have energy tags and no error.
proof fn lemma_energy_lines_ok(ls: Seq<Seq<char>>)
    requires
        forall|j: int| 0 <= j < ls.len() ==> !is_problem(#[trigger] ls[j]),
    ensures
        forall|k: int|
            0 <= k < energy_lines(ls).len() ==> is_energy_tag(line_tag(#[trigger] energy_lines(ls)[k]))
                && data_line_error(energy_lines(ls)[k]) is None,
{
    let p = |t: Seq<char>| is_energy_tag(t);
    lemma_tagged_lines_elems(ls, p);
    assert forall|k: int| 0 <= k < energy_lines(ls).len() implies is_energy_tag(
        line_tag(#[trigger] energy_lines(ls)[k]),
    ) && data_line_error(energy_lines(ls)[k]) is None by {
        let j = choose|j: int|
            0 <= j < ls.len() && ls[j] == #[trigger] tagged_lines(ls, p)[k] && is_data_line(ls[j])
                && p(line_tag(ls[j]));
        assert(!is_problem(ls[j]));
    }
}

/// The number of values of a component read from an energy line without error.
proof fn lemma_energy_steps(e: Energy<String>, l: Seq<char>)
    requires
        energy_read(e, l),
        is_energy_tag(line_tag(l)),
        data_line_error(l) is None,
    ensures
        e.spec_values().len() == energy_steps(l),
{
    let f = fields_of(l);
    let b = id_base(f);
    let t = line_tag(l);
    assert(0 <= b <= 1);
    match e {
        Energy::Used(x) => {
            assert(f.skip(b + 3).len() == x.values@.len());
        },
        Energy::Prod(x) => {
            assert(f.skip(b + 2).len() == x.values@.len());
        },
        Energy::Aux(x) => {
            assert(f.skip(b + 1).len() == x.values@.len());
        },
        Energy::Out(x) => {
            assert(f.skip(b + 2).len() == x.values@.len());
        },
    }
}

/// Whether all the components have as many values as the first one.
fn same_lengths(cdata: &Vec<Energy<String>>) -> (r: bool)
    ensures
        r == forall|j: int|
            0 <= j < cdata@.len() ==> (#[trigger] cdata@[j]).spec_values().len()
                == cdata@[0].spec_values().len(),
{
    if cdata.len() == 0 {
        return true;
    }
    let first = cdata[0].num_steps();
    let mut k: usize = 0;
    while k < cdata.len()
        invariant
            k <= cdata@.len(),
            cdata@.len() > 0,
            first == cdata@[0].spec_values().len(),
            forall|j: int| 0 <= j < k ==> (#[trigger] cdata@[j]).spec_values().len() == first,
        decreases cdata@.len() - k,
    {
        if cdata[k].num_steps() != first {
            return false;
        }
        k = k + 1;
    }
    true
}

impl Components<String> {
    /// Reads components from their text: metadata lines (`#META key: value`) and data
    /// lines of used (`CONSUMO`), produced (`PRODUCCION`), auxiliary (`AUX`) and delivered
    /// (`SALIDA`) energy and of building (`EDIFICIO`) and zone (`ZONA`) needs. Empty lines,
    /// comment lines (`#`) and header lines (`vector,`) are skipped, and a leading byte order
    /// mark is ignored. All the energy components must have the same number of values.
    ///
    /// Lines of system data (`SISTEMA`) are not supported: callers check
    /// `stops_at_system_line` first.
    pub fn from_text(s: &str) -> (r: Result<Components<String>, EpbdError>)
        requires
            !components_stop_at_system(s@),
        ensures
            match components_error(s@) {
                Some(m) => is_parse_error(r, m),
                None => r matches Ok(c) && components_read(c, s@),
            },
    {
        match read_components(s) {
            Ok(c) => Ok(c),
            Err(ReadStop::Error(e)) => Err(e),
            Err(ReadStop::System) => Err(EpbdError::ParseError(string_of(chars_of(s).as_slice()))),
        }
    }

    /// Whether reading the text reaches a line of system data (`SISTEMA`), which is not
    /// supported.
    pub fn stops_at_system_line(s: &str) -> (r: bool)
        ensures
            r == components_stop_at_system(s@),
    {
        match read_components(s) {
            Err(ReadStop::System) => true,
            _ => false,
        }
    }

    /// The text of the components: the metadata lines, a line break, and the lines of the
    /// energy components (the needs are not written).
    pub open spec fn spec_text(&self) -> Seq<char> {
        join(self.cmeta@.map_values(|m: Meta| m.spec_text()), "\n"@) + "\n"@ + join(
            self.cdata@.map_values(|e: Energy<String>| e.spec_text()),
            "\n"@,
        )
    }

    /// The text of the components: the metadata lines, a line break, and the lines of the
    /// energy components (the needs are not written).
    pub fn to_text(&self) -> (r: String)
        ensures
            r@ == self.spec_text(),
    {
        let mut metas: Vec<Vec<char>> = Vec::new();
        let mut k: usize = 0;
        while k < self.cmeta.len()
            invariant
                k <= self.cmeta@.len(),
                views(metas@) == self.cmeta@.map_values(|m: Meta| m.spec_text()).take(k as int),
            decreases self.cmeta@.len() - k,
        {
            let t = chars_of(self.cmeta[k].to_text().as_str());
            let ghost before = metas@;
            metas.push(t);
            proof {
                crate::record::lemma_views_push(before, t);
                assert(self.cmeta@.map_values(|m: Meta| m.spec_text()).take(k as int + 1)
                    =~= self.cmeta@.map_values(|m: Meta| m.spec_text()).take(k as int).push(
                    t@,
                ));
            }
            k = k + 1;
        }
        assert(self.cmeta@.map_values(|m: Meta| m.spec_text()).take(k as int) =~= self.cmeta@.map_values(
            |m: Meta| m.spec_text(),
        ));
        let mut datas: Vec<Vec<char>> = Vec::new();
        let mut k: usize = 0;
        while k < self.cdata.len()
            invariant
                k <= self.cdata@.len(),
                views(datas@) == self.cdata@.map_values(|e: Energy<String>| e.spec_text()).take(
                    k as int,
                ),
            decreases self.cdata@.len() - k,
        {
            let t = chars_of(self.cdata[k].to_text().as_str());
            let ghost before = datas@;
            datas.push(t);
            proof {
                crate::record::lemma_views_push(before, t);
                assert(self.cdata@.map_values(|e: Energy<String>| e.spec_text()).take(k as int + 1)
                    =~= self.cdata@.map_values(|e: Energy<String>| e.spec_text()).take(
                    k as int,
                ).push(t@));
            }
            k = k + 1;
        }
        assert(self.cdata@.map_values(|e: Energy<String>| e.spec_text()).take(k as int)
            =~= self.cdata@.map_values(|e: Energy<String>| e.spec_text()));
        let mut v = join_lines(&metas);
        append_chars(&mut v, chars_of("\n").as_slice());
        let w = join_lines(&datas);
        append_chars(&mut v, w.as_slice());
        string_of(v.as_slice())
    }
}

/// The pieces joined with line breaks.
pub(crate) fn join_lines(p: &Vec<Vec<char>>) -> (r: Vec<char>)
    ensures
        r@ == join(views(p@), "\n"@),
{
    let mut v: Vec<char> = Vec::new();
    let mut k: usize = 0;
    let sep = chars_of("\n");
    while k < p.len()
        invariant
            k <= p@.len(),
            sep@ == "\n"@,
            v@ == join(views(p@).take(k as int), "\n"@),
        decreases p@.len() - k,
    {
        let ghost before = v@;
        if k > 0 {
            append_chars(&mut v, sep.as_slice());
        }
        append_chars(&mut v, p[k].as_slice());
        proof {
            let q = views(p@).take(k as int + 1);
            assert(q.drop_last() =~= views(p@).take(k as int));
            if k == 0 {
                assert(before =~= Seq::<char>::empty());
                assert(v@ =~= q[0]);
            }
        }
        k = k + 1;
    }
    assert(views(p@).take(p@.len() as int) =~= views(p@));
    v
}

impl<T> Components<T> {
    /// Number of steps of the first component (0 without components)
    pub fn num_steps(&self) -> (r: usize)
        ensures
            r == if self.cdata@.len() > 0 {
                self.cdata@[0].spec_values().len()
            } else {
                0
            },
    {
        if self.cdata.len() > 0 {
            self.cdata[0].num_steps()
        } else {
            0
        }
    }

    /// The carriers of the used and produced energy components, each once.
    pub fn available_carriers(&self) -> (r: Vec<Carrier>)
        ensures
            r@.no_duplicates(),
            forall|c: Carrier|
                r@.contains(c) <==> exists|k: int|
                    0 <= k < self.cdata@.len() && (self.cdata@[k] is Used || self.cdata@[k] is Prod)
                        && (#[trigger] self.cdata@[k]).spec_carrier() == c,
    {
        let mut r: Vec<Carrier> = Vec::new();
        let mut k: usize = 0;
        while k < self.cdata.len()
            invariant
                k <= self.cdata@.len(),
                r@.no_duplicates(),
                forall|c: Carrier|
                    r@.contains(c) <==> exists|j: int|
                        0 <= j < k && (self.cdata@[j] is Used || self.cdata@[j] is Prod)
                            && (#[trigger] self.cdata@[j]).spec_carrier() == c,
            decreases self.cdata@.len() - k,
        {
            let e = &self.cdata[k];
            if e.is_used() || e.is_generated() {
                let c = e.carrier();
                let ghost old_r = r@;
                if !contains_carrier(&r, c) {
                    r.push(c);
                }
                proof {
                    assert(r@.contains(c)) by {
                        if old_r.contains(c) {
                            let i = choose|i: int| 0 <= i < old_r.len() && old_r[i] == c;
                            assert(r@[i] == c);
                        } else {
                            assert(r@[r@.len() - 1] == c);
                        }
                    }
                    assert forall|x: Carrier| r@.contains(x) implies exists|j: int|
                        0 <= j < k + 1 && (self.cdata@[j] is Used || self.cdata@[j] is Prod)
                            && (#[trigger] self.cdata@[j]).spec_carrier() == x by {
                        if x == c {
                            assert(self.cdata@[k as int].spec_carrier() == x);
                        } else {
                            let i = choose|i: int| 0 <= i < r@.len() && r@[i] == x;
                            assert(old_r[i] == x);
                            assert(old_r.contains(x));
                        }
                    }
                    assert forall|x: Carrier| (exists|j: int|
                        0 <= j < k + 1 && (self.cdata@[j] is Used || self.cdata@[j] is Prod)
                            && (#[trigger] self.cdata@[j]).spec_carrier() == x) implies r@.contains(x) by {
                        let j = choose|j: int|
                            0 <= j < k + 1 && (self.cdata@[j] is Used || self.cdata@[j] is Prod)
                                && (#[trigger] self.cdata@[j]).spec_carrier() == x;
                        if j < k {
                            assert(old_r.contains(x));
                            let i = choose|i: int| 0 <= i < old_r.len() && old_r[i] == x;
                            assert(r@[i] == x);
                        }
                    }
                }
            }
            k = k + 1;
        }
        r
    }
}

/// Whether the list holds the carrier.
pub fn contains_carrier(v: &Vec<Carrier>, c: Carrier) -> (r: bool)
    ensures
        r == v@.contains(c),
{
    let mut k: usize = 0;
    while k < v.len()
        invariant
            k <= v@.len(),
            forall|j: int| 0 <= j < k ==> v@[j] != c,
        decreases v@.len() - k,
    {
        if v[k] == c {
            return true;
        }
        k = k + 1;
    }
    false
}

impl<T> MetaVec for Components<T> {
    open spec fn meta_seq(&self) -> Seq<Meta> {
        self.cmeta@
    }

    fn get_metavec(&self) -> (r: &Vec<Meta>) {
        &self.cmeta
    }

    fn set_meta(&mut self, key: &str, value: &str) {
        crate::types::metavec::set_meta(&mut self.cmeta, key, value);
    }
}

// ------------------------------------------------------------ order by system id

/// The first position in `s` whose id is greater than `id` (the length if none).
pub open spec fn insert_pos<T>(s: Seq<Energy<T>>, id: i32) -> int
    decreases s.len(),
{
    if s.len() == 0 {
        0
    } else if s[0].spec_id() > id {
        0
    } else {
        1 + insert_pos(s.drop_first(), id)
    }
}

/// `s` ordered by system id, components with equal ids in their original order: each
/// component goes after all those before it whose id is not greater.
pub open spec fn sorted_by_id<T>(s: Seq<Energy<T>>) -> Seq<Energy<T>>
    decreases s.len(),
{
    if s.len() == 0 {
        s
    } else {
        let r = sorted_by_id(s.drop_last());
        r.insert(insert_pos(r, s.last().spec_id()), s.last())
    }
}

/// Whether the ids never decrease along `s`.
pub open spec fn ids_ordered<T>(s: Seq<Energy<T>>) -> bool {
    forall|i: int, j: int| 0 <= i < j < s.len() ==> s[i].spec_id() <= s[j].spec_id()
}

/// `insert_pos` is after every component with an id that is not greater and, when it is a
/// position, at a component with a greater id.
proof fn lemma_insert_pos<T>(s: Seq<Energy<T>>, id: i32)
    ensures
        0 <= insert_pos(s, id) <= s.len(),
        forall|k: int| 0 <= k < insert_pos(s, id) ==> (#[trigger] s[k]).spec_id() <= id,
        insert_pos(s, id) < s.len() ==> s[insert_pos(s, id)].spec_id() > id,
    decreases s.len(),
{
    if s.len() > 0 && s[0].spec_id() <= id {
        lemma_insert_pos(s.drop_first(), id);
        assert forall|k: int| 0 <= k < insert_pos(s, id) implies (#[trigger] s[k]).spec_id() <= id by {
            if k > 0 {
                assert(s[k] == s.drop_first()[k - 1]);
            }
        }
        if insert_pos(s, id) < s.len() {
            assert(s[insert_pos(s, id)] == s.drop_first()[insert_pos(s, id) - 1]);
        }
    }
}

/// A position after the components whose id is not greater and at one with a greater id is
/// `insert_pos`.
proof fn lemma_insert_pos_at<T>(s: Seq<Energy<T>>, id: i32, j: int)
    requires
        0 <= j <= s.len(),
        forall|k: int| 0 <= k < j ==> (#[trigger] s[k]).spec_id() <= id,
        j < s.len() ==> s[j].spec_id() > id,
    ensures
        insert_pos(s, id) == j,
    decreases j,
{
    if j > 0 {
        assert forall|k: int| 0 <= k < j - 1 implies (#[trigger] s.drop_first()[k]).spec_id() <= id by {
            assert(s.drop_first()[k] == s[k + 1]);
        }
        if j < s.len() {
            assert(s.drop_first()[j - 1] == s[j]);
        }
        lemma_insert_pos_at(s.drop_first(), id, j - 1);
        assert(s[0].spec_id() <= id);
    }
}

/// The position where a component with the given id goes.
fn find_insert_pos<T>(v: &Vec<Energy<T>>, id: i32) -> (j: usize)
    ensures
        j == insert_pos(v@, id),
{
    let mut j: usize = 0;
    while j < v.len() && v[j].id() <= id
        invariant
            j <= v@.len(),
            forall|k: int| 0 <= k < j ==> (#[trigger] v@[k]).spec_id() <= id,
        decreases v@.len() - j,
    {
        j = j + 1;
    }
    proof {
        lemma_insert_pos_at(v@, id, j as int);
    }
    j
}

impl<T> Components<T> {
    /// Orders the energy components by system id; components with equal ids keep their
    /// order.
    pub fn sort_by_id(&mut self)
        ensures
            final(self).cdata@ == sorted_by_id(old(self).cdata@),
            final(self).cmeta == old(self).cmeta,
            final(self).building == old(self).building,
            final(self).zones == old(self).zones,
    {
        let mut src: Vec<Energy<T>> = Vec::new();
        std::mem::swap(&mut src, &mut self.cdata);
        let ghost s0 = src@;
        let mut out: Vec<Energy<T>> = Vec::new();
        let mut i: usize = 0;
        let n = src.len();
        assert(s0.take(0) =~= Seq::<Energy<T>>::empty());
        assert(s0.skip(0) =~= s0);
        while src.len() > 0
            invariant
                n == s0.len(),
                i + src@.len() == s0.len(),
                src@ == s0.skip(i as int),
                out@ == sorted_by_id(s0.take(i as int)),
            decreases src@.len(),
        {
            let x = src.remove(0);
            proof {
                assert(x == s0[i as int]);
                assert(s0.take(i as int + 1).drop_last() =~= s0.take(i as int));
                assert(s0.take(i as int + 1).last() == x);
                assert(src@ =~= s0.skip(i as int + 1));
            }
            let p = find_insert_pos(&out, x.id());
            proof {
                lemma_insert_pos(out@, x.spec_id());
            }
            out.insert(p, x);
            i = i + 1;
        }
        assert(s0.take(i as int) =~= s0);
        self.cdata = out;
    }
}

/// Ordering by id gives a list whose ids never decrease.
pub proof fn lemma_sorted_by_id_ordered<T>(s: Seq<Energy<T>>)
    ensures
        ids_ordered(sorted_by_id(s)),
    decreases s.len(),
{
    if s.len() > 0 {
        let r = sorted_by_id(s.drop_last());
        lemma_sorted_by_id_ordered(s.drop_last());
        let x = s.last();
        let p = insert_pos(r, x.spec_id());
        lemma_insert_pos(r, x.spec_id());
        let t = r.insert(p, x);
        assert forall|i: int, j: int| 0 <= i < j < t.len() implies t[i].spec_id() <= t[j].spec_id() by {
            if j < p {
                assert(t[i] == r[i] && t[j] == r[j]);
            } else if j == p {
                assert(t[i] == r[i]);
            } else if i < p {
                assert(t[i] == r[i] && t[j] == r[j - 1]);
                assert(r[i].spec_id() <= r[j - 1].spec_id());
            } else if i == p {
                assert(t[j] == r[j - 1]);
                assert(r[p].spec_id() <= r[j - 1].spec_id());
            } else {
                assert(t[i] == r[i - 1] && t[j] == r[j - 1]);
            }
        }
    }
}

/// Ordering by id keeps every component, as many times as it occurs.
pub proof fn lemma_sorted_by_id_permutation<T>(s: Seq<Energy<T>>)
    ensures
        sorted_by_id(s).to_multiset() == s.to_multiset(),
    decreases s.len(),
{
    broadcast use vstd::seq_lib::group_to_multiset_ensures;

    if s.len() > 0 {
        let r = sorted_by_id(s.drop_last());
        lemma_sorted_by_id_permutation(s.drop_last());
        let x = s.last();
        lemma_insert_pos(r, x.spec_id());
        vstd::seq_lib::to_multiset_insert(r, insert_pos(r, x.spec_id()), x);
        assert(s.drop_last().push(x) =~= s);
        vstd::seq_lib::to_multiset_build(s.drop_last(), x);
    }
}

/// The components of `s` with system id `id`, in order.
pub open spec fn with_id<T>(s: Seq<Energy<T>>, id: i32) -> Seq<Energy<T>>
    decreases s.len(),
{
    if s.len() == 0 {
        s
    } else if s.last().spec_id() == id {
        with_id(s.drop_last(), id).push(s.last())
    } else {
        with_id(s.drop_last(), id)
    }
}

/// Selecting by id distributes over concatenation.
proof fn lemma_with_id_add<T>(a: Seq<Energy<T>>, b: Seq<Energy<T>>, id: i32)
    ensures
        with_id(a + b, id) == with_id(a, id) + with_id(b, id),
    decreases b.len(),
{
    if b.len() == 0 {
        assert(a + b =~= a);
        assert(with_id(a, id) + with_id(b, id) =~= with_id(a, id));
    } else {
        lemma_with_id_add(a, b.drop_last(), id);
        assert((a + b).drop_last() =~= a + b.drop_last());
        assert((a + b).last() == b.last());
        if b.last().spec_id() == id {
            assert(with_id(a, id) + with_id(b.drop_last(), id).push(b.last()) =~= (with_id(a, id)
                + with_id(b.drop_last(), id)).push(b.last()));
        }
    }
}

/// A list whose ids all differ from `id` has no component with it.
proof fn lemma_with_id_none<T>(s: Seq<Energy<T>>, id: i32)
    requires
        forall|k: int| 0 <= k < s.len() ==> (#[trigger] s[k]).spec_id() != id,
    ensures
        with_id(s, id) == Seq::<Energy<T>>::empty(),
    decreases s.len(),
{
    if s.len() > 0 {
        assert(s[s.len() - 1] == s.last());
        lemma_with_id_none(s.drop_last(), id);
    }
}

/// Ordering by id keeps, for each id, the components with that id in their order.
pub proof fn lemma_sorted_by_id_stable<T>(s: Seq<Energy<T>>, id: i32)
    ensures
        with_id(sorted_by_id(s), id) == with_id(s, id),
    decreases s.len(),
{
    if s.len() > 0 {
        let r = sorted_by_id(s.drop_last());
        lemma_sorted_by_id_stable(s.drop_last(), id);
        lemma_sorted_by_id_ordered(s.drop_last());
        let x = s.last();
        let p = insert_pos(r, x.spec_id());
        lemma_insert_pos(r, x.spec_id());
        let a = r.take(p);
        let b = r.skip(p);
        assert(r =~= a + b);
        assert(r.insert(p, x) =~= a + seq![x] + b);
        lemma_with_id_add(a + seq![x], b, id);
        lemma_with_id_add(a, seq![x], id);
        lemma_with_id_add(a, b, id);
        assert(seq![x].drop_last() =~= Seq::<Energy<T>>::empty());
        assert(seq![x].last() == x);
        assert(with_id(Seq::<Energy<T>>::empty(), id) =~= Seq::<Energy<T>>::empty());
        if x.spec_id() == id {
            assert forall|k: int| 0 <= k < b.len() implies (#[trigger] b[k]).spec_id() != id by {
                assert(b[k] == r[p + k]);
                assert(r[p].spec_id() <= r[p + k].spec_id());
            }
            lemma_with_id_none(b, id);
            assert(with_id(a, id) + with_id(b, id) =~= with_id(a, id));
            assert(with_id(seq![x], id) =~= seq![x]);
            assert(with_id(a, id) + seq![x] + Seq::<Energy<T>>::empty() =~= with_id(a, id).push(x));
        } else {
            assert(with_id(seq![x], id) =~= Seq::<Energy<T>>::empty());
            assert(with_id(a, id) + Seq::<Energy<T>>::empty() =~= with_id(a, id));
        }
    }
}

// ------------------------------------------------------------ selections

/// The positions of the components of `s` that satisfy `p`, in order.
pub open spec fn positions<T>(s: Seq<Energy<T>>, p: spec_fn(Energy<T>) -> bool) -> Seq<usize>
    decreases s.len(),
{
    if s.len() == 0 {
        Seq::empty()
    } else {
        let r = positions(s.drop_last(), p);
        if p(s.last()) {
            r.push((s.len() - 1) as usize)
        } else {
            r
        }
    }
}

/// The elements of `s`, each once, in the order of their first occurrence.
pub open spec fn distinct_in_order<A>(s: Seq<A>) -> Seq<A>
    decreases s.len(),
{
    if s.len() == 0 {
        s
    } else {
        let r = distinct_in_order(s.drop_last());
        if r.contains(s.last()) {
            r
        } else {
            r.push(s.last())
        }
    }
}

/// The elements of `v`, each once, in the order of their first occurrence.
fn distinct_ids(v: &Vec<i32>) -> (r: Vec<i32>)
    ensures
        r@ == distinct_in_order(v@),
{
    let mut r: Vec<i32> = Vec::new();
    let mut k: usize = 0;
    assert(v@.take(0) =~= Seq::<i32>::empty());
    while k < v.len()
        invariant
            k <= v@.len(),
            r@ == distinct_in_order(v@.take(k as int)),
        decreases v@.len() - k,
    {
        proof {
            assert(v@.take(k as int + 1).drop_last() =~= v@.take(k as int));
            assert(v@.take(k as int + 1).last() == v@[k as int]);
        }
        let x = v[k];
        let mut j: usize = 0;
        let mut found = false;
        while j < r.len()
            invariant
                j <= r@.len(),
                found == exists|i: int| 0 <= i < j && r@[i] == x,
            decreases r@.len() - j,
        {
            if r[j] == x {
                found = true;
            }
            j = j + 1;
        }
        if !found {
            r.push(x);
        }
        k = k + 1;
    }
    assert(v@.take(k as int) =~= v@);
    r
}

/// The elements of `v`, each once, in the order of their first occurrence.
fn distinct_services(v: &Vec<Service>) -> (r: Vec<Service>)
    ensures
        r@ == distinct_in_order(v@),
{
    let mut r: Vec<Service> = Vec::new();
    let mut k: usize = 0;
    assert(v@.take(0) =~= Seq::<Service>::empty());
    while k < v.len()
        invariant
            k <= v@.len(),
            r@ == distinct_in_order(v@.take(k as int)),
        decreases v@.len() - k,
    {
        proof {
            assert(v@.take(k as int + 1).drop_last() =~= v@.take(k as int));
            assert(v@.take(k as int + 1).last() == v@[k as int]);
        }
        let x = v[k];
        let mut j: usize = 0;
        let mut found = false;
        while j < r.len()
            invariant
                j <= r@.len(),
                found == exists|i: int| 0 <= i < j && r@[i] == x,
            decreases r@.len() - j,
        {
            if r[j] == x {
                found = true;
            }
            j = j + 1;
        }
        if !found {
            r.push(x);
        }
        k = k + 1;
    }
    assert(v@.take(k as int) =~= v@);
    r
}

/// The ids of the components of `s` that satisfy `p`, in order.
pub open spec fn id_list<T>(s: Seq<Energy<T>>, p: spec_fn(Energy<T>) -> bool) -> Seq<i32>
    decreases s.len(),
{
    if s.len() == 0 {
        Seq::empty()
    } else {
        let r = id_list(s.drop_last(), p);
        if p(s.last()) {
            r.push(s.last().spec_id())
        } else {
            r
        }
    }
}

/// The services of the components of `s` that satisfy `p`, in order.
pub open spec fn service_list<T>(s: Seq<Energy<T>>, p: spec_fn(Energy<T>) -> bool) -> Seq<Service>
    decreases s.len(),
{
    if s.len() == 0 {
        Seq::empty()
    } else {
        let r = service_list(s.drop_last(), p);
        if p(s.last()) {
            r.push(s.last().spec_service())
        } else {
            r
        }
    }
}

/// Whether the carrier is produced on site from the environment or the sun.
pub open spec fn is_onsite_carrier(c: Carrier) -> bool {
    c == Carrier::EAMBIENTE || c == Carrier::TERMOSOLAR
}

/// The production source that balances the use of a carrier produced on site.
pub open spec fn onsite_source(c: Carrier) -> ProdSource {
    if c == Carrier::EAMBIENTE {
        ProdSource::EAMBIENTE
    } else {
        ProdSource::TERMOSOLAR
    }
}

/// A condition on energy components.
#[derive(Debug, Clone, Copy)]
pub enum Pick {
    /// Energy used of the carrier
    UseOf(Carrier),
    /// Energy used of the carrier for the service
    UseFor(Carrier, Service),
    /// Energy used (`true`) or produced (`false`) of the carrier by the system
    CarrierOf(Carrier, i32, bool),
    /// Auxiliary energy
    Aux,
    /// Energy used by the system
    UseBy(i32),
    /// Energy delivered by the system
    OutBy(i32),
    /// Auxiliary energy of the system
    AuxOf(i32),
    /// Energy delivered by the system for the service
    OutFor(i32, Service),
    /// Energy used for the service, or produced energy that is not electricity
    KeptFor(Service),
    /// Produced electricity
    ElectricityProduced,
    /// Electricity used for an EPB service (for the given one, if any)
    EpbElectricity(Option<Service>),
    /// Electricity produced by cogeneration
    CogenProduced,
    /// Energy used for non EPB uses
    NepbUse,
    /// Electricity produced on site
    OnsiteElectricity,
}

/// Whether the component satisfies the condition.
pub open spec fn picks<T>(p: Pick, e: Energy<T>) -> bool {
    match p {
        Pick::UseOf(c) => e is Used && e.spec_has_carrier(c),
        Pick::UseFor(c, srv) => e is Used && e.spec_has_carrier(c) && e.spec_service() == srv,
        Pick::CarrierOf(c, id, used) => (if used {
            e is Used
        } else {
            e is Prod
        }) && e.spec_has_carrier(c) && e.spec_id() == id,
        Pick::Aux => e is Aux,
        Pick::UseBy(id) => e is Used && e.spec_id() == id,
        Pick::OutBy(id) => e is Out && e.spec_id() == id,
        Pick::AuxOf(id) => e is Aux && e.spec_id() == id,
        Pick::OutFor(id, srv) => e is Out && e.spec_id() == id && e.spec_service() == srv,
        Pick::KeptFor(srv) => (e is Used && e.spec_service() == srv) || (e is Prod
            && !e.spec_is_electricity()),
        Pick::ElectricityProduced => e is Prod && e.spec_is_electricity(),
        Pick::EpbElectricity(srv) => e.spec_is_epb_use() && e.spec_is_electricity() && (
        srv matches Some(x) ==> e.spec_service() == x),
        Pick::CogenProduced => e matches Energy::Prod(x) && x.source == ProdSource::EL_COGEN,
        Pick::NepbUse => e.spec_is_nepb_use(),
        Pick::OnsiteElectricity => e.spec_is_electricity() && (e matches Energy::Prod(x)
            && x.source != ProdSource::EL_COGEN),
    }
}

/// Whether the component satisfies the condition.
fn pick<T>(p: Pick, e: &Energy<T>) -> (r: bool)
    ensures
        r == picks(p, *e),
{
    match p {
        Pick::UseOf(c) => e.is_used() && e.has_carrier(c),
        Pick::UseFor(c, srv) => e.is_used() && e.has_carrier(c) && e.service() == srv,
        Pick::CarrierOf(c, id, used) => (if used {
            e.is_used()
        } else {
            e.is_generated()
        }) && e.has_carrier(c) && e.has_id(id),
        Pick::Aux => e.is_aux(),
        Pick::UseBy(id) => e.is_used() && e.has_id(id),
        Pick::OutBy(id) => e.is_out() && e.has_id(id),
        Pick::AuxOf(id) => e.is_aux() && e.has_id(id),
        Pick::OutFor(id, srv) => e.is_out() && e.has_id(id) && e.service() == srv,
        Pick::KeptFor(srv) => (e.is_used() && e.has_service(srv)) || (e.is_generated()
            && !e.is_electricity()),
        Pick::ElectricityProduced => e.is_generated() && e.is_electricity(),
        Pick::EpbElectricity(srv) => e.is_epb_use() && e.is_electricity() && match srv {
            Some(x) => e.service() == x,
            None => true,
        },
        Pick::CogenProduced => e.is_cogen_pr(),
        Pick::NepbUse => e.is_nepb_use(),
        Pick::OnsiteElectricity => e.is_electricity() && e.is_onsite_pr(),
    }
}

impl<T> Components<T> {
    /// The positions of the components that satisfy the condition, in order.
    pub fn positions_of(&self, p: Pick) -> (r: Vec<usize>)
        ensures
            r@ == positions(self.cdata@, |e: Energy<T>| picks(p, e)),
            // in increasing order, each of a component that satisfies the condition,
            forall|j: int|
                0 <= j < r@.len() ==> #[trigger] r@[j] < self.cdata@.len()
                    && picks(p, self.cdata@[r@[j] as int]),
            forall|i: int, j: int| 0 <= i < j < r@.len() ==> #[trigger] r@[i] < #[trigger] r@[j],
            // and every such component is there
            forall|k: int|
                0 <= k < self.cdata@.len() && picks(p, #[trigger] self.cdata@[k]) ==> r@.contains(
                    k as usize,
                ),
    {
        let v = &self.cdata;
        let ghost f = |e: Energy<T>| picks(p, e);
        let mut r: Vec<usize> = Vec::new();
        let mut k: usize = 0;
        assert(v@.take(0) =~= Seq::<Energy<T>>::empty());
        while k < v.len()
            invariant
                k <= v@.len(),
                v == &self.cdata,
                f == (|e: Energy<T>| picks(p, e)),
                r@ == positions(v@.take(k as int), f),
                forall|j: int| 0 <= j < r@.len() ==> #[trigger] r@[j] < k && picks(p, v@[r@[j] as int]),
                forall|i: int, j: int| 0 <= i < j < r@.len() ==> #[trigger] r@[i] < #[trigger] r@[j],
                forall|m: int| 0 <= m < k && picks(p, #[trigger] v@[m]) ==> r@.contains(m as usize),
            decreases v@.len() - k,
        {
            proof {
                assert(v@.take(k as int + 1).drop_last() =~= v@.take(k as int));
                assert(v@.take(k as int + 1).last() == v@[k as int]);
            }
            let ghost before = r@;
            if pick(p, &v[k]) {
                r.push(k);
                proof {
                    assert(r@[before.len() as int] == k);
                    assert forall|m: int| 0 <= m < k + 1
                        && picks(p, #[trigger] v@[m]) implies r@.contains(
                        m as usize,
                    ) by {
                        if m < k {
                            let j = choose|j: int| 0 <= j < before.len() && before[j] == m as usize;
                            assert(r@[j] == before[j]);
                        }
                    }
                }
            } else {
                proof {
                    assert forall|m: int| 0 <= m < k + 1
                        && picks(p, #[trigger] v@[m]) implies r@.contains(
                        m as usize,
                    ) by {
                        if m < k {
                            assert(before.contains(m as usize));
                        }
                    }
                }
            }
            k = k + 1;
        }
        assert(v@.take(k as int) =~= v@);
        r
    }

    /// The ids of the components that satisfy the condition, each once, in the order of
    /// their first occurrence.
    pub fn ids_of(&self, p: Pick) -> (r: Vec<i32>)
        ensures
            r@ == distinct_in_order(id_list(self.cdata@, |e: Energy<T>| picks(p, e))),
            r@.no_duplicates(),
            forall|x: i32|
                r@.contains(x) <==> exists|k: int|
                    0 <= k < self.cdata@.len() && picks(p, #[trigger] self.cdata@[k])
                        && self.cdata@[k].spec_id() == x,
    {
        let v = &self.cdata;
        let ghost f = |e: Energy<T>| picks(p, e);
        let mut r: Vec<i32> = Vec::new();
        let mut k: usize = 0;
        assert(v@.take(0) =~= Seq::<Energy<T>>::empty());
        while k < v.len()
            invariant
                k <= v@.len(),
                v == &self.cdata,
                f == (|e: Energy<T>| picks(p, e)),
                r@ == id_list(v@.take(k as int), f),
            decreases v@.len() - k,
        {
            proof {
                assert(v@.take(k as int + 1).drop_last() =~= v@.take(k as int));
                assert(v@.take(k as int + 1).last() == v@[k as int]);
            }
            if pick(p, &v[k]) {
                r.push(v[k].id());
            }
            k = k + 1;
        }
        assert(v@.take(k as int) =~= v@);
        let d = distinct_ids(&r);
        proof {
            let l = id_list(self.cdata@, f);
            lemma_id_list_contains(self.cdata@, f);
            lemma_distinct_in_order_contains(l);
            lemma_distinct_in_order_no_duplicates(l);
            assert forall|x: i32|
                d@.contains(x) <==> exists|k: int|
                    0 <= k < self.cdata@.len() && picks(p, #[trigger] self.cdata@[k])
                        && self.cdata@[k].spec_id() == x by {
                if exists|k: int|
                    0 <= k < self.cdata@.len() && picks(p, #[trigger] self.cdata@[k])
                        && self.cdata@[k].spec_id() == x {
                    let k = choose|k: int|
                        0 <= k < self.cdata@.len() && picks(p, #[trigger] self.cdata@[k])
                            && self.cdata@[k].spec_id() == x;
                    assert(f(self.cdata@[k]));
                }
                if l.contains(x) {
                    let k = choose|k: int| 0 <= k < self.cdata@.len()
                        && f(#[trigger] self.cdata@[k]) && self.cdata@[k].spec_id() == x;
                    assert(picks(p, self.cdata@[k]));
                }
            }
        }
        d
    }

    /// The services of the components that satisfy the condition (one without production),
    /// each once, in the order of their first occurrence.
    pub fn services_of(&self, p: Pick) -> (r: Vec<Service>)
        requires
            forall|e: Energy<T>| picks(p, e) ==> !(e is Prod),
        ensures
            r@ == distinct_in_order(service_list(self.cdata@, |e: Energy<T>| picks(p, e))),
            r@.no_duplicates(),
            forall|x: Service|
                r@.contains(x) <==> exists|k: int|
                    0 <= k < self.cdata@.len() && picks(p, #[trigger] self.cdata@[k])
                        && self.cdata@[k].spec_service()
                        == x,
    {
        let v = &self.cdata;
        let ghost f = |e: Energy<T>| picks(p, e);
        let mut r: Vec<Service> = Vec::new();
        let mut k: usize = 0;
        assert(v@.take(0) =~= Seq::<Energy<T>>::empty());
        while k < v.len()
            invariant
                k <= v@.len(),
                v == &self.cdata,
                f == (|e: Energy<T>| picks(p, e)),
                forall|e: Energy<T>| picks(p, e) ==> !(e is Prod),
                r@ == service_list(v@.take(k as int), f),
            decreases v@.len() - k,
        {
            proof {
                assert(v@.take(k as int + 1).drop_last() =~= v@.take(k as int));
                assert(v@.take(k as int + 1).last() == v@[k as int]);
            }
            if pick(p, &v[k]) {
                r.push(v[k].service());
            }
            k = k + 1;
        }
        assert(v@.take(k as int) =~= v@);
        let d = distinct_services(&r);
        proof {
            let l = service_list(self.cdata@, f);
            lemma_service_list_contains(self.cdata@, f);
            lemma_distinct_in_order_contains(l);
            lemma_distinct_in_order_no_duplicates(l);
            assert forall|x: Service|
                d@.contains(x) <==> exists|k: int|
                    0 <= k < self.cdata@.len() && picks(p, #[trigger] self.cdata@[k])
                        && self.cdata@[k].spec_service() == x by {
                if exists|k: int|
                    0 <= k < self.cdata@.len() && picks(p, #[trigger] self.cdata@[k])
                        && self.cdata@[k].spec_service() == x {
                    let k = choose|k: int|
                        0 <= k < self.cdata@.len() && picks(p, #[trigger] self.cdata@[k])
                            && self.cdata@[k].spec_service() == x;
                    assert(f(self.cdata@[k]));
                }
                if l.contains(x) {
                    let k = choose|k: int| 0 <= k < self.cdata@.len()
                        && f(#[trigger] self.cdata@[k]) && self.cdata@[k].spec_service() == x;
                    assert(picks(p, self.cdata@[k]));
                }
            }
        }
        d
    }
}

/// The component with its service replaced when it is auxiliary energy of system `id`.
pub open spec fn with_aux_service<T>(e: Energy<T>, id: i32, service: Service) -> Energy<T> {
    match e {
        Energy::Aux(a) => if a.id == id {
            Energy::Aux(EAux { service: service, ..a })
        } else {
            e
        },
        _ => e,
    }
}

/// The comment of a production balancing the use of a carrier produced on site.
pub open spec fn onsite_balance_comment() -> Seq<char> {
    "Equilibrado de consumo sin producción declarada"@
}

/// The comment of an auxiliary energy share.
pub open spec fn aux_share_comment() -> Seq<char> {
    "Reasignación automática de consumos auxiliares"@
}

/// The detail of the error for a system whose auxiliary energy cannot be split among
/// services.
pub open spec fn aux_split_detail(id: i32) -> Seq<char> {
    "Sin datos de energía saliente para hacer el reparto de los consumos auxiliares del sistema "@
        + crate::record::int_text(id as int)
}

impl<T> Components<T> {
    /// The production that balances the use of a carrier produced on site (EAMBIENTE or
    /// TERMOSOLAR) by system `id`.
    pub fn onsite_balance(id: i32, carrier: Carrier, values: Vec<T>) -> (r: Energy<T>)
        requires
            is_onsite_carrier(carrier),
        ensures
            r matches Energy::Prod(x) && x.id == id && x.source == onsite_source(carrier)
                && x.values@ == values@ && x.comment@ == onsite_balance_comment(),
    {
        let source = if carrier == Carrier::EAMBIENTE {
            ProdSource::EAMBIENTE
        } else {
            ProdSource::TERMOSOLAR
        };
        Energy::Prod(
            EProd {
                id,
                source,
                values,
                comment: string_of(
                    chars_of("Equilibrado de consumo sin producción declarada").as_slice(),
                ),
            },
        )
    }

    /// A share of the auxiliary energy of system `id` assigned to a service.
    pub fn aux_share(id: i32, service: Service, values: Vec<T>) -> (r: Energy<T>)
        ensures
            r matches Energy::Aux(x) && x.id == id && x.service == service && x.values@
                == values@ && x.comment@ == aux_share_comment(),
    {
        Energy::Aux(
            EAux {
                id,
                service,
                values,
                comment: string_of(
                    chars_of("Reasignación automática de consumos auxiliares").as_slice(),
                ),
            },
        )
    }

    /// The error for a system with auxiliary energy and several services but no delivered
    /// energy to split it by.
    pub fn aux_split_error(id: i32) -> (r: EpbdError)
        ensures
            r matches EpbdError::WrongInput(m) && m@ == aux_split_detail(id),
    {
        let t = string_of(crate::record::i32_chars(id).as_slice());
        EpbdError::WrongInput(
            concat(
                "Sin datos de energía saliente para hacer el reparto de los consumos auxiliares del sistema ",
                t.as_str(),
            ),
        )
    }

    /// Assigns the service to the auxiliary energy of system `id`.
    pub fn assign_aux_service(&mut self, id: i32, service: Service)
        ensures
            final(self).cdata@ == old(self).cdata@.map_values(
                |e: Energy<T>| with_aux_service(e, id, service),
            ),
            final(self).cmeta == old(self).cmeta,
            final(self).building == old(self).building,
            final(self).zones == old(self).zones,
    {
        let mut src: Vec<Energy<T>> = Vec::new();
        std::mem::swap(&mut src, &mut self.cdata);
        let ghost s0 = src@;
        let ghost m = s0.map_values(|e: Energy<T>| with_aux_service(e, id, service));
        let mut out: Vec<Energy<T>> = Vec::new();
        let mut i: usize = 0;
        let n = src.len();
        assert(s0.skip(0) =~= s0);
        while src.len() > 0
            invariant
                n == s0.len(),
                i + src@.len() == s0.len(),
                src@ == s0.skip(i as int),
                m == s0.map_values(|e: Energy<T>| with_aux_service(e, id, service)),
                out@ == m.take(i as int),
            decreases src@.len(),
        {
            let x = src.remove(0);
            proof {
                assert(x == s0[i as int]);
                assert(src@ =~= s0.skip(i as int + 1));
            }
            let y = match x {
                Energy::Aux(a) => if a.id == id {
                    Energy::Aux(EAux { id: a.id, service, values: a.values, comment: a.comment })
                } else {
                    Energy::Aux(a)
                },
                other => other,
            };
            out.push(y);
            proof {
                assert(m[i as int] == with_aux_service(s0[i as int], id, service));
                assert(out@ =~= m.take(i as int + 1));
            }
            i = i + 1;
        }
        assert(m.take(i as int) =~= m);
        self.cdata = out;
    }

    /// Removes the auxiliary energy components of system `id`.
    pub fn remove_aux(&mut self, id: i32)
        ensures
            final(self).cdata@ == old(self).cdata@.filter(|e: Energy<T>| !picks(Pick::AuxOf(id), e)),
            final(self).cmeta == old(self).cmeta,
            final(self).building == old(self).building,
            final(self).zones == old(self).zones,
            // No auxiliary energy of the system is left
            forall|j: int|
                0 <= j < final(self).cdata@.len() ==> !(#[trigger] final(self).cdata@[j] is Aux
                    && final(self).cdata@[j].spec_id() == id),
            // and every other component stays
            forall|k: int|
                0 <= k < old(self).cdata@.len() && !(#[trigger] old(self).cdata@[k] is Aux
                    && old(self).cdata@[k].spec_id() == id)
                        ==> final(self).cdata@.contains(old(self).cdata@[k]),
    {
        let mut src: Vec<Energy<T>> = Vec::new();
        std::mem::swap(&mut src, &mut self.cdata);
        let ghost s0 = src@;
        let ghost keep = |e: Energy<T>| !picks(Pick::AuxOf(id), e);
        let mut out: Vec<Energy<T>> = Vec::new();
        let mut i: usize = 0;
        let n = src.len();
        assert(s0.skip(0) =~= s0);
        assert(s0.take(0) =~= Seq::<Energy<T>>::empty());
        proof {
            reveal(Seq::filter);
        }
        while src.len() > 0
            invariant
                n == s0.len(),
                i + src@.len() == s0.len(),
                src@ == s0.skip(i as int),
                keep == (|e: Energy<T>| !picks(Pick::AuxOf(id), e)),
                out@ == s0.take(i as int).filter(keep),
            decreases src@.len(),
        {
            let x = src.remove(0);
            proof {
                assert(x == s0[i as int]);
                assert(src@ =~= s0.skip(i as int + 1));
                assert(s0.take(i as int + 1).drop_last() =~= s0.take(i as int));
                assert(s0.take(i as int + 1).last() == x);
                reveal(Seq::filter);
            }
            if !pick(Pick::AuxOf(id), &x) {
                out.push(x);
            }
            i = i + 1;
        }
        assert(s0.take(i as int) =~= s0);
        proof {
            assert forall|j: int| 0 <= j < out@.len() implies !(#[trigger] out@[j] is Aux
                && out@[j].spec_id() == id) by {
                s0.lemma_filter_pred(keep, j);
            }
            assert forall|k: int|
                0 <= k < s0.len() && !(#[trigger] s0[k] is Aux
                    && s0[k].spec_id() == id) implies out@.contains(s0[k]) by {
                s0.lemma_filter_contains(keep, k);
            }
        }
        self.cdata = out;
    }
}

/// The comment of electricity production reassigned to a service: the original comment
/// followed by a note.
pub fn reassigned_production_comment(comment: &str) -> (r: String)
    ensures
        r@ == comment@ + " Producción eléctrica reasignada al servicio"@,
{
    concat(comment, " Producción eléctrica reasignada al servicio")
}

impl<T> Components<T> {
    /// Whether some component satisfies the condition.
    pub fn any_of(&self, p: Pick) -> (r: bool)
        ensures
            r == exists|k: int| 0 <= k < self.cdata@.len() && picks(p, #[trigger] self.cdata@[k]),
    {
        let mut k: usize = 0;
        while k < self.cdata.len()
            invariant
                k <= self.cdata@.len(),
                forall|j: int| 0 <= j < k ==> !picks(p, #[trigger] self.cdata@[j]),
            decreases self.cdata@.len() - k,
        {
            if pick(p, &self.cdata[k]) {
                return true;
            }
            k = k + 1;
        }
        false
    }
}

/// Whether the components give the energy that system `id` delivers for the service.
pub open spec fn has_output<T>(s: Seq<Energy<T>>, id: i32, srv: Service) -> bool {
    exists|k: int| 0 <= k < s.len() && picks(Pick::OutFor(id, srv), #[trigger] s[k])
}

/// The first of the systems that does not give the energy it delivers for the service.
pub open spec fn first_without_output<T>(s: Seq<Energy<T>>, ids: Seq<i32>, srv: Service) -> Option<i32>
    decreases ids.len(),
{
    if ids.len() == 0 {
        None
    } else if !has_output(s, ids[0], srv) {
        Some(ids[0])
    } else {
        first_without_output(s, ids.drop_first(), srv)
    }
}

/// The detail of the error for a system that uses biomass for domestic hot water without
/// giving the energy it delivers for that service.
pub open spec fn dhw_output_detail(id: i32) -> Seq<char> {
    "Uso de biomasa en el sistema con id:"@ + crate::record::int_text(id as int)
        + " sin definición de la energía entregada para el servicio de ACS."@
}

/// An element occurs in the distinct elements of `s` exactly when it occurs in `s`.
pub proof fn lemma_distinct_in_order_contains<A>(s: Seq<A>)
    ensures
        forall|x: A| distinct_in_order(s).contains(x) <==> s.contains(x),
    decreases s.len(),
{
    if s.len() > 0 {
        lemma_distinct_in_order_contains(s.drop_last());
        let r = distinct_in_order(s.drop_last());
        assert forall|x: A| distinct_in_order(s).contains(x) <==> s.contains(x) by {
            if s.contains(x) {
                let j = choose|j: int| 0 <= j < s.len() && s[j] == x;
                if j < s.len() - 1 {
                    assert(s.drop_last()[j] == x);
                }
            }
            if s.drop_last().contains(x) {
                let j = choose|j: int| 0 <= j < s.drop_last().len() && s.drop_last()[j] == x;
                assert(s[j] == x);
            }
            if !r.contains(s.last()) {
                assert(r.push(s.last())[r.len() as int] == s.last());
                if r.push(s.last()).contains(x) {
                    let j = choose|j: int| 0 <= j < r.len() + 1 && r.push(s.last())[j] == x;
                    if j < r.len() {
                        assert(r[j] == x);
                    }
                }
                if r.contains(x) {
                    let j = choose|j: int| 0 <= j < r.len() && r[j] == x;
                    assert(r.push(s.last())[j] == x);
                }
            }
        }
    }
}

/// An id occurs in `id_list(s, p)` exactly when some component of `s` that satisfies `p`
/// has it.
pub proof fn lemma_id_list_contains<T>(s: Seq<Energy<T>>, p: spec_fn(Energy<T>) -> bool)
    ensures
        forall|x: i32|
            id_list(s, p).contains(x) <==> exists|k: int|
                0 <= k < s.len() && p(#[trigger] s[k]) && s[k].spec_id() == x,
    decreases s.len(),
{
    if s.len() > 0 {
        let s0 = s.drop_last();
        lemma_id_list_contains(s0, p);
        let r = id_list(s0, p);
        assert(id_list(s, p) == if p(s.last()) {
            r.push(s.last().spec_id())
        } else {
            r
        });
        assert forall|x: i32|
            id_list(s, p).contains(x) <==> exists|k: int|
                0 <= k < s.len() && p(#[trigger] s[k]) && s[k].spec_id() == x by {
            if exists|k: int| 0 <= k < s.len() && p(#[trigger] s[k]) && s[k].spec_id() == x {
                let k = choose|k: int| 0 <= k < s.len() && p(#[trigger] s[k]) && s[k].spec_id() == x;
                if k < s.len() - 1 {
                    assert(s0.len() == s.len() - 1);
                    assert(s0[k] == s[k]);
                    assert(p(s0[k]));
                    assert(r.contains(x));
                    let j = choose|j: int| 0 <= j < r.len() && r[j] == x;
                    if p(s.last()) {
                        assert(r.push(s.last().spec_id())[j] == x);
                    }
                } else {
                    assert(r.push(s.last().spec_id())[r.len() as int] == x);
                }
            }
            if id_list(s, p).contains(x) {
                if p(s.last()) {
                    let j = choose|j: int|
                        0 <= j < r.len() + 1 && r.push(s.last().spec_id())[j] == x;
                    if j < r.len() {
                        assert(r[j] == x);
                        assert(r.contains(x));
                        let k = choose|k: int| 0 <= k < s0.len() && p(#[trigger] s0[k])
                            && s0[k].spec_id() == x;
                        assert(s[k] == s0[k]);
                        assert(p(s[k]));
                    } else {
                        assert(p(s[s.len() - 1]));
                        assert(s[s.len() - 1].spec_id() == x);
                    }
                } else {
                    assert(r.contains(x));
                    let k = choose|k: int| 0 <= k < s0.len() && p(#[trigger] s0[k])
                        && s0[k].spec_id() == x;
                    assert(s[k] == s0[k]);
                    assert(p(s[k]));
                }
            }
        }
    }
}

/// A service occurs in `service_list(s, p)` exactly when some component of `s` that
/// satisfies `p` has it.
pub proof fn lemma_service_list_contains<T>(s: Seq<Energy<T>>, p: spec_fn(Energy<T>) -> bool)
    ensures
        forall|x: Service|
            service_list(s, p).contains(x) <==> exists|k: int|
                0 <= k < s.len() && p(#[trigger] s[k]) && s[k].spec_service() == x,
    decreases s.len(),
{
    if s.len() > 0 {
        let s0 = s.drop_last();
        lemma_service_list_contains(s0, p);
        let r = service_list(s0, p);
        assert(service_list(s, p) == if p(s.last()) {
            r.push(s.last().spec_service())
        } else {
            r
        });
        assert forall|x: Service|
            service_list(s, p).contains(x) <==> exists|k: int|
                0 <= k < s.len() && p(#[trigger] s[k]) && s[k].spec_service() == x by {
            if exists|k: int| 0 <= k < s.len() && p(#[trigger] s[k]) && s[k].spec_service() == x {
                let k = choose|k: int| 0 <= k < s.len() && p(#[trigger] s[k])
                    && s[k].spec_service() == x;
                if k < s.len() - 1 {
                    assert(s0.len() == s.len() - 1);
                    assert(s0[k] == s[k]);
                    assert(p(s0[k]));
                    assert(r.contains(x));
                    let j = choose|j: int| 0 <= j < r.len() && r[j] == x;
                    if p(s.last()) {
                        assert(r.push(s.last().spec_service())[j] == x);
                    }
                } else {
                    assert(r.push(s.last().spec_service())[r.len() as int] == x);
                }
            }
            if service_list(s, p).contains(x) {
                if p(s.last()) {
                    let j = choose|j: int|
                        0 <= j < r.len() + 1 && r.push(s.last().spec_service())[j] == x;
                    if j < r.len() {
                        assert(r[j] == x);
                        assert(r.contains(x));
                        let k = choose|k: int| 0 <= k < s0.len() && p(#[trigger] s0[k])
                            && s0[k].spec_service() == x;
                        assert(s[k] == s0[k]);
                        assert(p(s[k]));
                    } else {
                        assert(p(s[s.len() - 1]));
                        assert(s[s.len() - 1].spec_service() == x);
                    }
                } else {
                    assert(r.contains(x));
                    let k = choose|k: int| 0 <= k < s0.len() && p(#[trigger] s0[k])
                        && s0[k].spec_service() == x;
                    assert(s[k] == s0[k]);
                    assert(p(s[k]));
                }
            }
        }
    }
}

/// The distinct elements of a sequence hold no element twice.
pub proof fn lemma_distinct_in_order_no_duplicates<A>(s: Seq<A>)
    ensures
        distinct_in_order(s).no_duplicates(),
    decreases s.len(),
{
    if s.len() > 0 {
        lemma_distinct_in_order_no_duplicates(s.drop_last());
        let r = distinct_in_order(s.drop_last());
        if !r.contains(s.last()) {
            let q = r.push(s.last());
            assert forall|i: int, j: int| 0 <= i < q.len() && 0 <= j < q.len()
                && i != j implies q[i] != q[j] by {
                if i < r.len() && j < r.len() {
                    assert(q[i] == r[i] && q[j] == r[j]);
                } else if i == r.len() {
                    assert(q[j] == r[j]);
                } else {
                    assert(q[i] == r[i]);
                }
            }
        }
    }
}

/// The first system without output is none exactly when every system of the list gives
/// its output for the service; when there is one, it is in the list and gives none.
pub proof fn lemma_first_without_output<T>(s: Seq<Energy<T>>, ids: Seq<i32>, srv: Service)
    ensures
        first_without_output(s, ids, srv) is None <==> forall|j: int|
            0 <= j < ids.len() ==> has_output(s, #[trigger] ids[j], srv),
        match first_without_output(s, ids, srv) {
            Some(id) => ids.contains(id) && !has_output(s, id, srv),
            None => true,
        },
    decreases ids.len(),
{
    if ids.len() > 0 {
        let t = ids.drop_first();
        lemma_first_without_output(s, t, srv);
        if has_output(s, ids[0], srv) {
            assert forall|j: int| 0 <= j < t.len() implies ids[j + 1] == #[trigger] t[j] by {}
            if first_without_output(s, t, srv) is None {
                assert forall|j: int| 0 <= j < ids.len() implies has_output(s, #[trigger] ids[j], srv) by {
                    if j > 0 {
                        assert(ids[j] == t[j - 1]);
                    }
                }
            } else {
                let j = choose|j: int| 0 <= j < t.len() && !has_output(s, #[trigger] t[j], srv);
                assert(ids[j + 1] == t[j]);
            }
            if let Some(id) = first_without_output(s, t, srv) {
                let j = choose|j: int| 0 <= j < t.len() && t[j] == id;
                assert(ids[j + 1] == id);
            }
        } else {
            assert(ids[0] == ids[0]);
        }
    }
}

/// The systems that use a carrier for domestic hot water are listed, each of them giving
/// its output for that service, exactly when every one of them does: a system that uses
/// the carrier for that service without giving its output makes the check fail, with the
/// detail of some such system.
pub proof fn lemma_dhw_systems_checked<T>(c: Seq<Energy<T>>, carrier: Carrier)
    ensures
        ({
            let p = |e: Energy<T>| picks(Pick::UseFor(carrier, Service::ACS), e);
            let ids = distinct_in_order(id_list(c, p));
            &&& forall|x: i32|
                ids.contains(x) <==> exists|k: int|
                    0 <= k < c.len() && picks(Pick::UseFor(carrier, Service::ACS), #[trigger] c[k])
                        && c[k].spec_id() == x
            &&& first_without_output(c, ids, Service::ACS) is None <==> forall|k: int|
                0 <= k < c.len()
                    && picks(Pick::UseFor(carrier, Service::ACS), #[trigger] c[k]) ==> has_output(
                    c,
                    c[k].spec_id(),
                    Service::ACS,
                )
            &&& match first_without_output(c, ids, Service::ACS) {
                Some(id) => exists|k: int|
                    0 <= k < c.len() && picks(Pick::UseFor(carrier, Service::ACS), #[trigger] c[k])
                        && c[k].spec_id() == id && !has_output(c, id, Service::ACS),
                None => true,
            }
        }),
{
    let p = |e: Energy<T>| picks(Pick::UseFor(carrier, Service::ACS), e);
    let l = id_list(c, p);
    let ids = distinct_in_order(l);
    lemma_id_list_contains(c, p);
    lemma_distinct_in_order_contains(l);
    lemma_first_without_output(c, ids, Service::ACS);
    assert forall|x: i32|
        ids.contains(x) <==> exists|k: int|
            0 <= k < c.len() && picks(Pick::UseFor(carrier, Service::ACS), #[trigger] c[k])
                && c[k].spec_id()
                == x by {
        assert(l.contains(x) == ids.contains(x));
        if exists|k: int| 0 <= k < c.len() && picks(Pick::UseFor(carrier, Service::ACS), #[trigger] c[k])
            && c[k].spec_id() == x {
            let k = choose|k: int|
                0 <= k < c.len() && picks(Pick::UseFor(carrier, Service::ACS), #[trigger] c[k])
                    && c[k].spec_id()
                    == x;
            assert(p(c[k]));
        }
        if l.contains(x) {
            let k = choose|k: int| 0 <= k < c.len() && p(#[trigger] c[k]) && c[k].spec_id() == x;
            assert(picks(Pick::UseFor(carrier, Service::ACS), c[k]));
        }
    }
    if first_without_output(c, ids, Service::ACS) is None {
        assert forall|k: int|
            0 <= k < c.len()
                && picks(Pick::UseFor(carrier, Service::ACS), #[trigger] c[k]) implies has_output(
            c,
            c[k].spec_id(),
            Service::ACS,
        ) by {
            assert(ids.contains(c[k].spec_id()));
            let j = choose|j: int| 0 <= j < ids.len() && ids[j] == c[k].spec_id();
            assert(has_output(c, ids[j], Service::ACS));
        }
    } else {
        let j = choose|j: int| 0 <= j < ids.len() && !has_output(c, #[trigger] ids[j], Service::ACS);
        assert(ids.contains(ids[j]));
    }
    if let Some(id) = first_without_output(c, ids, Service::ACS) {
        assert(ids.contains(id));
    }
}

impl<T> Components<T> {
    /// The systems that use the (biomass) carrier for domestic hot water (ACS), in order,
    /// when each of them gives the energy that it delivers for that service; otherwise the
    /// `WrongInput` error for the first one that does not.
    pub fn dhw_biomass_systems(&self, carrier: Carrier) -> (r: Result<Vec<i32>, EpbdError>)
        ensures
            ({
                let ids = distinct_in_order(
                    id_list(self.cdata@, |e: Energy<T>| picks(Pick::UseFor(carrier, Service::ACS), e)),
                );
                match first_without_output(self.cdata@, ids, Service::ACS) {
                    None => r matches Ok(v) && v@ == ids,
                    Some(id) => r matches Err(EpbdError::WrongInput(m)) && m@ == dhw_output_detail(id),
                }
            }),
            // A system that uses the carrier for ACS without giving its output makes it fail
            forall|k: int|
                0 <= k < self.cdata@.len()
                    && picks(Pick::UseFor(carrier, Service::ACS), #[trigger] self.cdata@[k])
                    && !has_output(self.cdata@, self.cdata@[k].spec_id(), Service::ACS) ==> r is Err,
            // When it succeeds, it lists each system that uses the carrier for ACS, and no other,
            // and each of them gives its output
            r is Ok ==> (forall|k: int|
                0 <= k < self.cdata@.len()
                    && picks(Pick::UseFor(carrier, Service::ACS), #[trigger] self.cdata@[k])
                    ==> r->Ok_0@.contains(self.cdata@[k].spec_id()) && has_output(
                    self.cdata@,
                    self.cdata@[k].spec_id(),
                    Service::ACS,
                )) && (forall|x: i32|
                r->Ok_0@.contains(x) ==> exists|k: int|
                    0 <= k < self.cdata@.len() && picks(
                        Pick::UseFor(carrier, Service::ACS),
                        #[trigger] self.cdata@[k],
                    ) && self.cdata@[k].spec_id() == x),
            // When it fails, it is for a system that uses the carrier for ACS without output
            r is Err ==> exists|k: int|
                0 <= k < self.cdata@.len()
                    && picks(Pick::UseFor(carrier, Service::ACS), #[trigger] self.cdata@[k])
                    && !has_output(self.cdata@, self.cdata@[k].spec_id(), Service::ACS)
                    && (r->Err_0 matches EpbdError::WrongInput(m)
                        && m@ == dhw_output_detail(self.cdata@[k].spec_id())),
    {
        proof {
            lemma_dhw_systems_checked(self.cdata@, carrier);
        }
        let ids = self.ids_of(Pick::UseFor(carrier, Service::ACS));
        let mut i: usize = 0;
        assert(ids@.skip(0) =~= ids@);
        while i < ids.len()
            invariant
                i <= ids@.len(),
                ids@ == distinct_in_order(
                    id_list(self.cdata@, |e: Energy<T>| picks(Pick::UseFor(carrier, Service::ACS), e)),
                ),
                first_without_output(self.cdata@, ids@, Service::ACS) == first_without_output(
                    self.cdata@,
                    ids@.skip(i as int),
                    Service::ACS,
                ),
            decreases ids@.len() - i,
        {
            let id = ids[i];
            proof {
                assert(ids@.skip(i as int)[0] == id);
                assert(ids@.skip(i as int).drop_first() =~= ids@.skip(i as int + 1));
            }
            if !self.any_of(Pick::OutFor(id, Service::ACS)) {
                let mut m = chars_of("Uso de biomasa en el sistema con id:");
                let idc = crate::record::i32_chars(id);
                append_chars(&mut m, idc.as_slice());
                let tail = chars_of(" sin definición de la energía entregada para el servicio de ACS.");
                append_chars(&mut m, tail.as_slice());
                let e = string_of(m.as_slice());
                proof {
                    let c = self.cdata@;
                    assert(first_without_output(c, ids@.skip(i as int), Service::ACS) == Some(id));
                    assert(first_without_output(c, ids@, Service::ACS) == Some(id));
                    assert(first_without_output(
                        c,
                        distinct_in_order(id_list(c, |e: Energy<T>| picks(Pick::UseFor(carrier, Service::ACS), e))),
                        Service::ACS,
                    ) == Some(id));
                    lemma_dhw_systems_checked(c, carrier);
                    let k = choose|k: int|
                        0 <= k < c.len() && picks(Pick::UseFor(carrier, Service::ACS), #[trigger] c[k])
                            && c[k].spec_id() == id && !has_output(c, id, Service::ACS);
                    assert(picks(Pick::UseFor(carrier, Service::ACS), self.cdata@[k]));
                }
                return Err(EpbdError::WrongInput(e));
            }
            i = i + 1;
        }
        Ok(ids)
    }
}

// ------------------------------------------------------------ the text of components reads back

/// A record line of at least three plain fields without line breaks, the first one a number,
/// is a trimmed line without line breaks, whose first piece is the first field and whose
/// second piece is the second field.
pub(crate) proof fn lemma_record_line_shape(f: Seq<Seq<char>>, comment: Seq<char>)
    requires
        f.len() >= 3,
        forall|i: int| 0 <= i < f.len() ==> crate::record::plain_field(#[trigger] f[i]),
        forall|i: int| 0 <= i < f.len() ==> !(#[trigger] f[i]).contains('\n'),
        f[0][0] == '-' || crate::record::is_digit(f[0][0]),
        trim(comment) == comment,
        !comment.contains('\n'),
    ensures
        ({
            let t = crate::record::record_text(f, comment);
            &&& !t.contains('\n')
            &&& trim(t) == t
            &&& t.len() > 0
            &&& t[0] == f[0][0]
            &&& first_tag(t) == f[0]
            &&& second_tag(t) == f[1]
        }),
{
    reveal_strlit(", ");
    reveal_strlit(" # ");
    let t = crate::record::record_text(f, comment);
    let j = join(f, ", "@);
    assert(", "@ =~= seq![',', ' ']);
    assert(" # "@ =~= seq![' ', '#', ' ']);
    assert(!", "@.contains('\n'));
    assert forall|i: int| 0 <= i < f.len() implies (#[trigger] f[i]).len() > 0 by {
        assert(crate::record::plain_field(f[i]));
    }
    crate::record::lemma_join_shape(f, ", "@, '\n');
    assert(crate::record::plain_field(f[f.len() - 1]));
    assert(crate::record::plain_field(f[0]));
    assert(crate::record::plain_field(f[1]));
    crate::text::lemma_trimmed_ends(f.last());
    crate::text::lemma_trimmed_ends(f[0]);
    // the text, its first and last characters
    let tail: Seq<char> = if comment.len() == 0 {
        Seq::empty()
    } else {
        seq![' ', '#', ' '] + comment
    };
    assert(t =~= j + tail);
    assert(!tail.contains('\n')) by {
        if tail.contains('\n') {
            let k = choose|k: int| 0 <= k < tail.len() && tail[k] == '\n';
            assert(comment[k - 3] == '\n');
        }
    }
    assert(!t.contains('\n')) by {
        if t.contains('\n') {
            let k = choose|k: int| 0 <= k < t.len() && t[k] == '\n';
            if k < j.len() {
                assert(j[k] == '\n');
            } else {
                assert(tail[k - j.len()] == '\n');
            }
        }
    }
    assert(t[0] == f[0][0]);
    if comment.len() > 0 {
        crate::text::lemma_trimmed_ends(comment);
        assert(t.last() == comment.last());
    } else {
        assert(t.last() == f.last().last());
    }
    assert(!crate::text::is_ws(t[0]));
    crate::record::lemma_trim_fixed(t);
    // the pieces before and after the first comma
    crate::record::lemma_join_front(f, ", "@);
    let rest = f.drop_first();
    crate::record::lemma_join_front(rest, ", "@);
    let after = seq![' '] + f[1] + seq![','] + (seq![' '] + join(rest.drop_first(), ", "@) + tail);
    assert(t =~= f[0] + seq![','] + after);
    assert(!f[0].contains(','));
    crate::text::lemma_prefix_until_concat(f[0], ',', after);
    assert(t.skip(f[0].len() as int + 1) =~= after);
    assert(!(seq![' '] + f[1]).contains(',')) by {
        if (seq![' '] + f[1]).contains(',') {
            let k = choose|k: int| 0 <= k < (seq![' '] + f[1]).len() && (seq![' '] + f[1])[k] == ',';
            assert(f[1][k - 1] == ',');
        }
    }
    crate::text::lemma_prefix_until_concat(
        seq![' '] + f[1],
        ',',
        seq![' '] + join(rest.drop_first(), ", "@) + tail,
    );
    crate::text::lemma_trim_skip_ws(' ', f[1]);
}

/// An energy component whose line reads back as itself among components: its values are
/// numbers written as plain fields, it has at least one value, its comment is trimmed, no
/// text holds a line break, and auxiliary energy is still of the `NEPB` service (its line
/// does not write the service).
pub open spec fn reads_back(e: Energy<String>) -> bool {
    &&& crate::types::energy::plain_values_comment(e.spec_values(), e.spec_comment())
    &&& e.spec_values().len() > 0
    &&& forall|i: int|
        0 <= i < e.spec_values().len() ==> !(#[trigger] crate::record::texts(e.spec_values())[i]).contains(
            '\n',
        )
    &&& !e.spec_comment().contains('\n')
    &&& (e is Aux ==> e.spec_service() == Service::NEPB)
}

/// The first characters of the kind tags are letters.
pub(crate) proof fn lemma_tag_initials()
    ensures
        "CONSUMO"@[0] == 'C',
        "PRODUCCION"@[0] == 'P',
        "AUX"@[0] == 'A',
        "SALIDA"@[0] == 'S',
        "EDIFICIO"@[0] == 'E',
        "ZONA"@[0] == 'Z',
        "SISTEMA"@[0] == 'S',
        "#"@ =~= seq!['#'],
        "vector,"@[0] == 'v',
        "#META"@[0] == '#',
        "#CTE_"@[0] == '#',
        "vector,"@.len() == 7,
        "#META"@.len() == 5,
        "#CTE_"@.len() == 5,
{
    reveal_strlit("CONSUMO");
    reveal_strlit("PRODUCCION");
    reveal_strlit("AUX");
    reveal_strlit("SALIDA");
    reveal_strlit("EDIFICIO");
    reveal_strlit("ZONA");
    reveal_strlit("SISTEMA");
    reveal_strlit("#");
    reveal_strlit("vector,");
    reveal_strlit("#META");
    reveal_strlit("#CTE_");
}

/// A line that begins with a number is a data line and no metadata line, and a piece that
/// begins with a number names no kind.
proof fn lemma_number_line(t: Seq<char>, f0: Seq<char>)
    requires
        t.len() > 0,
        f0.len() > 0,
        t[0] == f0[0],
        t[0] == '-' || crate::record::is_digit(t[0]),
    ensures
        is_data_line(t),
        !is_meta_line(t),
        !is_kind_tag(f0),
{
    lemma_tag_initials();
    if begins_with(t, "#"@) {
        assert(t.take(1)[0] == t[0]);
    }
    if begins_with(t, "vector,"@) {
        assert(t.take(7)[0] == t[0]);
    }
    if begins_with(t, "#META"@) {
        assert(t.take(5)[0] == t[0]);
    }
    if begins_with(t, "#CTE_"@) {
        assert(t.take(5)[0] == t[0]);
    }
}

/// The line of an energy component that reads back is a data line of its kind, without
/// error, that reads as the component.
proof fn lemma_energy_line(e: Energy<String>)
    requires
        reads_back(e),
    ensures
        ({
            let t = e.spec_text();
            &&& !t.contains('\n')
            &&& trim(t) == t
            &&& is_data_line(t)
            &&& !is_meta_line(t)
            &&& is_energy_tag(line_tag(t))
            &&& !is_system_line(t)
            &&& data_line_error(t) is None
            &&& energy_read(e, t)
            &&& energy_steps(t) == e.spec_values().len()
        }),
{
    lemma_tags_distinct();
    reveal_strlit("CONSUMO");
    reveal_strlit("PRODUCCION");
    reveal_strlit("AUX");
    reveal_strlit("SALIDA");
    reveal_strlit("SISTEMA");
    let t = e.spec_text();
    let vals = crate::record::texts(e.spec_values());
    match e {
        Energy::Used(x) => {
            let f = crate::types::energy::used_fields(x);
            crate::record::lemma_int_text_plain(x.id as int);
            crate::types::energy::lemma_plain_name_list("CONSUMO"@);
            Service::lemma_name_plain(x.service);
            Carrier::lemma_name_plain(x.carrier);
            assert forall|i: int| 0 <= i < f.len() implies crate::record::plain_field(#[trigger] f[i])
                && !f[i].contains('\n') by {
                if i >= 4 {
                    assert(f[i] == vals[i - 4]);
                }
            }
            lemma_record_line_shape(f, x.comment@);
            lemma_number_line(t, f[0]);
            crate::types::energy::EUsed::lemma_text_roundtrip(x);
            let ff = fields_of(t);
            assert(x.values@.len() == crate::record::texts(x.values@).len());
        },
        Energy::Prod(x) => {
            let f = crate::types::energy::prod_fields(x);
            crate::record::lemma_int_text_plain(x.id as int);
            crate::types::energy::lemma_plain_name_list("PRODUCCION"@);
            ProdSource::lemma_name_plain(x.source);
            assert forall|i: int| 0 <= i < f.len() implies crate::record::plain_field(#[trigger] f[i])
                && !f[i].contains('\n') by {
                if i >= 3 {
                    assert(f[i] == vals[i - 3]);
                }
            }
            lemma_record_line_shape(f, x.comment@);
            lemma_number_line(t, f[0]);
            crate::types::energy::EProd::lemma_text_roundtrip(x);
            assert(x.values@.len() == crate::record::texts(x.values@).len());
        },
        Energy::Aux(x) => {
            let f = crate::types::energy::aux_fields(x);
            crate::record::lemma_int_text_plain(x.id as int);
            crate::types::energy::lemma_plain_name_list("AUX"@);
            assert forall|i: int| 0 <= i < f.len() implies crate::record::plain_field(#[trigger] f[i])
                && !f[i].contains('\n') by {
                if i >= 2 {
                    assert(f[i] == vals[i - 2]);
                }
            }
            lemma_record_line_shape(f, x.comment@);
            lemma_number_line(t, f[0]);
            crate::types::energy::EAux::lemma_text_roundtrip(x);
            assert(x.values@.len() == crate::record::texts(x.values@).len());
        },
        Energy::Out(x) => {
            let f = crate::types::energy::out_fields(x);
            crate::record::lemma_int_text_plain(x.id as int);
            crate::types::energy::lemma_plain_name_list("SALIDA"@);
            Service::lemma_name_plain(x.service);
            assert forall|i: int| 0 <= i < f.len() implies crate::record::plain_field(#[trigger] f[i])
                && !f[i].contains('\n') by {
                if i >= 3 {
                    assert(f[i] == vals[i - 3]);
                }
            }
            lemma_record_line_shape(f, x.comment@);
            lemma_number_line(t, f[0]);
            crate::types::energy::EOut::lemma_text_roundtrip(x);
            assert(x.values@.len() == crate::record::texts(x.values@).len());
        },
    }
}

/// Selecting lines distributes over concatenation.
pub(crate) proof fn lemma_tagged_append(a: Seq<Seq<char>>, b: Seq<Seq<char>>, p: spec_fn(Seq<char>) -> bool)
    ensures
        tagged_lines(a + b, p) == tagged_lines(a, p) + tagged_lines(b, p),
    decreases b.len(),
{
    if b.len() == 0 {
        assert(a + b =~= a);
        assert(tagged_lines(b, p) =~= Seq::<Seq<char>>::empty());
        assert(tagged_lines(a, p) + tagged_lines(b, p) =~= tagged_lines(a, p));
    } else {
        lemma_tagged_append(a, b.drop_last(), p);
        assert((a + b).drop_last() =~= a + b.drop_last());
        assert((a + b).last() == b.last());
        let x = b.last();
        if is_data_line(x) && p(line_tag(x)) {
            assert(tagged_lines(a, p) + tagged_lines(b.drop_last(), p).push(x) =~= (tagged_lines(a, p)
                + tagged_lines(b.drop_last(), p)).push(x));
        }
    }
}

/// No line is selected when none is a data line of a selected kind.
pub(crate) proof fn lemma_tagged_none(a: Seq<Seq<char>>, p: spec_fn(Seq<char>) -> bool)
    requires
        forall|i: int| 0 <= i < a.len() ==> !(is_data_line(#[trigger] a[i]) && p(line_tag(a[i]))),
    ensures
        tagged_lines(a, p) == Seq::<Seq<char>>::empty(),
    decreases a.len(),
{
    if a.len() > 0 {
        assert(a[a.len() - 1] == a.last());
        lemma_tagged_none(a.drop_last(), p);
    }
}

/// Every line is selected when all are data lines of a selected kind.
pub(crate) proof fn lemma_tagged_all(a: Seq<Seq<char>>, p: spec_fn(Seq<char>) -> bool)
    requires
        forall|i: int| 0 <= i < a.len() ==> is_data_line(#[trigger] a[i]) && p(line_tag(a[i])),
    ensures
        tagged_lines(a, p) == a,
    decreases a.len(),
{
    if a.len() > 0 {
        assert(a[a.len() - 1] == a.last());
        lemma_tagged_all(a.drop_last(), p);
        assert(a.drop_last().push(a.last()) =~= a);
    }
}

/// Lines that are no metadata lines do not change what the metadata lines read as.
pub(crate) proof fn lemma_read_metas_append(a: Seq<Seq<char>>, b: Seq<Seq<char>>)
    requires
        forall|i: int| 0 <= i < b.len() ==> !is_meta_line(#[trigger] b[i]),
    ensures
        read_metas(a + b) == read_metas(a),
    decreases b.len(),
{
    if b.len() == 0 {
        assert(a + b =~= a);
    } else {
        assert(b[b.len() - 1] == b.last());
        lemma_read_metas_append(a, b.drop_last());
        assert((a + b).drop_last() =~= a + b.drop_last());
        assert((a + b).last() == b.last());
    }
}

/// Metadata that reads back: a canonical key and value, without line breaks.
pub open spec fn meta_reads_back(m: Meta) -> bool {
    &&& crate::types::meta::canonical_meta(m.key@, m.value@)
    &&& !m.key@.contains('\n')
    &&& !m.value@.contains('\n')
}

/// The text of metadata that reads back has no line break and, trimmed, is a metadata line.
pub(crate) proof fn lemma_meta_line(m: Meta)
    requires
        meta_reads_back(m),
    ensures
        !m.spec_text().contains('\n'),
        is_meta_line(trim(m.spec_text())),
        !is_data_line(trim(m.spec_text())),
        spec_meta_parse(trim(m.spec_text())) == Some((m.key@, m.value@)),
{
    reveal_strlit("#META ");
    reveal_strlit(": ");
    lemma_tag_initials();
    crate::types::meta::lemma_meta_text_roundtrip(m);
    let t = m.spec_text();
    let l = trim(t);
    assert(l.take(5) == "#META"@);
    assert(l[0] == l.take(5)[0]);
    assert(begins_with(l, "#"@)) by {
        assert(l.take(1) =~= seq!['#']);
    }
    lemma_trim_idempotent(t);
    assert("#META "@ =~= seq!['#', 'M', 'E', 'T', 'A', ' ']);
    assert(": "@ =~= seq![':', ' ']);
    assert(!t.contains('\n')) by {
        if t.contains('\n') {
            let k = choose|k: int| 0 <= k < t.len() && t[k] == '\n';
            let key = m.key@;
            if k < 6 {
            } else if k < 6 + key.len() {
                assert(key[k - 6] == '\n');
            } else if k < 8 + key.len() {
            } else {
                assert(m.value@[k - 8 - key.len()] == '\n');
            }
        }
    }
}

/// The trimmed texts of metadata that reads back read as that metadata.
pub(crate) proof fn lemma_read_metas_all(ms: Seq<Meta>)
    requires
        forall|i: int| 0 <= i < ms.len() ==> meta_reads_back(#[trigger] ms[i]),
    ensures
        read_metas(trim_all(ms.map_values(|m: Meta| m.spec_text()))) == Ok::<_, Seq<char>>(
            metas_view(ms),
        ),
    decreases ms.len(),
{
    let ls = trim_all(ms.map_values(|m: Meta| m.spec_text()));
    if ms.len() == 0 {
        assert(ls =~= Seq::<Seq<char>>::empty());
        assert(metas_view(ms) =~= Seq::<(Seq<char>, Seq<char>)>::empty());
    } else {
        let q = ms.drop_last();
        assert forall|i: int| 0 <= i < q.len() implies meta_reads_back(#[trigger] q[i]) by {
            assert(q[i] == ms[i]);
        }
        lemma_read_metas_all(q);
        assert(ls.drop_last() =~= trim_all(q.map_values(|m: Meta| m.spec_text())));
        assert(ms[ms.len() - 1] == ms.last());
        lemma_meta_line(ms.last());
        assert(ls.last() == trim(ms.last().spec_text()));
        assert(metas_view(ms) =~= metas_view(q).push((ms.last().key@, ms.last().value@)));
    }
}

/// Components whose text reads back as themselves: no needs (the text does not write
/// them), metadata and energy components that read back, and the same number of values in
/// every energy component.
pub open spec fn components_read_back(c: Components<String>) -> bool {
    &&& c.building@.len() == 0
    &&& c.zones@.len() == 0
    &&& forall|i: int| 0 <= i < c.cmeta@.len() ==> meta_reads_back(#[trigger] c.cmeta@[i])
    &&& forall|i: int| 0 <= i < c.cdata@.len() ==> reads_back(#[trigger] c.cdata@[i])
    &&& forall|i: int|
        0 <= i < c.cdata@.len() ==> (#[trigger] c.cdata@[i]).spec_values().len()
            == c.cdata@[0].spec_values().len()
}

/// A join of pieces whose first piece is not empty begins with that piece's first character.
pub(crate) proof fn lemma_join_first(p: Seq<Seq<char>>, sep: Seq<char>)
    requires
        p.len() > 0,
        p[0].len() > 0,
    ensures
        join(p, sep).len() > 0,
        join(p, sep)[0] == p[0][0],
{
    if p.len() >= 2 {
        crate::record::lemma_join_front(p, sep);
    }
}

/// The trimmed lines of the text of components that read back: the metadata lines (one
/// empty line without metadata), then the energy lines.
proof fn lemma_components_lines(c: Components<String>)
    requires
        components_read_back(c),
    ensures
        ({
            let mt = c.cmeta@.map_values(|m: Meta| m.spec_text());
            let et = c.cdata@.map_values(|e: Energy<String>| e.spec_text());
            let a: Seq<Seq<char>> = if mt.len() == 0 {
                seq![Seq::<char>::empty()]
            } else {
                trim_all(mt)
            };
            text_lines(c.spec_text()) == a + et
        }),
{
    reveal_strlit("\n");
    let mt = c.cmeta@.map_values(|m: Meta| m.spec_text());
    let et = c.cdata@.map_values(|e: Energy<String>| e.spec_text());
    let jm = join(mt, "\n"@);
    let jd = join(et, "\n"@);
    let text = c.spec_text();
    assert("\n"@ =~= seq!['\n']);
    assert(text =~= jm + seq!['\n'] + jd);
    assert forall|i: int| 0 <= i < mt.len() implies !(#[trigger] mt[i]).contains('\n') by {
        lemma_meta_line(c.cmeta@[i]);
    }
    assert forall|i: int| 0 <= i < et.len() implies !(#[trigger] et[i]).contains('\n') && et[i].len()
        > 0 && trim(et[i]) == et[i] by {
        lemma_energy_line(c.cdata@[i]);
        assert(is_data_line(c.cdata@[i].spec_text()));
    }
    crate::record::lemma_split_concat(jm, jd, '\n');
    crate::record::lemma_split_join_char(mt, '\n');
    crate::record::lemma_split_join_char(et, '\n');
    let a0: Seq<Seq<char>> = if mt.len() == 0 {
        seq![Seq::<char>::empty()]
    } else {
        mt
    };
    let b0: Seq<Seq<char>> = if et.len() == 0 {
        seq![Seq::<char>::empty()]
    } else {
        et
    };
    assert(crate::text::split_on(text, '\n') == a0 + b0);
    // the byte order mark
    if mt.len() > 0 {
        reveal_strlit("#META ");
        assert(mt[0] == "#META "@ + c.cmeta@[0].key@ + ": "@ + c.cmeta@[0].value@);
        assert(mt[0][0] == '#');
        lemma_join_first(mt, "\n"@);
        assert(text[0] == '#');
    } else {
        assert(jm =~= Seq::<char>::empty());
        assert(text[0] == '\n');
    }
    assert(strip_bom(text) == text);
    // the final piece
    let r = a0 + b0;
    if et.len() == 0 {
        assert(r.last() == Seq::<char>::empty());
        assert(r.drop_last() =~= a0);
        assert(lines_of(text) == a0);
        assert(a0 + et =~= a0);
    } else {
        assert(r.last() == et.last());
        assert(et[et.len() - 1].len() > 0);
        assert(lines_of(text) == a0 + et);
    }
    assert(lines_of(text) == a0 + et);
    assert(trim_all(a0 + et) =~= trim_all(a0) + trim_all(et));
    assert(trim_all(et) =~= et);
    if mt.len() == 0 {
        assert(trim_all(a0) =~= seq![trim(Seq::<char>::empty())]);
        assert(trim(Seq::<char>::empty()) =~= Seq::<char>::empty());
    }
}

/// Reading the text of components that read back gives them back: their metadata, in
/// order, and their energy components, each read from its line, in order.
pub proof fn lemma_components_text_roundtrip(c: Components<String>)
    requires
        components_read_back(c),
    ensures
        !components_stop_at_system(c.spec_text()),
        components_error(c.spec_text()) is None,
        components_read(c, c.spec_text()),
{
    lemma_tag_initials();
    lemma_tags_distinct();
    lemma_components_lines(c);
    let mt = c.cmeta@.map_values(|m: Meta| m.spec_text());
    let et = c.cdata@.map_values(|e: Energy<String>| e.spec_text());
    let a: Seq<Seq<char>> = if mt.len() == 0 {
        seq![Seq::<char>::empty()]
    } else {
        trim_all(mt)
    };
    let ls = text_lines(c.spec_text());
    assert(ls == a + et);
    // facts on each line
    assert forall|i: int| 0 <= i < a.len() implies !is_data_line(#[trigger] a[i]) by {
        if mt.len() > 0 {
            lemma_meta_line(c.cmeta@[i]);
        }
    }
    assert forall|i: int| 0 <= i < et.len() implies ({
        let t = #[trigger] et[i];
        &&& is_data_line(t)
        &&& !is_meta_line(t)
        &&& is_energy_tag(line_tag(t))
        &&& !is_system_line(t)
        &&& data_line_error(t) is None
        &&& energy_read(c.cdata@[i], t)
        &&& energy_steps(t) == c.cdata@[i].spec_values().len()
    }) by {
        lemma_energy_line(c.cdata@[i]);
    }
    // metadata
    lemma_read_metas_append(a, et);
    if mt.len() > 0 {
        lemma_read_metas_all(c.cmeta@);
        assert(read_metas(a) == Ok::<_, Seq<char>>(metas_view(c.cmeta@)));
    } else {
        assert(a.drop_last() =~= Seq::<Seq<char>>::empty());
        assert(metas_view(c.cmeta@) =~= Seq::<(Seq<char>, Seq<char>)>::empty());
        assert(!is_meta_line(a.last())) by {
            if begins_with(a.last(), "#META"@) {
            }
        }
        assert(read_metas(a.drop_last()) == Ok::<_, Seq<char>>(Seq::<(Seq<char>, Seq<char>)>::empty()));
        assert(read_metas(a) == Ok::<_, Seq<char>>(metas_view(c.cmeta@)));
    }
    // no line stops the reading
    assert forall|j: int| 0 <= j < ls.len() implies !is_problem(#[trigger] ls[j]) by {
        if j < a.len() {
            assert(ls[j] == a[j]);
        } else {
            assert(ls[j] == et[j - a.len()]);
        }
    }
    lemma_first_problem(ls, ls.len() as int);
    // the selected lines
    let pe = |t: Seq<char>| is_energy_tag(t);
    let pb = |t: Seq<char>| t == "EDIFICIO"@;
    let pz = |t: Seq<char>| t == "ZONA"@;
    lemma_tagged_append(a, et, pe);
    lemma_tagged_append(a, et, pb);
    lemma_tagged_append(a, et, pz);
    lemma_tagged_none(a, pe);
    lemma_tagged_none(a, pb);
    lemma_tagged_none(a, pz);
    lemma_tagged_all(et, pe);
    lemma_tagged_none(et, pb);
    lemma_tagged_none(et, pz);
    assert(energy_lines(ls) =~= et);
    assert(building_lines(ls) =~= Seq::<Seq<char>>::empty());
    assert(zone_lines(ls) =~= Seq::<Seq<char>>::empty());
    // the number of values
    assert(same_steps(energy_lines(ls))) by {
        assert forall|i: int| 0 <= i < et.len() implies energy_steps(#[trigger] et[i]) == energy_steps(
            et[0],
        ) by {
            assert(c.cdata@[i].spec_values().len() == c.cdata@[0].spec_values().len());
        }
    }
    assert(read_metas(ls) == Ok::<_, Seq<char>>(metas_view(c.cmeta@)));
    assert(first_problem(ls) == ls.len());
    assert(c.cdata@.len() == energy_lines(ls).len());
    assert forall|k: int| 0 <= k < c.cdata@.len() implies energy_read(
        #[trigger] c.cdata@[k],
        energy_lines(ls)[k],
    ) by {
        assert(energy_lines(ls)[k] == et[k]);
    }
}

} // verus!
