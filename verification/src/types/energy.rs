//! Energy components: energy used, produced, used by auxiliary equipment, and delivered or
//! absorbed, for a system and for each step of the calculation period.
//!
//! The components are generic over the type of their values. Their text form is read and
//! written with each value as a text field; turning those fields into numbers is left to
//! the caller.

use vstd::prelude::*;

use crate::error::{is_parse_error, EpbdError};
use crate::number::{find_non_number, first_non_number, is_number_text, lemma_all_numbers, number_error, number_error_text};
use crate::record::{
    chars_each, comment_of, fields_of, i32_chars, i32_of_text, int_text, lemma_i32_text_roundtrip,
    lemma_int_text_plain, lemma_record_roundtrip, parse_i32, plain_field, record_line,
    record_text, split_record, strings_from, texts, views,
};
use crate::text::{chars_eq, chars_of, concat, string_of, trim};
use crate::types::{Carrier, ProdSource, Service, Source};

verus! {

broadcast use vstd::string::group_string_axioms;

/// Energy used (consumed) by system `id` for a service, of one carrier. E_X;gen,i;in;cr,j;t
///
/// Fuel quantities are expressed on the gross calorific value.
#[derive(Debug, Clone)]
pub struct EUsed<T> {
    /// System id (0 for the whole building, negative for fictitious systems)
    pub id: i32,
    /// Energy carrier
    pub carrier: Carrier,
    /// Service the energy is used for
    pub service: Service,
    /// Energy used at each step. kWh
    pub values: Vec<T>,
    /// Descriptive comment
    pub comment: String,
}

/// Energy produced by system `id` from a source. E_pr,i;cr,j;t
#[derive(Debug, Clone)]
pub struct EProd<T> {
    /// System id (0 for the whole building, negative for fictitious systems)
    pub id: i32,
    /// Source of the produced energy
    pub source: ProdSource,
    /// Energy produced at each step. kWh
    pub values: Vec<T>,
    /// Descriptive comment
    pub comment: String,
}

/// Electricity used by the auxiliary equipment of system `id`. W_X;gen,i;aux;t
///
/// It is read for the `NEPB` service and then assigned to the EPB services of the system.
#[derive(Debug, Clone)]
pub struct EAux<T> {
    /// System id
    pub id: i32,
    /// Service the auxiliary energy is assigned to
    pub service: Service,
    /// Energy used at each step. kWh
    pub values: Vec<T>,
    /// Descriptive comment
    pub comment: String,
}

/// Energy delivered (positive) or absorbed (negative) by system `id` for a service. Q_X;gen,i;out
#[derive(Debug, Clone)]
pub struct EOut<T> {
    /// System id
    pub id: i32,
    /// Service the energy is delivered for
    pub service: Service,
    /// Energy delivered or absorbed at each step. kWh
    pub values: Vec<T>,
    /// Descriptive comment
    pub comment: String,
}

/// An energy component: produced, used, auxiliary or delivered energy.
#[derive(Debug, Clone)]
pub enum Energy<T> {
    /// Produced energy
    Prod(EProd<T>),
    /// Used energy
    Used(EUsed<T>),
    /// Auxiliary energy
    Aux(EAux<T>),
    /// Delivered or absorbed energy
    Out(EOut<T>),
}

/// Where the fields after the optional id start: 1 when the first field writes an `i32`.
pub open spec fn id_base(f: Seq<Seq<char>>) -> int {
    if f.len() > 0 && i32_of_text(f[0]) is Some {
        1
    } else {
        0
    }
}

/// The id that the first field writes (0 when it writes none).
pub open spec fn id_value(f: Seq<Seq<char>>) -> i32 {
    if f.len() > 0 && i32_of_text(f[0]) is Some {
        i32_of_text(f[0])->0
    } else {
        0
    }
}

/// Reads the optional id at the start of the fields of a record.
fn read_id(f: &Vec<Vec<char>>) -> (r: (usize, i32))
    requires
        f@.len() > 0,
    ensures
        r.0 == id_base(views(f@)),
        r.1 == id_value(views(f@)),
{
    assert(views(f@)[0] == f@[0]@);
    match parse_i32(f[0].as_slice()) {
        Some(i) => (1, i),
        None => (0, 0),
    }
}

/// Whether field `k` of a record is the text `name`.
fn field_is(f: &Vec<Vec<char>>, k: usize, name: &str) -> (r: bool)
    requires
        k < f@.len(),
    ensures
        r == (views(f@)[k as int] == name@),
{
    chars_eq(f[k].as_slice(), chars_of(name).as_slice())
}

// ------------------------------------------------------------ used energy

/// The detail of the error that reading `s` as used energy gives, if it gives one.
pub open spec fn used_error(s: Seq<char>) -> Option<Seq<char>> {
    let f = fields_of(s);
    let b = id_base(f);
    if f.len() < 4 {
        Some(s)
    } else if f[b] != "CONSUMO"@ {
        Some("Componente de energía consumida con formato incorrecto: "@ + s)
    } else if Service::spec_from_name(f[b + 1]) is None {
        Some(f[b + 1])
    } else if Carrier::spec_from_name(f[b + 2]) is None {
        Some(f[b + 2])
    } else if first_non_number(f.skip(b + 3)) is Some {
        Some(values_error(s))
    } else {
        None
    }
}

/// Whether `e` is what the record `s` reads as used energy:
/// `[id,] CONSUMO, service, carrier, values... [# comment]`.
pub open spec fn used_read(e: EUsed<String>, s: Seq<char>) -> bool {
    let f = fields_of(s);
    let b = id_base(f);
    &&& e.id == id_value(f)
    &&& Service::spec_from_name(f[b + 1]) == Some(e.service)
    &&& Carrier::spec_from_name(f[b + 2]) == Some(e.carrier)
    &&& texts(e.values@) == f.skip(b + 3)
    &&& e.comment@ == comment_of(s)
}

/// The fields of the text of used energy.
pub open spec fn used_fields(e: EUsed<String>) -> Seq<Seq<char>> {
    seq![int_text(e.id as int), "CONSUMO"@, e.service.spec_name(), e.carrier.spec_name()] + texts(
        e.values@,
    )
}

/// Value fields and a comment that read back as themselves.
pub open spec fn plain_values_comment(values: Seq<String>, comment: Seq<char>) -> bool {
    &&& forall|i: int| 0 <= i < values.len() ==> plain_field(#[trigger] texts(values)[i])
    &&& forall|i: int| 0 <= i < values.len() ==> is_number_text(#[trigger] texts(values)[i])
    &&& trim(comment) == comment
}

/// The detail of the error for a line of used or produced energy with a value that is not a
/// number.
pub open spec fn values_error(s: Seq<char>) -> Seq<char> {
    "se esperaban valores numéricos en línea `"@ + s + "`"@
}

/// The error for a line of used or produced energy with a value that is not a number.
fn values_error_of(s: &str) -> (r: EpbdError)
    ensures
        r matches EpbdError::ParseError(m) && m@ == values_error(s@),
{
    let a = concat("se esperaban valores numéricos en línea `", s);
    EpbdError::ParseError(concat(a.as_str(), "`"))
}

/// The error for a value that is not a number.
pub(crate) fn number_error_of(t: Option<String>) -> (r: EpbdError)
    requires
        t is Some,
    ensures
        r matches EpbdError::ParseError(m) && m@ == number_error(t->0@),
{
    match t {
        Some(x) => EpbdError::ParseError(number_error_text(x.as_str())),
        None => EpbdError::ParseError(number_error_text("")),
    }
}

impl EUsed<String> {
    /// Reads used energy from its text: `[id,] CONSUMO, service, carrier, values... [# comment]`.
    /// Without an id, the id is 0.
    pub fn from_text(s: &str) -> (r: Result<EUsed<String>, EpbdError>)
        ensures
            match used_error(s@) {
                Some(m) => is_parse_error(r, m),
                None => r matches Ok(e) && used_read(e, s@),
            },
    {
        let (f, comment) = split_record(s);
        if f.len() < 4 {
            return Err(EpbdError::ParseError(string_of(chars_of(s).as_slice())));
        }
        let (b, id) = read_id(&f);
        if !field_is(&f, b, "CONSUMO") {
            return Err(
                EpbdError::ParseError(
                    concat("Componente de energía consumida con formato incorrecto: ", s),
                ),
            );
        }
        assert(views(f@)[b + 1] == f@[b + 1]@);
        assert(views(f@)[b + 2] == f@[b + 2]@);
        let service = match Service::from_chars(f[b + 1].as_slice()) {
            Ok(x) => x,
            Err(e) => {
                return Err(e);
            },
        };
        let carrier = match Carrier::from_chars(f[b + 2].as_slice()) {
            Ok(x) => x,
            Err(e) => {
                return Err(e);
            },
        };
        let values = strings_from(&f, b + 3);
        if find_non_number(&values).is_some() {
            return Err(values_error_of(s));
        }
        Ok(EUsed { id, carrier, service, values, comment: string_of(comment.as_slice()) })
    }

    /// The text of used energy: `id, CONSUMO, service, carrier, values...`, then
    /// ` # comment` when the comment is not empty.
    pub fn to_text(&self) -> (r: String)
        ensures
            r@ == record_text(used_fields(*self), self.comment@),
    {
        let mut f: Vec<Vec<char>> = Vec::new();
        f.push(i32_chars(self.id));
        f.push(chars_of("CONSUMO"));
        f.push(chars_of(self.service.as_str()));
        f.push(chars_of(self.carrier.as_str()));
        let mut v = chars_each(&self.values);
        let ghost head = views(f@);
        let ghost tail = views(v@);
        f.append(&mut v);
        assert(views(f@) =~= head + tail);
        assert(views(f@) =~= used_fields(*self));
        record_line(&f, chars_of(self.comment.as_str()).as_slice())
    }

    /// Reading the text of used energy whose values and comment read back as themselves
    /// gives it back.
    pub proof fn lemma_text_roundtrip(e: EUsed<String>)
        requires
            plain_values_comment(e.values@, e.comment@),
        ensures
            used_error(record_text(used_fields(e), e.comment@)) is None,
            used_read(e, record_text(used_fields(e), e.comment@)),
    {
        let f = used_fields(e);
        lemma_int_text_plain(e.id as int);
        Service::lemma_name_plain(e.service);
        Carrier::lemma_name_plain(e.carrier);
        Service::lemma_name_roundtrip(e.service);
        Carrier::lemma_name_roundtrip(e.carrier);
        lemma_i32_text_roundtrip(e.id);
        reveal_strlit("CONSUMO");
        lemma_plain_name_list("CONSUMO"@);
        assert forall|i: int| 0 <= i < f.len() implies plain_field(#[trigger] f[i]) by {
            if i >= 4 {
                assert(f[i] == texts(e.values@)[i - 4]);
            }
        }
        lemma_record_roundtrip(f, e.comment@);
        assert(f.skip(4) =~= texts(e.values@));
        lemma_all_numbers(texts(e.values@));
    }
}

// ------------------------------------------------------------ produced energy

/// The detail of the error that reading `s` as produced energy gives, if it gives one.
pub open spec fn prod_error(s: Seq<char>) -> Option<Seq<char>> {
    let f = fields_of(s);
    let b = id_base(f);
    if f.len() < 3 {
        Some(s)
    } else if f[b] != "PRODUCCION"@ {
        Some("Componente de energía generada con formato incorrecto: "@ + s)
    } else if ProdSource::spec_from_name(f[b + 1]) is None {
        Some(f[b + 1])
    } else if first_non_number(f.skip(b + 2)) is Some {
        Some(values_error(s))
    } else {
        None
    }
}

/// Whether `e` is what the record `s` reads as produced energy:
/// `[id,] PRODUCCION, source, values... [# comment]`.
pub open spec fn prod_read(e: EProd<String>, s: Seq<char>) -> bool {
    let f = fields_of(s);
    let b = id_base(f);
    &&& e.id == id_value(f)
    &&& ProdSource::spec_from_name(f[b + 1]) == Some(e.source)
    &&& texts(e.values@) == f.skip(b + 2)
    &&& e.comment@ == comment_of(s)
}

/// The fields of the text of produced energy.
pub open spec fn prod_fields(e: EProd<String>) -> Seq<Seq<char>> {
    seq![int_text(e.id as int), "PRODUCCION"@, e.source.spec_name()] + texts(e.values@)
}

impl EProd<String> {
    /// Reads produced energy from its text: `[id,] PRODUCCION, source, values... [# comment]`.
    /// Without an id, the id is 0.
    pub fn from_text(s: &str) -> (r: Result<EProd<String>, EpbdError>)
        ensures
            match prod_error(s@) {
                Some(m) => is_parse_error(r, m),
                None => r matches Ok(e) && prod_read(e, s@),
            },
    {
        let (f, comment) = split_record(s);
        if f.len() < 3 {
            return Err(EpbdError::ParseError(string_of(chars_of(s).as_slice())));
        }
        let (b, id) = read_id(&f);
        if !field_is(&f, b, "PRODUCCION") {
            return Err(
                EpbdError::ParseError(
                    concat("Componente de energía generada con formato incorrecto: ", s),
                ),
            );
        }
        assert(views(f@)[b + 1] == f@[b + 1]@);
        let source = match ProdSource::from_chars(f[b + 1].as_slice()) {
            Ok(x) => x,
            Err(e) => {
                return Err(e);
            },
        };
        let values = strings_from(&f, b + 2);
        if find_non_number(&values).is_some() {
            return Err(values_error_of(s));
        }
        Ok(EProd { id, source, values, comment: string_of(comment.as_slice()) })
    }

    /// The text of produced energy: `id, PRODUCCION, source, values...`, then ` # comment`
    /// when the comment is not empty.
    pub fn to_text(&self) -> (r: String)
        ensures
            r@ == record_text(prod_fields(*self), self.comment@),
    {
        let mut f: Vec<Vec<char>> = Vec::new();
        f.push(i32_chars(self.id));
        f.push(chars_of("PRODUCCION"));
        f.push(chars_of(self.source.as_str()));
        let mut v = chars_each(&self.values);
        let ghost head = views(f@);
        let ghost tail = views(v@);
        f.append(&mut v);
        assert(views(f@) =~= head + tail);
        assert(views(f@) =~= prod_fields(*self));
        record_line(&f, chars_of(self.comment.as_str()).as_slice())
    }

    /// Reading the text of produced energy whose values and comment read back as themselves
    /// gives it back.
    pub proof fn lemma_text_roundtrip(e: EProd<String>)
        requires
            plain_values_comment(e.values@, e.comment@),
        ensures
            prod_error(record_text(prod_fields(e), e.comment@)) is None,
            prod_read(e, record_text(prod_fields(e), e.comment@)),
    {
        let f = prod_fields(e);
        lemma_int_text_plain(e.id as int);
        ProdSource::lemma_name_plain(e.source);
        ProdSource::lemma_name_roundtrip(e.source);
        lemma_i32_text_roundtrip(e.id);
        reveal_strlit("PRODUCCION");
        lemma_plain_name_list("PRODUCCION"@);
        assert forall|i: int| 0 <= i < f.len() implies plain_field(#[trigger] f[i]) by {
            if i >= 3 {
                assert(f[i] == texts(e.values@)[i - 3]);
            }
        }
        lemma_record_roundtrip(f, e.comment@);
        assert(f.skip(3) =~= texts(e.values@));
        lemma_all_numbers(texts(e.values@));
    }
}

// ------------------------------------------------------------ auxiliary energy

/// The detail of the error that reading `s` as auxiliary energy gives, if it gives one.
pub open spec fn aux_error(s: Seq<char>) -> Option<Seq<char>> {
    let f = fields_of(s);
    let b = id_base(f);
    if f.len() < 2 {
        Some(s)
    } else if f[b] != "AUX"@ {
        Some("Componente de energía auxiliar con formato incorrecto: "@ + s)
    } else if first_non_number(f.skip(b + 1)) is Some {
        Some(number_error(first_non_number(f.skip(b + 1))->0))
    } else {
        None
    }
}

/// Whether `e` is what the record `s` reads as auxiliary energy:
/// `[id,] AUX, values... [# comment]`, for the `NEPB` service.
pub open spec fn aux_read(e: EAux<String>, s: Seq<char>) -> bool {
    let f = fields_of(s);
    let b = id_base(f);
    &&& e.id == id_value(f)
    &&& e.service == Service::NEPB
    &&& texts(e.values@) == f.skip(b + 1)
    &&& e.comment@ == comment_of(s)
}

/// The fields of the text of auxiliary energy (the service is not written).
pub open spec fn aux_fields(e: EAux<String>) -> Seq<Seq<char>> {
    seq![int_text(e.id as int), "AUX"@] + texts(e.values@)
}

impl EAux<String> {
    /// Reads auxiliary energy from its text: `[id,] AUX, values... [# comment]`. Without an
    /// id, the id is 0; the service is `NEPB` until the energy is assigned to EPB services.
    pub fn from_text(s: &str) -> (r: Result<EAux<String>, EpbdError>)
        ensures
            match aux_error(s@) {
                Some(m) => is_parse_error(r, m),
                None => r matches Ok(e) && aux_read(e, s@),
            },
    {
        let (f, comment) = split_record(s);
        if f.len() < 2 {
            return Err(EpbdError::ParseError(string_of(chars_of(s).as_slice())));
        }
        let (b, id) = read_id(&f);
        if !field_is(&f, b, "AUX") {
            return Err(
                EpbdError::ParseError(
                    concat("Componente de energía auxiliar con formato incorrecto: ", s),
                ),
            );
        }
        let values = strings_from(&f, b + 1);
        let bad = find_non_number(&values);
        if bad.is_some() {
            return Err(number_error_of(bad));
        }
        Ok(EAux { id, service: Service::NEPB, values, comment: string_of(comment.as_slice()) })
    }

    /// The text of auxiliary energy: `id, AUX, values...`, then ` # comment` when the
    /// comment is not empty.
    pub fn to_text(&self) -> (r: String)
        ensures
            r@ == record_text(aux_fields(*self), self.comment@),
    {
        let mut f: Vec<Vec<char>> = Vec::new();
        f.push(i32_chars(self.id));
        f.push(chars_of("AUX"));
        let mut v = chars_each(&self.values);
        let ghost head = views(f@);
        let ghost tail = views(v@);
        f.append(&mut v);
        assert(views(f@) =~= head + tail);
        assert(views(f@) =~= aux_fields(*self));
        record_line(&f, chars_of(self.comment.as_str()).as_slice())
    }

    /// Reading the text of auxiliary energy of the `NEPB` service whose values and comment
    /// read back as themselves gives it back.
    pub proof fn lemma_text_roundtrip(e: EAux<String>)
        requires
            plain_values_comment(e.values@, e.comment@),
            e.service == Service::NEPB,
        ensures
            aux_error(record_text(aux_fields(e), e.comment@)) is None,
            aux_read(e, record_text(aux_fields(e), e.comment@)),
    {
        let f = aux_fields(e);
        lemma_int_text_plain(e.id as int);
        lemma_i32_text_roundtrip(e.id);
        reveal_strlit("AUX");
        lemma_plain_name_list("AUX"@);
        assert forall|i: int| 0 <= i < f.len() implies plain_field(#[trigger] f[i]) by {
            if i >= 2 {
                assert(f[i] == texts(e.values@)[i - 2]);
            }
        }
        lemma_record_roundtrip(f, e.comment@);
        assert(f.skip(2) =~= texts(e.values@));
        lemma_all_numbers(texts(e.values@));
    }
}

// ------------------------------------------------------------ delivered or absorbed energy

/// The detail of the error that reading `s` as delivered energy gives, if it gives one.
pub open spec fn out_error(s: Seq<char>) -> Option<Seq<char>> {
    let f = fields_of(s);
    let b = id_base(f);
    if f.len() < 3 {
        Some(s)
    } else if f[b] != "SALIDA"@ {
        Some("Componente de energía saliente con formato incorrecto: "@ + s)
    } else if Service::spec_from_name(f[b + 1]) is None {
        Some(f[b + 1])
    } else if first_non_number(f.skip(b + 2)) is Some {
        Some(number_error(first_non_number(f.skip(b + 2))->0))
    } else {
        None
    }
}

/// Whether `e` is what the record `s` reads as delivered energy:
/// `[id,] SALIDA, service, values... [# comment]`.
pub open spec fn out_read(e: EOut<String>, s: Seq<char>) -> bool {
    let f = fields_of(s);
    let b = id_base(f);
    &&& e.id == id_value(f)
    &&& Service::spec_from_name(f[b + 1]) == Some(e.service)
    &&& texts(e.values@) == f.skip(b + 2)
    &&& e.comment@ == comment_of(s)
}

/// The fields of the text of delivered energy.
pub open spec fn out_fields(e: EOut<String>) -> Seq<Seq<char>> {
    seq![int_text(e.id as int), "SALIDA"@, e.service.spec_name()] + texts(e.values@)
}

impl EOut<String> {
    /// Reads delivered or absorbed energy from its text:
    /// `[id,] SALIDA, service, values... [# comment]`. Without an id, the id is 0.
    pub fn from_text(s: &str) -> (r: Result<EOut<String>, EpbdError>)
        ensures
            match out_error(s@) {
                Some(m) => is_parse_error(r, m),
                None => r matches Ok(e) && out_read(e, s@),
            },
    {
        let (f, comment) = split_record(s);
        if f.len() < 3 {
            return Err(EpbdError::ParseError(string_of(chars_of(s).as_slice())));
        }
        let (b, id) = read_id(&f);
        if !field_is(&f, b, "SALIDA") {
            return Err(
                EpbdError::ParseError(
                    concat("Componente de energía saliente con formato incorrecto: ", s),
                ),
            );
        }
        assert(views(f@)[b + 1] == f@[b + 1]@);
        let service = match Service::from_chars(f[b + 1].as_slice()) {
            Ok(x) => x,
            Err(e) => {
                return Err(e);
            },
        };
        let values = strings_from(&f, b + 2);
        let bad = find_non_number(&values);
        if bad.is_some() {
            return Err(number_error_of(bad));
        }
        Ok(EOut { id, service, values, comment: string_of(comment.as_slice()) })
    }

    /// The text of delivered energy: `id, SALIDA, service, values...`, then ` # comment`
    /// when the comment is not empty.
    pub fn to_text(&self) -> (r: String)
        ensures
            r@ == record_text(out_fields(*self), self.comment@),
    {
        let mut f: Vec<Vec<char>> = Vec::new();
        f.push(i32_chars(self.id));
        f.push(chars_of("SALIDA"));
        f.push(chars_of(self.service.as_str()));
        let mut v = chars_each(&self.values);
        let ghost head = views(f@);
        let ghost tail = views(v@);
        f.append(&mut v);
        assert(views(f@) =~= head + tail);
        assert(views(f@) =~= out_fields(*self));
        record_line(&f, chars_of(self.comment.as_str()).as_slice())
    }

    /// Reading the text of delivered energy whose values and comment read back as
    /// themselves gives it back.
    pub proof fn lemma_text_roundtrip(e: EOut<String>)
        requires
            plain_values_comment(e.values@, e.comment@),
        ensures
            out_error(record_text(out_fields(e), e.comment@)) is None,
            out_read(e, record_text(out_fields(e), e.comment@)),
    {
        let f = out_fields(e);
        lemma_int_text_plain(e.id as int);
        Service::lemma_name_plain(e.service);
        Service::lemma_name_roundtrip(e.service);
        lemma_i32_text_roundtrip(e.id);
        reveal_strlit("SALIDA");
        lemma_plain_name_list("SALIDA"@);
        assert forall|i: int| 0 <= i < f.len() implies plain_field(#[trigger] f[i]) by {
            if i >= 3 {
                assert(f[i] == texts(e.values@)[i - 3]);
            }
        }
        lemma_record_roundtrip(f, e.comment@);
        assert(f.skip(3) =~= texts(e.values@));
        lemma_all_numbers(texts(e.values@));
    }
}

// ------------------------------------------------------------ any component

impl<T> Energy<T> {
    /// The system id of the component.
    pub open spec fn spec_id(&self) -> i32 {
        match self {
            Energy::Prod(e) => e.id,
            Energy::Used(e) => e.id,
            Energy::Aux(e) => e.id,
            Energy::Out(e) => e.id,
        }
    }

    /// The carrier of a produced, used or auxiliary component (auxiliary energy is
    /// electricity).
    pub open spec fn spec_carrier(&self) -> Carrier
        recommends
            !(self is Out),
    {
        match self {
            Energy::Prod(e) => Carrier::spec_from_source(e.source),
            Energy::Used(e) => e.carrier,
            Energy::Aux(_) => Carrier::ELECTRICIDAD,
            Energy::Out(_) => Carrier::ELECTRICIDAD,
        }
    }

    /// The service of a used, auxiliary or delivered component.
    pub open spec fn spec_service(&self) -> Service
        recommends
            !(self is Prod),
    {
        match self {
            Energy::Prod(_) => Service::NEPB,
            Energy::Used(e) => e.service,
            Energy::Aux(e) => e.service,
            Energy::Out(e) => e.service,
        }
    }

    /// The values of the component.
    pub open spec fn spec_values(&self) -> Seq<T> {
        match self {
            Energy::Prod(e) => e.values@,
            Energy::Used(e) => e.values@,
            Energy::Aux(e) => e.values@,
            Energy::Out(e) => e.values@,
        }
    }

    /// The comment of the component.
    pub open spec fn spec_comment(&self) -> Seq<char> {
        match self {
            Energy::Prod(e) => e.comment@,
            Energy::Used(e) => e.comment@,
            Energy::Aux(e) => e.comment@,
            Energy::Out(e) => e.comment@,
        }
    }

    /// Used or auxiliary energy of an EPB service.
    pub open spec fn spec_is_epb_use(&self) -> bool {
        match self {
            Energy::Used(e) => e.service.spec_is_epb(),
            Energy::Aux(e) => e.service.spec_is_epb(),
            _ => false,
        }
    }

    /// Used or auxiliary energy of the non EPB service.
    pub open spec fn spec_is_nepb_use(&self) -> bool {
        match self {
            Energy::Used(e) => e.service == Service::NEPB,
            Energy::Aux(e) => e.service == Service::NEPB,
            _ => false,
        }
    }

    /// Produced, used or auxiliary electricity.
    pub open spec fn spec_is_electricity(&self) -> bool {
        !(self is Out) && self.spec_carrier() == Carrier::ELECTRICIDAD
    }

    /// A produced, used or auxiliary component of the carrier `c`.
    pub open spec fn spec_has_carrier(&self, c: Carrier) -> bool {
        !(self is Out) && self.spec_carrier() == c
    }

    /// Get id for this component
    pub fn id(&self) -> (r: i32)
        ensures
            r == self.spec_id(),
    {
        match self {
            Energy::Prod(e) => e.id,
            Energy::Used(e) => e.id,
            Energy::Aux(e) => e.id,
            Energy::Out(e) => e.id,
        }
    }

    /// Get carrier for this component (delivered energy has none)
    pub fn carrier(&self) -> (r: Carrier)
        requires
            !(self is Out),
        ensures
            r == self.spec_carrier(),
    {
        match self {
            Energy::Prod(e) => Carrier::from(e.source),
            Energy::Used(e) => e.carrier,
            Energy::Aux(_) => Carrier::ELECTRICIDAD,
            Energy::Out(_) => Carrier::ELECTRICIDAD,
        }
    }

    /// Get production source (INSITU / COGEN) for a produced component
    pub fn source(&self) -> (r: Source)
        requires
            self is Prod,
        ensures
            r == Source::spec_from_source(self->Prod_0.source),
    {
        match self {
            Energy::Prod(e) => Source::from(e.source),
            _ => Source::RED,
        }
    }

    /// Get service for this component (produced energy has none)
    pub fn service(&self) -> (r: Service)
        requires
            !(self is Prod),
        ensures
            r == self.spec_service(),
    {
        match self {
            Energy::Prod(_) => Service::NEPB,
            Energy::Used(e) => e.service,
            Energy::Aux(e) => e.service,
            Energy::Out(e) => e.service,
        }
    }

    /// Get comment for this component
    pub fn comment(&self) -> (r: &str)
        ensures
            r@ == self.spec_comment(),
    {
        match self {
            Energy::Prod(e) => e.comment.as_str(),
            Energy::Used(e) => e.comment.as_str(),
            Energy::Aux(e) => e.comment.as_str(),
            Energy::Out(e) => e.comment.as_str(),
        }
    }

    /// Values of this component, one for each step
    pub fn values(&self) -> (r: &Vec<T>)
        ensures
            r@ == self.spec_values(),
    {
        match self {
            Energy::Prod(e) => &e.values,
            Energy::Used(e) => &e.values,
            Energy::Aux(e) => &e.values,
            Energy::Out(e) => &e.values,
        }
    }

    /// Number of steps of this component
    pub fn num_steps(&self) -> (r: usize)
        ensures
            r == self.spec_values().len(),
    {
        self.values().len()
    }

    /// Is this of kind UsedEnergy?
    pub fn is_used(&self) -> (r: bool)
        ensures
            r == (self is Used),
    {
        matches!(self, Energy::Used(_))
    }

    /// Is this energy of the produced energy kind?
    pub fn is_generated(&self) -> (r: bool)
        ensures
            r == (self is Prod),
    {
        matches!(self, Energy::Prod(_))
    }

    /// Is this energy of the auxiliary energy kind?
    pub fn is_aux(&self) -> (r: bool)
        ensures
            r == (self is Aux),
    {
        matches!(self, Energy::Aux(_))
    }

    /// Is this energy of the output energy kind?
    pub fn is_out(&self) -> (r: bool)
        ensures
            r == (self is Out),
    {
        matches!(self, Energy::Out(_))
    }

    /// Is this used or auxiliary energy of an EPB service?
    pub fn is_epb_use(&self) -> (r: bool)
        ensures
            r == self.spec_is_epb_use(),
    {
        match self {
            Energy::Used(e) => e.service.is_epb(),
            Energy::Aux(e) => e.service.is_epb(),
            _ => false,
        }
    }

    /// Is this used or auxiliary energy of the non EPB service?
    pub fn is_nepb_use(&self) -> (r: bool)
        ensures
            r == self.spec_is_nepb_use(),
    {
        match self {
            Energy::Used(e) => e.service.is_nepb(),
            Energy::Aux(e) => e.service.is_nepb(),
            _ => false,
        }
    }

    /// Is this energy produced on site (any source but cogeneration)?
    pub fn is_onsite_pr(&self) -> (r: bool)
        ensures
            r == (self matches Energy::Prod(e) && e.source != ProdSource::EL_COGEN),
    {
        match self {
            Energy::Prod(e) => e.source != ProdSource::EL_COGEN,
            _ => false,
        }
    }

    /// Is this energy produced by cogeneration?
    pub fn is_cogen_pr(&self) -> (r: bool)
        ensures
            r == (self matches Energy::Prod(e) && e.source == ProdSource::EL_COGEN),
    {
        match self {
            Energy::Prod(e) => e.source == ProdSource::EL_COGEN,
            _ => false,
        }
    }

    /// Is this a production or use of the electricity carrier?
    pub fn is_electricity(&self) -> (r: bool)
        ensures
            r == self.spec_is_electricity(),
    {
        !self.is_out() && self.carrier() == Carrier::ELECTRICIDAD
    }

    /// Has this component this service? (produced energy has none)
    pub fn has_service(&self, srv: Service) -> (r: bool)
        requires
            !(self is Prod),
        ensures
            r == (self.spec_service() == srv),
    {
        self.service() == srv
    }

    /// Has this component this carrier? (delivered energy has none)
    pub fn has_carrier(&self, carrier: Carrier) -> (r: bool)
        ensures
            r == self.spec_has_carrier(carrier),
    {
        !self.is_out() && self.carrier() == carrier
    }

    /// Has this component this id?
    pub fn has_id(&self, id: i32) -> (r: bool)
        ensures
            r == (self.spec_id() == id),
    {
        self.id() == id
    }
}

impl Energy<String> {
    /// The text of the component.
    pub open spec fn spec_text(&self) -> Seq<char> {
        match self {
            Energy::Prod(e) => record_text(prod_fields(*e), e.comment@),
            Energy::Used(e) => record_text(used_fields(*e), e.comment@),
            Energy::Aux(e) => record_text(aux_fields(*e), e.comment@),
            Energy::Out(e) => record_text(out_fields(*e), e.comment@),
        }
    }

    /// The text of the component.
    pub fn to_text(&self) -> (r: String)
        ensures
            r@ == self.spec_text(),
    {
        match self {
            Energy::Prod(e) => e.to_text(),
            Energy::Used(e) => e.to_text(),
            Energy::Aux(e) => e.to_text(),
            Energy::Out(e) => e.to_text(),
        }
    }
}

/// A constant name of the text formats reads back as itself and holds no line break.
pub proof fn lemma_plain_name_list(s: Seq<char>)
    requires
        s =~= "CONSUMO"@ || s =~= "PRODUCCION"@ || s =~= "AUX"@ || s =~= "SALIDA"@,
    ensures
        plain_field(s),
        !s.contains('\n'),
{
    reveal_strlit("CONSUMO");
    reveal_strlit("PRODUCCION");
    reveal_strlit("AUX");
    reveal_strlit("SALIDA");
    crate::record::lemma_trim_fixed(s);
}

impl std::str::FromStr for EUsed<String> {
    type Err = EpbdError;

    fn from_str(s: &str) -> (r: Result<EUsed<String>, EpbdError>)
        ensures
            match used_error(s@) {
                Some(m) => is_parse_error(r, m),
                None => r matches Ok(e) && used_read(e, s@),
            },
    {
        EUsed::from_text(s)
    }
}

impl std::str::FromStr for EProd<String> {
    type Err = EpbdError;

    fn from_str(s: &str) -> (r: Result<EProd<String>, EpbdError>)
        ensures
            match prod_error(s@) {
                Some(m) => is_parse_error(r, m),
                None => r matches Ok(e) && prod_read(e, s@),
            },
    {
        EProd::from_text(s)
    }
}

impl std::str::FromStr for EAux<String> {
    type Err = EpbdError;

    fn from_str(s: &str) -> (r: Result<EAux<String>, EpbdError>)
        ensures
            match aux_error(s@) {
                Some(m) => is_parse_error(r, m),
                None => r matches Ok(e) && aux_read(e, s@),
            },
    {
        EAux::from_text(s)
    }
}

impl std::str::FromStr for EOut<String> {
    type Err = EpbdError;

    fn from_str(s: &str) -> (r: Result<EOut<String>, EpbdError>)
        ensures
            match out_error(s@) {
                Some(m) => is_parse_error(r, m),
                None => r matches Ok(e) && out_read(e, s@),
            },
    {
        EOut::from_text(s)
    }
}

} // verus!
