//! Weighting factors: the renewable and non renewable primary energy and the CO2 emissions of
//! a unit of delivered or exported energy, for a carrier, a source, a destination and a
//! calculation step.
//!
//! A factor is generic over the type of its three values. Its text form is read and written
//! with the values as text fields; turning them into numbers is left to the caller.

use vstd::prelude::*;

use crate::error::{is_parse_error, EpbdError};
use crate::number::{first_non_number, is_number, is_number_text, number_error, number_error_text};
use crate::record::{
    comment_of, fields_of, lemma_record_roundtrip, plain_field, record_line, record_text,
    split_record, views,
};
use crate::text::{chars_of, string_of, trim};
use crate::types::{Carrier, Dest, Source, Step};

verus! {

broadcast use vstd::string::group_string_axioms;

/// Weighting factor (factor de paso) of a carrier, from a source, to a destination, at a
/// calculation step.
#[derive(Debug, Clone)]
pub struct Factor<F> {
    /// Energy carrier
    pub carrier: Carrier,
    /// Source of the energy (`RED`, `INSITU` or `COGEN`)
    pub source: Source,
    /// Destination of the energy (`SUMINISTRO`, `A_RED` or `A_NEPB`)
    pub dest: Dest,
    /// Calculation step
    pub step: Step,
    /// Renewable and non renewable primary energy and CO2 emissions for each unit of energy
    pub values: F,
    /// Descriptive comment
    pub comment: String,
}

/// The three values of a factor as text: renewable and non renewable primary energy, and
/// CO2 emissions.
#[derive(Debug, Clone)]
pub struct FactorTexts {
    /// Renewable primary energy
    pub ren: String,
    /// Non renewable primary energy
    pub nren: String,
    /// CO2 emissions
    pub co2: String,
}

/// What a factor holds, with its comment as a character sequence.
pub struct FactorView<F> {
    /// Energy carrier
    pub carrier: Carrier,
    /// Source of the energy
    pub source: Source,
    /// Destination of the energy
    pub dest: Dest,
    /// Calculation step
    pub step: Step,
    /// The values
    pub values: F,
    /// Descriptive comment
    pub comment: Seq<char>,
}

impl<F> View for Factor<F> {
    type V = FactorView<F>;

    open spec fn view(&self) -> FactorView<F> {
        FactorView {
            carrier: self.carrier,
            source: self.source,
            dest: self.dest,
            step: self.step,
            values: self.values,
            comment: self.comment@,
        }
    }
}

impl<F: Copy> Factor<F> {
    /// Constructor
    pub fn new(carrier: Carrier, source: Source, dest: Dest, step: Step, values: F, comment: &str) -> (r: Factor<F>)
        ensures
            r@ == (FactorView { carrier, source, dest, step, values, comment: comment@ }),
    {
        Factor { carrier, source, dest, step, values, comment: string_of(chars_of(comment).as_slice()) }
    }

    /// The values of the factor.
    pub fn factors(&self) -> (r: F)
        ensures
            r == self.values,
    {
        self.values
    }

    /// Sets the values of the factor.
    pub fn set_values(&mut self, values: &F)
        ensures
            final(self)@ == (FactorView { values: *values, ..old(self)@ }),
    {
        self.values = *values;
    }
}

/// The detail of the error that reading `s` as a factor gives, if it gives one.
pub open spec fn factor_error(s: Seq<char>) -> Option<Seq<char>> {
    let f = fields_of(s);
    if f.len() < 7 {
        Some(s)
    } else if Carrier::spec_from_name(f[0]) is None {
        Some(f[0])
    } else if Source::spec_from_name(f[1]) is None {
        Some(f[1])
    } else if Dest::spec_from_name(f[2]) is None {
        Some(f[2])
    } else if Step::spec_from_name(f[3]) is None {
        Some(f[3])
    } else if first_non_number(f.subrange(4, 7)) is Some {
        Some(number_error(first_non_number(f.subrange(4, 7))->0))
    } else {
        None
    }
}

/// Whether `e` is what the record `s` reads as a factor:
/// `carrier, source, dest, step, ren, nren, co2 [# comment]`.
pub open spec fn factor_read(e: Factor<FactorTexts>, s: Seq<char>) -> bool {
    let f = fields_of(s);
    &&& Carrier::spec_from_name(f[0]) == Some(e.carrier)
    &&& Source::spec_from_name(f[1]) == Some(e.source)
    &&& Dest::spec_from_name(f[2]) == Some(e.dest)
    &&& Step::spec_from_name(f[3]) == Some(e.step)
    &&& e.values.ren@ == f[4]
    &&& e.values.nren@ == f[5]
    &&& e.values.co2@ == f[6]
    &&& e.comment@ == comment_of(s)
}

/// The fields of the text of a factor.
pub open spec fn factor_fields(e: Factor<FactorTexts>) -> Seq<Seq<char>> {
    seq![
        e.carrier.spec_name(),
        e.source.spec_name(),
        e.dest.spec_name(),
        e.step.spec_name(),
        e.values.ren@,
        e.values.nren@,
        e.values.co2@,
    ]
}

/// The error for a value that is not a number.
fn value_error(v: &[char]) -> (r: EpbdError)
    ensures
        r matches EpbdError::ParseError(m) && m@ == number_error(v@),
{
    let t = string_of(v);
    EpbdError::ParseError(number_error_text(t.as_str()))
}

impl Factor<FactorTexts> {
    /// Reads a factor from its text: `carrier, source, dest, step, ren, nren, co2 [# comment]`.
    pub fn from_text(s: &str) -> (r: Result<Factor<FactorTexts>, EpbdError>)
        ensures
            match factor_error(s@) {
                Some(m) => is_parse_error(r, m),
                None => r matches Ok(e) && factor_read(e, s@),
            },
    {
        let (f, comment) = split_record(s);
        if f.len() < 7 {
            return Err(EpbdError::ParseError(string_of(chars_of(s).as_slice())));
        }
        proof {
            assert forall|k: int| 0 <= k < 7 implies views(f@)[k] == f@[k]@ by {}
        }
        let carrier = match Carrier::from_chars(f[0].as_slice()) {
            Ok(x) => x,
            Err(e) => {
                return Err(e);
            },
        };
        let source = match Source::from_chars(f[1].as_slice()) {
            Ok(x) => x,
            Err(e) => {
                return Err(e);
            },
        };
        let dest = match Dest::from_chars(f[2].as_slice()) {
            Ok(x) => x,
            Err(e) => {
                return Err(e);
            },
        };
        let step = match Step::from_chars(f[3].as_slice()) {
            Ok(x) => x,
            Err(e) => {
                return Err(e);
            },
        };
        let ghost v = views(f@).subrange(4, 7);
        assert(v.drop_first() =~= views(f@).subrange(5, 7));
        assert(v.drop_first().drop_first() =~= views(f@).subrange(6, 7));
        assert(v.drop_first().drop_first().drop_first() =~= Seq::<Seq<char>>::empty());
        proof {
            reveal_with_fuel(first_non_number, 4);
            assert(v[0] == f@[4]@ && v[1] == f@[5]@ && v[2] == f@[6]@);
            assert(v.drop_first()[0] == v[1]);
            assert(v.drop_first().drop_first()[0] == v[2]);
        }
        if !is_number(f[4].as_slice()) {
            return Err(value_error(f[4].as_slice()));
        }
        if !is_number(f[5].as_slice()) {
            return Err(value_error(f[5].as_slice()));
        }
        if !is_number(f[6].as_slice()) {
            return Err(value_error(f[6].as_slice()));
        }
        let values = FactorTexts {
            ren: string_of(f[4].as_slice()),
            nren: string_of(f[5].as_slice()),
            co2: string_of(f[6].as_slice()),
        };
        Ok(Factor { carrier, source, dest, step, values, comment: string_of(comment.as_slice()) })
    }

    /// The text of a factor: `carrier, source, dest, step, ren, nren, co2`, then
    /// ` # comment` when the comment is not empty.
    pub fn to_text(&self) -> (r: String)
        ensures
            r@ == record_text(factor_fields(*self), self.comment@),
    {
        let mut f: Vec<Vec<char>> = Vec::new();
        f.push(chars_of(self.carrier.as_str()));
        f.push(chars_of(self.source.as_str()));
        f.push(chars_of(self.dest.as_str()));
        f.push(chars_of(self.step.as_str()));
        f.push(chars_of(self.values.ren.as_str()));
        f.push(chars_of(self.values.nren.as_str()));
        f.push(chars_of(self.values.co2.as_str()));
        assert(views(f@) =~= factor_fields(*self));
        record_line(&f, chars_of(self.comment.as_str()).as_slice())
    }

    /// Reading the text of a factor whose values are numbers that read back as themselves,
    /// and whose comment is trimmed, gives it back.
    pub proof fn lemma_text_roundtrip(e: Factor<FactorTexts>)
        requires
            plain_field(e.values.ren@) && is_number_text(e.values.ren@),
            plain_field(e.values.nren@) && is_number_text(e.values.nren@),
            plain_field(e.values.co2@) && is_number_text(e.values.co2@),
            trim(e.comment@) == e.comment@,
        ensures
            factor_error(record_text(factor_fields(e), e.comment@)) is None,
            factor_read(e, record_text(factor_fields(e), e.comment@)),
    {
        let f = factor_fields(e);
        Carrier::lemma_name_plain(e.carrier);
        Source::lemma_name_plain(e.source);
        Dest::lemma_name_plain(e.dest);
        Step::lemma_name_plain(e.step);
        Carrier::lemma_name_roundtrip(e.carrier);
        Source::lemma_name_roundtrip(e.source);
        Dest::lemma_name_roundtrip(e.dest);
        Step::lemma_name_roundtrip(e.step);
        assert forall|i: int| 0 <= i < f.len() implies plain_field(#[trigger] f[i]) by {}
        lemma_record_roundtrip(f, e.comment@);
        let v = f.subrange(4, 7);
        assert(v.drop_first() =~= f.subrange(5, 7));
        assert(v.drop_first().drop_first() =~= f.subrange(6, 7));
        assert(v.drop_first().drop_first().drop_first() =~= Seq::<Seq<char>>::empty());
        reveal_with_fuel(first_non_number, 4);
        assert(v.drop_first()[0] == v[1]);
        assert(v.drop_first().drop_first()[0] == v[2]);
    }
}

impl std::str::FromStr for Factor<FactorTexts> {
    type Err = EpbdError;

    fn from_str(s: &str) -> (r: Result<Factor<FactorTexts>, EpbdError>)
        ensures
            match factor_error(s@) {
                Some(m) => is_parse_error(r, m),
                None => r matches Ok(e) && factor_read(e, s@),
            },
    {
        Factor::from_text(s)
    }
}

} // verus!
