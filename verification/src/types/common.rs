//! Sources, destinations and calculation steps of weighting factors.

use vstd::prelude::*;

use crate::record::{lemma_trim_fixed, plain_field};

use crate::error::EpbdError;
use crate::types::ProdSource;
use crate::text::{chars_eq, chars_of, string_of};

verus! {

/// Source of energy for a weighting factor (fuente de origen de la energía).
#[allow(non_camel_case_types)]
#[derive(Debug, Copy, Clone, PartialEq, Eq, Hash, Structural)]
pub enum Source {
    /// Grid source
    RED,
    /// On site generation source
    INSITU,
    /// Cogeneration source
    COGEN,
}

impl Source {
    /// The name of this value in the text formats.
    pub open spec fn spec_name(self) -> Seq<char> {
        match self {
            Source::RED => "RED"@,
            Source::INSITU => "INSITU"@,
            Source::COGEN => "COGEN"@,
        }
    }

    /// The value that a name in the text formats stands for, if any.
    pub open spec fn spec_from_name(s: Seq<char>) -> Option<Source> {
        if s == "RED"@ {
            Some(Source::RED)
        } else if s == "INSITU"@ {
            Some(Source::INSITU)
        } else if s == "COGEN"@ {
            Some(Source::COGEN)
        } else {
            None
        }
    }

    /// The name of this value in the text formats.
    pub fn as_str(&self) -> (r: &'static str)
        ensures
            r@ == self.spec_name(),
    {
        match self {
            Source::RED => "RED",
            Source::INSITU => "INSITU",
            Source::COGEN => "COGEN",
        }
    }

    /// Reads a value from its name; any other text is a `ParseError` that holds it.
    pub fn from_chars(v: &[char]) -> (r: Result<Source, EpbdError>)
        ensures
            match r {
                Ok(x) => Source::spec_from_name(v@) == Some(x),
                Err(e) => {
                    &&& Source::spec_from_name(v@) is None
                    &&& e matches EpbdError::ParseError(m) && m@ == v@
                },
            },
    {
        if chars_eq(v, &chars_of("RED")) {
            Ok(Source::RED)
        } else if chars_eq(v, &chars_of("INSITU")) {
            Ok(Source::INSITU)
        } else if chars_eq(v, &chars_of("COGEN")) {
            Ok(Source::COGEN)
        } else {
            Err(EpbdError::ParseError(string_of(v)))
        }
    }

    /// Reads a value from its name; any other text is a `ParseError` that holds it.
    pub fn from_name(s: &str) -> (r: Result<Source, EpbdError>)
        ensures
            match r {
                Ok(x) => Source::spec_from_name(s@) == Some(x),
                Err(e) => {
                    &&& Source::spec_from_name(s@) is None
                    &&& e matches EpbdError::ParseError(m) && m@ == s@
                },
            },
    {
        let v = chars_of(s);
        Source::from_chars(&v)
    }

    /// Reading the name of a value gives the value back.
    pub proof fn lemma_name_roundtrip(x: Source)
        ensures
            Source::spec_from_name(x.spec_name()) == Some(x),
    {
        broadcast use vstd::string::group_string_axioms;

        reveal_strlit("RED");
        assert("RED"@ =~= seq!['R', 'E', 'D']);
        reveal_strlit("INSITU");
        assert("INSITU"@ =~= seq!['I', 'N', 'S', 'I', 'T', 'U']);
        reveal_strlit("COGEN");
        assert("COGEN"@ =~= seq!['C', 'O', 'G', 'E', 'N']);
    }
}

impl std::str::FromStr for Source {
    type Err = EpbdError;

    fn from_str(s: &str) -> (r: Result<Source, EpbdError>)
        ensures
            match r {
                Ok(x) => Source::spec_from_name(s@) == Some(x),
                Err(e) => {
                    &&& Source::spec_from_name(s@) is None
                    &&& e matches EpbdError::ParseError(m) && m@ == s@
                },
            },
    {
        Source::from_name(s)
    }
}
/// Destination of energy for a weighting factor (destino de la energía).
#[allow(non_camel_case_types)]
#[derive(Debug, Copy, Clone, PartialEq, Eq, Hash, Structural)]
pub enum Dest {
    /// Building delivery destination
    SUMINISTRO,
    /// Grid destination
    A_RED,
    /// Non EPB uses destination
    A_NEPB,
}

impl Dest {
    /// The name of this value in the text formats.
    pub open spec fn spec_name(self) -> Seq<char> {
        match self {
            Dest::SUMINISTRO => "SUMINISTRO"@,
            Dest::A_RED => "A_RED"@,
            Dest::A_NEPB => "A_NEPB"@,
        }
    }

    /// The value that a name in the text formats stands for, if any.
    pub open spec fn spec_from_name(s: Seq<char>) -> Option<Dest> {
        if s == "SUMINISTRO"@ {
            Some(Dest::SUMINISTRO)
        } else if s == "A_RED"@ {
            Some(Dest::A_RED)
        } else if s == "A_NEPB"@ {
            Some(Dest::A_NEPB)
        } else {
            None
        }
    }

    /// The name of this value in the text formats.
    pub fn as_str(&self) -> (r: &'static str)
        ensures
            r@ == self.spec_name(),
    {
        match self {
            Dest::SUMINISTRO => "SUMINISTRO",
            Dest::A_RED => "A_RED",
            Dest::A_NEPB => "A_NEPB",
        }
    }

    /// Reads a value from its name; any other text is a `ParseError` that holds it.
    pub fn from_chars(v: &[char]) -> (r: Result<Dest, EpbdError>)
        ensures
            match r {
                Ok(x) => Dest::spec_from_name(v@) == Some(x),
                Err(e) => {
                    &&& Dest::spec_from_name(v@) is None
                    &&& e matches EpbdError::ParseError(m) && m@ == v@
                },
            },
    {
        if chars_eq(v, &chars_of("SUMINISTRO")) {
            Ok(Dest::SUMINISTRO)
        } else if chars_eq(v, &chars_of("A_RED")) {
            Ok(Dest::A_RED)
        } else if chars_eq(v, &chars_of("A_NEPB")) {
            Ok(Dest::A_NEPB)
        } else {
            Err(EpbdError::ParseError(string_of(v)))
        }
    }

    /// Reads a value from its name; any other text is a `ParseError` that holds it.
    pub fn from_name(s: &str) -> (r: Result<Dest, EpbdError>)
        ensures
            match r {
                Ok(x) => Dest::spec_from_name(s@) == Some(x),
                Err(e) => {
                    &&& Dest::spec_from_name(s@) is None
                    &&& e matches EpbdError::ParseError(m) && m@ == s@
                },
            },
    {
        let v = chars_of(s);
        Dest::from_chars(&v)
    }

    /// Reading the name of a value gives the value back.
    pub proof fn lemma_name_roundtrip(x: Dest)
        ensures
            Dest::spec_from_name(x.spec_name()) == Some(x),
    {
        broadcast use vstd::string::group_string_axioms;

        reveal_strlit("SUMINISTRO");
        assert("SUMINISTRO"@ =~= seq!['S', 'U', 'M', 'I', 'N', 'I', 'S', 'T', 'R', 'O']);
        reveal_strlit("A_RED");
        assert("A_RED"@ =~= seq!['A', '_', 'R', 'E', 'D']);
        reveal_strlit("A_NEPB");
        assert("A_NEPB"@ =~= seq!['A', '_', 'N', 'E', 'P', 'B']);
    }
}

impl std::str::FromStr for Dest {
    type Err = EpbdError;

    fn from_str(s: &str) -> (r: Result<Dest, EpbdError>)
        ensures
            match r {
                Ok(x) => Dest::spec_from_name(s@) == Some(x),
                Err(e) => {
                    &&& Dest::spec_from_name(s@) is None
                    &&& e matches EpbdError::ParseError(m) && m@ == s@
                },
            },
    {
        Dest::from_name(s)
    }
}
/// Calculation step of a weighting factor.
#[allow(non_camel_case_types)]
#[derive(Debug, Copy, Clone, PartialEq, Eq, Hash, Structural)]
pub enum Step {
    /// Calculation step A
    A,
    /// Calculation step B
    B,
}

impl Step {
    /// The name of this value in the text formats.
    pub open spec fn spec_name(self) -> Seq<char> {
        match self {
            Step::A => "A"@,
            Step::B => "B"@,
        }
    }

    /// The value that a name in the text formats stands for, if any.
    pub open spec fn spec_from_name(s: Seq<char>) -> Option<Step> {
        if s == "A"@ {
            Some(Step::A)
        } else if s == "B"@ {
            Some(Step::B)
        } else {
            None
        }
    }

    /// The name of this value in the text formats.
    pub fn as_str(&self) -> (r: &'static str)
        ensures
            r@ == self.spec_name(),
    {
        match self {
            Step::A => "A",
            Step::B => "B",
        }
    }

    /// Reads a value from its name; any other text is a `ParseError` that holds it.
    pub fn from_chars(v: &[char]) -> (r: Result<Step, EpbdError>)
        ensures
            match r {
                Ok(x) => Step::spec_from_name(v@) == Some(x),
                Err(e) => {
                    &&& Step::spec_from_name(v@) is None
                    &&& e matches EpbdError::ParseError(m) && m@ == v@
                },
            },
    {
        if chars_eq(v, &chars_of("A")) {
            Ok(Step::A)
        } else if chars_eq(v, &chars_of("B")) {
            Ok(Step::B)
        } else {
            Err(EpbdError::ParseError(string_of(v)))
        }
    }

    /// Reads a value from its name; any other text is a `ParseError` that holds it.
    pub fn from_name(s: &str) -> (r: Result<Step, EpbdError>)
        ensures
            match r {
                Ok(x) => Step::spec_from_name(s@) == Some(x),
                Err(e) => {
                    &&& Step::spec_from_name(s@) is None
                    &&& e matches EpbdError::ParseError(m) && m@ == s@
                },
            },
    {
        let v = chars_of(s);
        Step::from_chars(&v)
    }

    /// Reading the name of a value gives the value back.
    pub proof fn lemma_name_roundtrip(x: Step)
        ensures
            Step::spec_from_name(x.spec_name()) == Some(x),
    {
        broadcast use vstd::string::group_string_axioms;

        reveal_strlit("A");
        assert("A"@ =~= seq!['A']);
        reveal_strlit("B");
        assert("B"@ =~= seq!['B']);
        assert("A"@[0] != "B"@[0]);
    }
}

impl std::str::FromStr for Step {
    type Err = EpbdError;

    fn from_str(s: &str) -> (r: Result<Step, EpbdError>)
        ensures
            match r {
                Ok(x) => Step::spec_from_name(s@) == Some(x),
                Err(e) => {
                    &&& Step::spec_from_name(s@) is None
                    &&& e matches EpbdError::ParseError(m) && m@ == s@
                },
            },
    {
        Step::from_name(s)
    }
}

impl Source {
    /// The weighting factor source of the energy produced by a production source.
    pub open spec fn spec_from_source(value: ProdSource) -> Source {
        match value {
            ProdSource::EL_INSITU => Source::INSITU,
            ProdSource::EL_COGEN => Source::COGEN,
            ProdSource::TERMOSOLAR => Source::INSITU,
            ProdSource::EAMBIENTE => Source::INSITU,
        }
    }
}

impl From<ProdSource> for Source {
    fn from(value: ProdSource) -> (r: Source) {
        match value {
            ProdSource::EL_INSITU => Source::INSITU,
            ProdSource::EL_COGEN => Source::COGEN,
            ProdSource::TERMOSOLAR => Source::INSITU,
            ProdSource::EAMBIENTE => Source::INSITU,
        }
    }
}

impl vstd::std_specs::convert::FromSpecImpl<ProdSource> for Source {
    open spec fn obeys_from_spec() -> bool {
        true
    }

    open spec fn from_spec(value: ProdSource) -> Source {
        Source::spec_from_source(value)
    }
}


impl Source {
    /// Each name reads back as itself inside a record, and holds no line break.
    pub proof fn lemma_name_plain(x: Source)
        ensures
            plain_field(x.spec_name()),
            !x.spec_name().contains('\n'),
    {
        match x {
            Source::RED => {
                reveal_strlit("RED");
                lemma_trim_fixed("RED"@);
            },
            Source::INSITU => {
                reveal_strlit("INSITU");
                lemma_trim_fixed("INSITU"@);
            },
            Source::COGEN => {
                reveal_strlit("COGEN");
                lemma_trim_fixed("COGEN"@);
            },
        }
    }
}

impl Dest {
    /// Each name reads back as itself inside a record, and holds no line break.
    pub proof fn lemma_name_plain(x: Dest)
        ensures
            plain_field(x.spec_name()),
            !x.spec_name().contains('\n'),
    {
        match x {
            Dest::SUMINISTRO => {
                reveal_strlit("SUMINISTRO");
                lemma_trim_fixed("SUMINISTRO"@);
            },
            Dest::A_RED => {
                reveal_strlit("A_RED");
                lemma_trim_fixed("A_RED"@);
            },
            Dest::A_NEPB => {
                reveal_strlit("A_NEPB");
                lemma_trim_fixed("A_NEPB"@);
            },
        }
    }
}

impl Step {
    /// Each name reads back as itself inside a record, and holds no line break.
    pub proof fn lemma_name_plain(x: Step)
        ensures
            plain_field(x.spec_name()),
            !x.spec_name().contains('\n'),
    {
        match x {
            Step::A => {
                reveal_strlit("A");
                lemma_trim_fixed("A"@);
            },
            Step::B => {
                reveal_strlit("B");
                lemma_trim_fixed("B"@);
            },
        }
    }
}

} // verus!
