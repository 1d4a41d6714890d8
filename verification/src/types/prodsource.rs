//! Sources of produced energy.

use vstd::prelude::*;

use crate::record::{lemma_trim_fixed, plain_field};

use crate::error::EpbdError;
use crate::types::Carrier;
use crate::text::{chars_eq, chars_of, string_of};

verus! {

/// Source of produced energy (origen de la energía producida).
#[allow(non_camel_case_types)]
#[derive(Debug, Copy, Clone, PartialEq, Eq, Hash, Structural)]
pub enum ProdSource {
    /// On site generated electricity
    EL_INSITU,
    /// On site co-generated electricity
    EL_COGEN,
    /// On site solar thermal
    TERMOSOLAR,
    /// On site ambient heat
    EAMBIENTE,
}

impl ProdSource {
    /// The name of this value in the text formats.
    pub open spec fn spec_name(self) -> Seq<char> {
        match self {
            ProdSource::EL_INSITU => "EL_INSITU"@,
            ProdSource::EL_COGEN => "EL_COGEN"@,
            ProdSource::TERMOSOLAR => "TERMOSOLAR"@,
            ProdSource::EAMBIENTE => "EAMBIENTE"@,
        }
    }

    /// The value that a name in the text formats stands for, if any.
    pub open spec fn spec_from_name(s: Seq<char>) -> Option<ProdSource> {
        if s == "EL_INSITU"@ {
            Some(ProdSource::EL_INSITU)
        } else if s == "EL_COGEN"@ {
            Some(ProdSource::EL_COGEN)
        } else if s == "TERMOSOLAR"@ {
            Some(ProdSource::TERMOSOLAR)
        } else if s == "EAMBIENTE"@ {
            Some(ProdSource::EAMBIENTE)
        } else {
            None
        }
    }

    /// The name of this value in the text formats.
    pub fn as_str(&self) -> (r: &'static str)
        ensures
            r@ == self.spec_name(),
    {
        match self {
            ProdSource::EL_INSITU => "EL_INSITU",
            ProdSource::EL_COGEN => "EL_COGEN",
            ProdSource::TERMOSOLAR => "TERMOSOLAR",
            ProdSource::EAMBIENTE => "EAMBIENTE",
        }
    }

    /// Reads a value from its name; any other text is a `ParseError` that holds it.
    pub fn from_chars(v: &[char]) -> (r: Result<ProdSource, EpbdError>)
        ensures
            match r {
                Ok(x) => ProdSource::spec_from_name(v@) == Some(x),
                Err(e) => {
                    &&& ProdSource::spec_from_name(v@) is None
                    &&& e matches EpbdError::ParseError(m) && m@ == v@
                },
            },
    {
        if chars_eq(v, &chars_of("EL_INSITU")) {
            Ok(ProdSource::EL_INSITU)
        } else if chars_eq(v, &chars_of("EL_COGEN")) {
            Ok(ProdSource::EL_COGEN)
        } else if chars_eq(v, &chars_of("TERMOSOLAR")) {
            Ok(ProdSource::TERMOSOLAR)
        } else if chars_eq(v, &chars_of("EAMBIENTE")) {
            Ok(ProdSource::EAMBIENTE)
        } else {
            Err(EpbdError::ParseError(string_of(v)))
        }
    }

    /// Reads a value from its name; any other text is a `ParseError` that holds it.
    pub fn from_name(s: &str) -> (r: Result<ProdSource, EpbdError>)
        ensures
            match r {
                Ok(x) => ProdSource::spec_from_name(s@) == Some(x),
                Err(e) => {
                    &&& ProdSource::spec_from_name(s@) is None
                    &&& e matches EpbdError::ParseError(m) && m@ == s@
                },
            },
    {
        let v = chars_of(s);
        ProdSource::from_chars(&v)
    }

    /// Reading the name of a value gives the value back.
    pub proof fn lemma_name_roundtrip(x: ProdSource)
        ensures
            ProdSource::spec_from_name(x.spec_name()) == Some(x),
    {
        broadcast use vstd::string::group_string_axioms;

        reveal_strlit("EL_INSITU");
        assert("EL_INSITU"@ =~= seq!['E', 'L', '_', 'I', 'N', 'S', 'I', 'T', 'U']);
        reveal_strlit("EL_COGEN");
        assert("EL_COGEN"@ =~= seq!['E', 'L', '_', 'C', 'O', 'G', 'E', 'N']);
        reveal_strlit("TERMOSOLAR");
        assert("TERMOSOLAR"@ =~= seq!['T', 'E', 'R', 'M', 'O', 'S', 'O', 'L', 'A', 'R']);
        reveal_strlit("EAMBIENTE");
        assert("EAMBIENTE"@ =~= seq!['E', 'A', 'M', 'B', 'I', 'E', 'N', 'T', 'E']);
    }
}

impl std::str::FromStr for ProdSource {
    type Err = EpbdError;

    fn from_str(s: &str) -> (r: Result<ProdSource, EpbdError>)
        ensures
            match r {
                Ok(x) => ProdSource::spec_from_name(s@) == Some(x),
                Err(e) => {
                    &&& ProdSource::spec_from_name(s@) is None
                    &&& e matches EpbdError::ParseError(m) && m@ == s@
                },
            },
    {
        ProdSource::from_name(s)
    }
}

impl ProdSource {
    /// Whether production of a carrier is distributed by priorities, and the priority order
    /// of its sources.
    pub open spec fn spec_priorities(carrier: Carrier) -> (bool, Seq<ProdSource>) {
        match carrier {
            Carrier::ELECTRICIDAD => (true, seq![ProdSource::EL_INSITU, ProdSource::EL_COGEN]),
            _ => (false, Seq::<ProdSource>::empty()),
        }
    }

    /// Priorities for electrical production sources
    pub fn get_priorities(carrier: Carrier) -> (r: (bool, Vec<ProdSource>))
        ensures
            r.0 == ProdSource::spec_priorities(carrier).0,
            r.1@ == ProdSource::spec_priorities(carrier).1,
    {
        match carrier {
            Carrier::ELECTRICIDAD => {
                let v = vec![ProdSource::EL_INSITU, ProdSource::EL_COGEN];
                proof {
                    assert(v@ =~= seq![ProdSource::EL_INSITU, ProdSource::EL_COGEN]);
                }
                (true, v)
            },
            _ => {
                let v: Vec<ProdSource> = Vec::new();
                (false, v)
            },
        }
    }
}


impl ProdSource {
    /// Each name reads back as itself inside a record, and holds no line break.
    pub proof fn lemma_name_plain(x: ProdSource)
        ensures
            plain_field(x.spec_name()),
            !x.spec_name().contains('\n'),
    {
        match x {
            ProdSource::EL_INSITU => {
                reveal_strlit("EL_INSITU");
                lemma_trim_fixed("EL_INSITU"@);
            },
            ProdSource::EL_COGEN => {
                reveal_strlit("EL_COGEN");
                lemma_trim_fixed("EL_COGEN"@);
            },
            ProdSource::TERMOSOLAR => {
                reveal_strlit("TERMOSOLAR");
                lemma_trim_fixed("TERMOSOLAR"@);
            },
            ProdSource::EAMBIENTE => {
                reveal_strlit("EAMBIENTE");
                lemma_trim_fixed("EAMBIENTE"@);
            },
        }
    }
}

} // verus!
