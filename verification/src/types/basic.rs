//! Component types and subtypes.

use vstd::prelude::*;

use crate::record::{lemma_trim_fixed, plain_field};

use crate::error::EpbdError;
use crate::text::{chars_eq, chars_of, string_of};

verus! {

/// Produced or consumed energy type of an energy component.
#[allow(non_camel_case_types)]
#[derive(Debug, Copy, Clone, PartialEq, Eq, Hash, Structural)]
pub enum CType {
    /// Produced energy
    PRODUCCION,
    /// Consumed energy
    CONSUMO,
}

impl CType {
    /// The name of this value in the text formats.
    pub open spec fn spec_name(self) -> Seq<char> {
        match self {
            CType::PRODUCCION => "PRODUCCION"@,
            CType::CONSUMO => "CONSUMO"@,
        }
    }

    /// The value that a name in the text formats stands for, if any.
    pub open spec fn spec_from_name(s: Seq<char>) -> Option<CType> {
        if s == "PRODUCCION"@ {
            Some(CType::PRODUCCION)
        } else if s == "CONSUMO"@ {
            Some(CType::CONSUMO)
        } else {
            None
        }
    }

    /// The name of this value in the text formats.
    pub fn as_str(&self) -> (r: &'static str)
        ensures
            r@ == self.spec_name(),
    {
        match self {
            CType::PRODUCCION => "PRODUCCION",
            CType::CONSUMO => "CONSUMO",
        }
    }

    /// Reads a value from its name; any other text is a `ParseError` that holds it.
    pub fn from_chars(v: &[char]) -> (r: Result<CType, EpbdError>)
        ensures
            match r {
                Ok(x) => CType::spec_from_name(v@) == Some(x),
                Err(e) => {
                    &&& CType::spec_from_name(v@) is None
                    &&& e matches EpbdError::ParseError(m) && m@ == v@
                },
            },
    {
        if chars_eq(v, &chars_of("PRODUCCION")) {
            Ok(CType::PRODUCCION)
        } else if chars_eq(v, &chars_of("CONSUMO")) {
            Ok(CType::CONSUMO)
        } else {
            Err(EpbdError::ParseError(string_of(v)))
        }
    }

    /// Reads a value from its name; any other text is a `ParseError` that holds it.
    pub fn from_name(s: &str) -> (r: Result<CType, EpbdError>)
        ensures
            match r {
                Ok(x) => CType::spec_from_name(s@) == Some(x),
                Err(e) => {
                    &&& CType::spec_from_name(s@) is None
                    &&& e matches EpbdError::ParseError(m) && m@ == s@
                },
            },
    {
        let v = chars_of(s);
        CType::from_chars(&v)
    }

    /// Reading the name of a value gives the value back.
    pub proof fn lemma_name_roundtrip(x: CType)
        ensures
            CType::spec_from_name(x.spec_name()) == Some(x),
    {
        broadcast use vstd::string::group_string_axioms;

        reveal_strlit("PRODUCCION");
        assert("PRODUCCION"@ =~= seq!['P', 'R', 'O', 'D', 'U', 'C', 'C', 'I', 'O', 'N']);
        reveal_strlit("CONSUMO");
        assert("CONSUMO"@ =~= seq!['C', 'O', 'N', 'S', 'U', 'M', 'O']);
    }
}

impl std::str::FromStr for CType {
    type Err = EpbdError;

    fn from_str(s: &str) -> (r: Result<CType, EpbdError>)
        ensures
            match r {
                Ok(x) => CType::spec_from_name(s@) == Some(x),
                Err(e) => {
                    &&& CType::spec_from_name(s@) is None
                    &&& e matches EpbdError::ParseError(m) && m@ == s@
                },
            },
    {
        CType::from_name(s)
    }
}
/// Production origin or use destination subtype of an energy component.
#[allow(non_camel_case_types)]
#[derive(Debug, Copy, Clone, PartialEq, Eq, Hash, Structural)]
pub enum CSubtype {
    /// on site energy source
    INSITU,
    /// cogeneration energy source
    COGENERACION,
    /// EPB use
    EPB,
    /// Non EPB use
    NEPB,
}

impl CSubtype {
    /// The name of this value in the text formats.
    pub open spec fn spec_name(self) -> Seq<char> {
        match self {
            CSubtype::INSITU => "INSITU"@,
            CSubtype::COGENERACION => "COGENERACION"@,
            CSubtype::EPB => "EPB"@,
            CSubtype::NEPB => "NEPB"@,
        }
    }

    /// The value that a name in the text formats stands for, if any.
    pub open spec fn spec_from_name(s: Seq<char>) -> Option<CSubtype> {
        if s == "INSITU"@ {
            Some(CSubtype::INSITU)
        } else if s == "COGENERACION"@ {
            Some(CSubtype::COGENERACION)
        } else if s == "EPB"@ {
            Some(CSubtype::EPB)
        } else if s == "NEPB"@ {
            Some(CSubtype::NEPB)
        } else {
            None
        }
    }

    /// The name of this value in the text formats.
    pub fn as_str(&self) -> (r: &'static str)
        ensures
            r@ == self.spec_name(),
    {
        match self {
            CSubtype::INSITU => "INSITU",
            CSubtype::COGENERACION => "COGENERACION",
            CSubtype::EPB => "EPB",
            CSubtype::NEPB => "NEPB",
        }
    }

    /// Reads a value from its name; any other text is a `ParseError` that holds it.
    pub fn from_chars(v: &[char]) -> (r: Result<CSubtype, EpbdError>)
        ensures
            match r {
                Ok(x) => CSubtype::spec_from_name(v@) == Some(x),
                Err(e) => {
                    &&& CSubtype::spec_from_name(v@) is None
                    &&& e matches EpbdError::ParseError(m) && m@ == v@
                },
            },
    {
        if chars_eq(v, &chars_of("INSITU")) {
            Ok(CSubtype::INSITU)
        } else if chars_eq(v, &chars_of("COGENERACION")) {
            Ok(CSubtype::COGENERACION)
        } else if chars_eq(v, &chars_of("EPB")) {
            Ok(CSubtype::EPB)
        } else if chars_eq(v, &chars_of("NEPB")) {
            Ok(CSubtype::NEPB)
        } else {
            Err(EpbdError::ParseError(string_of(v)))
        }
    }

    /// Reads a value from its name; any other text is a `ParseError` that holds it.
    pub fn from_name(s: &str) -> (r: Result<CSubtype, EpbdError>)
        ensures
            match r {
                Ok(x) => CSubtype::spec_from_name(s@) == Some(x),
                Err(e) => {
                    &&& CSubtype::spec_from_name(s@) is None
                    &&& e matches EpbdError::ParseError(m) && m@ == s@
                },
            },
    {
        let v = chars_of(s);
        CSubtype::from_chars(&v)
    }

    /// Reading the name of a value gives the value back.
    pub proof fn lemma_name_roundtrip(x: CSubtype)
        ensures
            CSubtype::spec_from_name(x.spec_name()) == Some(x),
    {
        broadcast use vstd::string::group_string_axioms;

        reveal_strlit("INSITU");
        assert("INSITU"@ =~= seq!['I', 'N', 'S', 'I', 'T', 'U']);
        reveal_strlit("COGENERACION");
        assert("COGENERACION"@ =~= seq!['C', 'O', 'G', 'E', 'N', 'E', 'R', 'A', 'C', 'I', 'O', 'N']);
        reveal_strlit("EPB");
        assert("EPB"@ =~= seq!['E', 'P', 'B']);
        reveal_strlit("NEPB");
        assert("NEPB"@ =~= seq!['N', 'E', 'P', 'B']);
    }
}

impl std::str::FromStr for CSubtype {
    type Err = EpbdError;

    fn from_str(s: &str) -> (r: Result<CSubtype, EpbdError>)
        ensures
            match r {
                Ok(x) => CSubtype::spec_from_name(s@) == Some(x),
                Err(e) => {
                    &&& CSubtype::spec_from_name(s@) is None
                    &&& e matches EpbdError::ParseError(m) && m@ == s@
                },
            },
    {
        CSubtype::from_name(s)
    }
}

impl CType {
    /// Each name reads back as itself inside a record, and holds no line break.
    pub proof fn lemma_name_plain(x: CType)
        ensures
            plain_field(x.spec_name()),
            !x.spec_name().contains('\n'),
    {
        match x {
            CType::PRODUCCION => {
                reveal_strlit("PRODUCCION");
                lemma_trim_fixed("PRODUCCION"@);
            },
            CType::CONSUMO => {
                reveal_strlit("CONSUMO");
                lemma_trim_fixed("CONSUMO"@);
            },
        }
    }
}

impl CSubtype {
    /// Each name reads back as itself inside a record, and holds no line break.
    pub proof fn lemma_name_plain(x: CSubtype)
        ensures
            plain_field(x.spec_name()),
            !x.spec_name().contains('\n'),
    {
        match x {
            CSubtype::INSITU => {
                reveal_strlit("INSITU");
                lemma_trim_fixed("INSITU"@);
            },
            CSubtype::COGENERACION => {
                reveal_strlit("COGENERACION");
                lemma_trim_fixed("COGENERACION"@);
            },
            CSubtype::EPB => {
                reveal_strlit("EPB");
                lemma_trim_fixed("EPB"@);
            },
            CSubtype::NEPB => {
                reveal_strlit("NEPB");
                lemma_trim_fixed("NEPB"@);
            },
        }
    }
}

} // verus!
