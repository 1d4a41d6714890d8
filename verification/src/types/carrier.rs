//! Energy carriers.

use vstd::prelude::*;

use crate::record::{lemma_trim_fixed, plain_field};

use crate::error::EpbdError;
use crate::types::ProdSource;
use crate::text::{chars_eq, chars_of, string_of};

verus! {

/// Energy carrier (vector energético).
#[allow(non_camel_case_types)]
#[derive(Debug, Copy, Clone, PartialEq, Eq, Hash, PartialOrd, Ord, Structural)]
pub enum Carrier {
    /// Environment thermal energy (from heat pumps and other)
    EAMBIENTE,
    /// Biofuel
    BIOCARBURANTE,
    /// Biomass
    BIOMASA,
    /// Densified biomass (pellets)
    BIOMASADENSIFICADA,
    /// Coal
    CARBON,
    /// Electricity
    ELECTRICIDAD,
    /// Natural gas
    GASNATURAL,
    /// Diesel oil
    GASOLEO,
    /// LPG - Liquefied petroleum gas
    GLP,
    /// Generic energy carrier 1
    RED1,
    /// Generic energy carrier 2
    RED2,
    /// Thermal energy from solar collectors
    TERMOSOLAR,
}

impl Carrier {
    /// The name of this value in the text formats.
    pub open spec fn spec_name(self) -> Seq<char> {
        match self {
            Carrier::EAMBIENTE => "EAMBIENTE"@,
            Carrier::BIOCARBURANTE => "BIOCARBURANTE"@,
            Carrier::BIOMASA => "BIOMASA"@,
            Carrier::BIOMASADENSIFICADA => "BIOMASADENSIFICADA"@,
            Carrier::CARBON => "CARBON"@,
            Carrier::ELECTRICIDAD => "ELECTRICIDAD"@,
            Carrier::GASNATURAL => "GASNATURAL"@,
            Carrier::GASOLEO => "GASOLEO"@,
            Carrier::GLP => "GLP"@,
            Carrier::RED1 => "RED1"@,
            Carrier::RED2 => "RED2"@,
            Carrier::TERMOSOLAR => "TERMOSOLAR"@,
        }
    }

    /// The value that a name in the text formats stands for, if any.
    pub open spec fn spec_from_name(s: Seq<char>) -> Option<Carrier> {
        if s == "EAMBIENTE"@ {
            Some(Carrier::EAMBIENTE)
        } else if s == "BIOCARBURANTE"@ {
            Some(Carrier::BIOCARBURANTE)
        } else if s == "BIOMASA"@ {
            Some(Carrier::BIOMASA)
        } else if s == "BIOMASADENSIFICADA"@ {
            Some(Carrier::BIOMASADENSIFICADA)
        } else if s == "CARBON"@ {
            Some(Carrier::CARBON)
        } else if s == "ELECTRICIDAD"@ {
            Some(Carrier::ELECTRICIDAD)
        } else if s == "GASNATURAL"@ {
            Some(Carrier::GASNATURAL)
        } else if s == "GASOLEO"@ {
            Some(Carrier::GASOLEO)
        } else if s == "GLP"@ {
            Some(Carrier::GLP)
        } else if s == "RED1"@ {
            Some(Carrier::RED1)
        } else if s == "RED2"@ {
            Some(Carrier::RED2)
        } else if s == "TERMOSOLAR"@ {
            Some(Carrier::TERMOSOLAR)
        } else {
            None
        }
    }

    /// The name of this value in the text formats.
    pub fn as_str(&self) -> (r: &'static str)
        ensures
            r@ == self.spec_name(),
    {
        match self {
            Carrier::EAMBIENTE => "EAMBIENTE",
            Carrier::BIOCARBURANTE => "BIOCARBURANTE",
            Carrier::BIOMASA => "BIOMASA",
            Carrier::BIOMASADENSIFICADA => "BIOMASADENSIFICADA",
            Carrier::CARBON => "CARBON",
            Carrier::ELECTRICIDAD => "ELECTRICIDAD",
            Carrier::GASNATURAL => "GASNATURAL",
            Carrier::GASOLEO => "GASOLEO",
            Carrier::GLP => "GLP",
            Carrier::RED1 => "RED1",
            Carrier::RED2 => "RED2",
            Carrier::TERMOSOLAR => "TERMOSOLAR",
        }
    }

    /// Reads a value from its name; any other text is a `ParseError` that holds it.
    pub fn from_chars(v: &[char]) -> (r: Result<Carrier, EpbdError>)
        ensures
            match r {
                Ok(x) => Carrier::spec_from_name(v@) == Some(x),
                Err(e) => {
                    &&& Carrier::spec_from_name(v@) is None
                    &&& e matches EpbdError::ParseError(m) && m@ == v@
                },
            },
    {
        if chars_eq(v, &chars_of("EAMBIENTE")) {
            Ok(Carrier::EAMBIENTE)
        } else if chars_eq(v, &chars_of("BIOCARBURANTE")) {
            Ok(Carrier::BIOCARBURANTE)
        } else if chars_eq(v, &chars_of("BIOMASA")) {
            Ok(Carrier::BIOMASA)
        } else if chars_eq(v, &chars_of("BIOMASADENSIFICADA")) {
            Ok(Carrier::BIOMASADENSIFICADA)
        } else if chars_eq(v, &chars_of("CARBON")) {
            Ok(Carrier::CARBON)
        } else if chars_eq(v, &chars_of("ELECTRICIDAD")) {
            Ok(Carrier::ELECTRICIDAD)
        } else if chars_eq(v, &chars_of("GASNATURAL")) {
            Ok(Carrier::GASNATURAL)
        } else if chars_eq(v, &chars_of("GASOLEO")) {
            Ok(Carrier::GASOLEO)
        } else if chars_eq(v, &chars_of("GLP")) {
            Ok(Carrier::GLP)
        } else if chars_eq(v, &chars_of("RED1")) {
            Ok(Carrier::RED1)
        } else if chars_eq(v, &chars_of("RED2")) {
            Ok(Carrier::RED2)
        } else if chars_eq(v, &chars_of("TERMOSOLAR")) {
            Ok(Carrier::TERMOSOLAR)
        } else {
            Err(EpbdError::ParseError(string_of(v)))
        }
    }

    /// Reads a value from its name; any other text is a `ParseError` that holds it.
    pub fn from_name(s: &str) -> (r: Result<Carrier, EpbdError>)
        ensures
            match r {
                Ok(x) => Carrier::spec_from_name(s@) == Some(x),
                Err(e) => {
                    &&& Carrier::spec_from_name(s@) is None
                    &&& e matches EpbdError::ParseError(m) && m@ == s@
                },
            },
    {
        let v = chars_of(s);
        Carrier::from_chars(&v)
    }

    /// Reading the name of a value gives the value back.
    pub proof fn lemma_name_roundtrip(x: Carrier)
        ensures
            Carrier::spec_from_name(x.spec_name()) == Some(x),
    {
        broadcast use vstd::string::group_string_axioms;

        reveal_strlit("EAMBIENTE");
        assert("EAMBIENTE"@ =~= seq!['E', 'A', 'M', 'B', 'I', 'E', 'N', 'T', 'E']);
        reveal_strlit("BIOCARBURANTE");
        assert("BIOCARBURANTE"@ =~= seq!['B', 'I', 'O', 'C', 'A', 'R', 'B', 'U', 'R', 'A', 'N', 'T', 'E']);
        reveal_strlit("BIOMASA");
        assert("BIOMASA"@ =~= seq!['B', 'I', 'O', 'M', 'A', 'S', 'A']);
        reveal_strlit("BIOMASADENSIFICADA");
        assert("BIOMASADENSIFICADA"@ =~= seq!['B', 'I', 'O', 'M', 'A', 'S', 'A', 'D', 'E', 'N', 'S', 'I', 'F', 'I', 'C', 'A', 'D', 'A']);
        reveal_strlit("CARBON");
        assert("CARBON"@ =~= seq!['C', 'A', 'R', 'B', 'O', 'N']);
        reveal_strlit("ELECTRICIDAD");
        assert("ELECTRICIDAD"@ =~= seq!['E', 'L', 'E', 'C', 'T', 'R', 'I', 'C', 'I', 'D', 'A', 'D']);
        reveal_strlit("GASNATURAL");
        assert("GASNATURAL"@ =~= seq!['G', 'A', 'S', 'N', 'A', 'T', 'U', 'R', 'A', 'L']);
        reveal_strlit("GASOLEO");
        assert("GASOLEO"@ =~= seq!['G', 'A', 'S', 'O', 'L', 'E', 'O']);
        reveal_strlit("GLP");
        assert("GLP"@ =~= seq!['G', 'L', 'P']);
        reveal_strlit("RED1");
        assert("RED1"@ =~= seq!['R', 'E', 'D', '1']);
        reveal_strlit("RED2");
        assert("RED2"@ =~= seq!['R', 'E', 'D', '2']);
        reveal_strlit("TERMOSOLAR");
        assert("TERMOSOLAR"@ =~= seq!['T', 'E', 'R', 'M', 'O', 'S', 'O', 'L', 'A', 'R']);
    }
}

impl std::str::FromStr for Carrier {
    type Err = EpbdError;

    fn from_str(s: &str) -> (r: Result<Carrier, EpbdError>)
        ensures
            match r {
                Ok(x) => Carrier::spec_from_name(s@) == Some(x),
                Err(e) => {
                    &&& Carrier::spec_from_name(s@) is None
                    &&& e matches EpbdError::ParseError(m) && m@ == s@
                },
            },
    {
        Carrier::from_name(s)
    }
}

impl Carrier {
    /// Carriers of the nearby perimeter (but for on site electricity).
    pub const NRBY: [Carrier; 6] = [
        Carrier::BIOMASA,
        Carrier::BIOMASADENSIFICADA,
        Carrier::RED1,
        Carrier::RED2,
        Carrier::EAMBIENTE,
        Carrier::TERMOSOLAR,
    ];

    /// Carriers of the on site perimeter (but for on site electricity).
    pub const ONST: [Carrier; 2] = [Carrier::EAMBIENTE, Carrier::TERMOSOLAR];

    /// Whether this carrier is one of the on site or nearby perimeter.
    pub open spec fn spec_is_nearby(self) -> bool {
        Carrier::NRBY@.contains(self)
    }

    /// Whether this carrier is one of the on site perimeter.
    pub open spec fn spec_is_onsite(self) -> bool {
        Carrier::ONST@.contains(self)
    }

    /// Is this a carrier from the onsite or nearby perimeter?
    pub fn is_nearby(&self) -> (r: bool)
        ensures
            r == self.spec_is_nearby(),
            r == (*self == Carrier::BIOMASA || *self == Carrier::BIOMASADENSIFICADA || *self == Carrier::RED1
                || *self == Carrier::RED2 || *self == Carrier::EAMBIENTE || *self == Carrier::TERMOSOLAR),
    {
        let r = match self {
            Carrier::BIOMASA | Carrier::BIOMASADENSIFICADA | Carrier::RED1 | Carrier::RED2
            | Carrier::EAMBIENTE | Carrier::TERMOSOLAR => true,
            _ => false,
        };
        proof {
            let n = Carrier::NRBY@;
            if r {
                assert(n[0] == Carrier::BIOMASA && n[1] == Carrier::BIOMASADENSIFICADA && n[2]
                    == Carrier::RED1 && n[3] == Carrier::RED2 && n[4] == Carrier::EAMBIENTE && n[5]
                    == Carrier::TERMOSOLAR);
            }
        }
        r
    }

    /// Is this a carrier from the onsite perimeter?
    pub fn is_onsite(&self) -> (r: bool)
        ensures
            r == self.spec_is_onsite(),
            r == (*self == Carrier::EAMBIENTE || *self == Carrier::TERMOSOLAR),
    {
        let r = match self {
            Carrier::EAMBIENTE | Carrier::TERMOSOLAR => true,
            _ => false,
        };
        proof {
            let n = Carrier::ONST@;
            if r {
                assert(n[0] == Carrier::EAMBIENTE && n[1] == Carrier::TERMOSOLAR);
            }
        }
        r
    }

    /// The carrier of the energy produced by a production source.
    pub open spec fn spec_from_source(value: ProdSource) -> Carrier {
        match value {
            ProdSource::EL_INSITU => Carrier::ELECTRICIDAD,
            ProdSource::EL_COGEN => Carrier::ELECTRICIDAD,
            ProdSource::TERMOSOLAR => Carrier::TERMOSOLAR,
            ProdSource::EAMBIENTE => Carrier::EAMBIENTE,
        }
    }
}

impl From<ProdSource> for Carrier {
    fn from(value: ProdSource) -> (r: Carrier) {
        match value {
            ProdSource::EL_INSITU => Carrier::ELECTRICIDAD,
            ProdSource::EL_COGEN => Carrier::ELECTRICIDAD,
            ProdSource::TERMOSOLAR => Carrier::TERMOSOLAR,
            ProdSource::EAMBIENTE => Carrier::EAMBIENTE,
        }
    }
}

impl vstd::std_specs::convert::FromSpecImpl<ProdSource> for Carrier {
    open spec fn obeys_from_spec() -> bool {
        true
    }

    open spec fn from_spec(value: ProdSource) -> Carrier {
        Carrier::spec_from_source(value)
    }
}


impl Carrier {
    /// Each name reads back as itself inside a record, and holds no line break.
    pub proof fn lemma_name_plain(x: Carrier)
        ensures
            plain_field(x.spec_name()),
            !x.spec_name().contains('\n'),
    {
        match x {
            Carrier::EAMBIENTE => {
                reveal_strlit("EAMBIENTE");
                lemma_trim_fixed("EAMBIENTE"@);
            },
            Carrier::BIOCARBURANTE => {
                reveal_strlit("BIOCARBURANTE");
                lemma_trim_fixed("BIOCARBURANTE"@);
            },
            Carrier::BIOMASA => {
                reveal_strlit("BIOMASA");
                lemma_trim_fixed("BIOMASA"@);
            },
            Carrier::BIOMASADENSIFICADA => {
                reveal_strlit("BIOMASADENSIFICADA");
                lemma_trim_fixed("BIOMASADENSIFICADA"@);
            },
            Carrier::CARBON => {
                reveal_strlit("CARBON");
                lemma_trim_fixed("CARBON"@);
            },
            Carrier::ELECTRICIDAD => {
                reveal_strlit("ELECTRICIDAD");
                lemma_trim_fixed("ELECTRICIDAD"@);
            },
            Carrier::GASNATURAL => {
                reveal_strlit("GASNATURAL");
                lemma_trim_fixed("GASNATURAL"@);
            },
            Carrier::GASOLEO => {
                reveal_strlit("GASOLEO");
                lemma_trim_fixed("GASOLEO"@);
            },
            Carrier::GLP => {
                reveal_strlit("GLP");
                lemma_trim_fixed("GLP"@);
            },
            Carrier::RED1 => {
                reveal_strlit("RED1");
                lemma_trim_fixed("RED1"@);
            },
            Carrier::RED2 => {
                reveal_strlit("RED2");
                lemma_trim_fixed("RED2"@);
            },
            Carrier::TERMOSOLAR => {
                reveal_strlit("TERMOSOLAR");
                lemma_trim_fixed("TERMOSOLAR"@);
            },
        }
    }
}

} // verus!
