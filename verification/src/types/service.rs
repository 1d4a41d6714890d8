//! Services.

use vstd::prelude::*;

use crate::record::{lemma_trim_fixed, plain_field};

use crate::error::EpbdError;
use crate::text::{chars_eq, chars_of, string_of};

verus! {

/// Service or use that the energy is for (uso al que está destinada la energía).
#[allow(non_camel_case_types)]
#[derive(Debug, Copy, Clone, PartialEq, Eq, Hash, Structural)]
pub enum Service {
    /// DHW
    ACS,
    /// Heating (including humidification)
    CAL,
    /// Cooling (including dehumidification)
    REF,
    /// Ventilation, including heat recovery (when separate from heating or cooling)
    VEN,
    /// Lighting (only when considered as EPB use)
    ILU,
    /// Generic non EPB use
    NEPB,
    /// Energy feeding an electricity cogeneration system
    COGEN,
}

impl Service {
    /// The name of this value in the text formats.
    pub open spec fn spec_name(self) -> Seq<char> {
        match self {
            Service::ACS => "ACS"@,
            Service::CAL => "CAL"@,
            Service::REF => "REF"@,
            Service::VEN => "VEN"@,
            Service::ILU => "ILU"@,
            Service::NEPB => "NEPB"@,
            Service::COGEN => "COGEN"@,
        }
    }

    /// The value that a name in the text formats stands for, if any.
    pub open spec fn spec_from_name(s: Seq<char>) -> Option<Service> {
        if s == "ACS"@ {
            Some(Service::ACS)
        } else if s == "CAL"@ {
            Some(Service::CAL)
        } else if s == "REF"@ {
            Some(Service::REF)
        } else if s == "VEN"@ {
            Some(Service::VEN)
        } else if s == "ILU"@ {
            Some(Service::ILU)
        } else if s == "NEPB"@ {
            Some(Service::NEPB)
        } else if s == "COGEN"@ {
            Some(Service::COGEN)
        } else {
            None
        }
    }

    /// The name of this value in the text formats.
    pub fn as_str(&self) -> (r: &'static str)
        ensures
            r@ == self.spec_name(),
    {
        match self {
            Service::ACS => "ACS",
            Service::CAL => "CAL",
            Service::REF => "REF",
            Service::VEN => "VEN",
            Service::ILU => "ILU",
            Service::NEPB => "NEPB",
            Service::COGEN => "COGEN",
        }
    }

    /// Reads a value from its name; any other text is a `ParseError` that holds it.
    pub fn from_chars(v: &[char]) -> (r: Result<Service, EpbdError>)
        ensures
            match r {
                Ok(x) => Service::spec_from_name(v@) == Some(x),
                Err(e) => {
                    &&& Service::spec_from_name(v@) is None
                    &&& e matches EpbdError::ParseError(m) && m@ == v@
                },
            },
    {
        if chars_eq(v, &chars_of("ACS")) {
            Ok(Service::ACS)
        } else if chars_eq(v, &chars_of("CAL")) {
            Ok(Service::CAL)
        } else if chars_eq(v, &chars_of("REF")) {
            Ok(Service::REF)
        } else if chars_eq(v, &chars_of("VEN")) {
            Ok(Service::VEN)
        } else if chars_eq(v, &chars_of("ILU")) {
            Ok(Service::ILU)
        } else if chars_eq(v, &chars_of("NEPB")) {
            Ok(Service::NEPB)
        } else if chars_eq(v, &chars_of("COGEN")) {
            Ok(Service::COGEN)
        } else {
            Err(EpbdError::ParseError(string_of(v)))
        }
    }

    /// Reads a value from its name; any other text is a `ParseError` that holds it.
    pub fn from_name(s: &str) -> (r: Result<Service, EpbdError>)
        ensures
            match r {
                Ok(x) => Service::spec_from_name(s@) == Some(x),
                Err(e) => {
                    &&& Service::spec_from_name(s@) is None
                    &&& e matches EpbdError::ParseError(m) && m@ == s@
                },
            },
    {
        let v = chars_of(s);
        Service::from_chars(&v)
    }

    /// Reading the name of a value gives the value back.
    pub proof fn lemma_name_roundtrip(x: Service)
        ensures
            Service::spec_from_name(x.spec_name()) == Some(x),
    {
        broadcast use vstd::string::group_string_axioms;

        reveal_strlit("ACS");
        assert("ACS"@ =~= seq!['A', 'C', 'S']);
        reveal_strlit("CAL");
        assert("CAL"@ =~= seq!['C', 'A', 'L']);
        reveal_strlit("REF");
        assert("REF"@ =~= seq!['R', 'E', 'F']);
        reveal_strlit("VEN");
        assert("VEN"@ =~= seq!['V', 'E', 'N']);
        reveal_strlit("ILU");
        assert("ILU"@ =~= seq!['I', 'L', 'U']);
        reveal_strlit("NEPB");
        assert("NEPB"@ =~= seq!['N', 'E', 'P', 'B']);
        reveal_strlit("COGEN");
        assert("COGEN"@ =~= seq!['C', 'O', 'G', 'E', 'N']);
    }
}

impl std::str::FromStr for Service {
    type Err = EpbdError;

    fn from_str(s: &str) -> (r: Result<Service, EpbdError>)
        ensures
            match r {
                Ok(x) => Service::spec_from_name(s@) == Some(x),
                Err(e) => {
                    &&& Service::spec_from_name(s@) is None
                    &&& e matches EpbdError::ParseError(m) && m@ == s@
                },
            },
    {
        Service::from_name(s)
    }
}

impl Service {
    /// List of all available services
    pub const SERVICES_ALL: [Service; 7] = [
        Service::ACS,
        Service::CAL,
        Service::REF,
        Service::VEN,
        Service::ILU,
        Service::NEPB,
        Service::COGEN,
    ];

    /// List EPB services
    pub const SERVICES_EPB: [Service; 5] = [
        Service::ACS,
        Service::CAL,
        Service::REF,
        Service::VEN,
        Service::ILU,
    ];

    /// Whether the service is an EPB service (neither `NEPB` nor `COGEN`).
    pub open spec fn spec_is_epb(self) -> bool {
        self != Service::NEPB && self != Service::COGEN
    }

    /// Check if service is an EPB service
    /// This doesn't include the NEPB and GEN services
    pub fn is_epb(&self) -> (r: bool)
        ensures
            r == self.spec_is_epb(),
    {
        *self != Service::NEPB && *self != Service::COGEN
    }

    /// Check if service is a non EPB service
    /// This doesn't include the GEN service
    pub fn is_nepb(&self) -> (r: bool)
        ensures
            r == (*self == Service::NEPB),
    {
        *self == Service::NEPB
    }

    /// Check if service is for electricity cogeneration
    pub fn is_cogen(&self) -> (r: bool)
        ensures
            r == (*self == Service::COGEN),
    {
        *self == Service::COGEN
    }

    /// The EPB services are exactly those of `SERVICES_EPB`, and every service is one of
    /// `SERVICES_ALL`.
    pub proof fn lemma_service_lists(s: Service)
        ensures
            s.spec_is_epb() <==> Service::SERVICES_EPB@.contains(s),
            Service::SERVICES_ALL@.contains(s),
    {
        let e = Service::SERVICES_EPB@;
        let a = Service::SERVICES_ALL@;
        assert(a[0] == Service::ACS && a[1] == Service::CAL && a[2] == Service::REF && a[3]
            == Service::VEN && a[4] == Service::ILU && a[5] == Service::NEPB && a[6]
            == Service::COGEN);
        assert(e[0] == Service::ACS && e[1] == Service::CAL && e[2] == Service::REF && e[3]
            == Service::VEN && e[4] == Service::ILU);
        if e.contains(s) {
            let i = choose|i: int| 0 <= i < e.len() && e[i] == s;
            assert(s.spec_is_epb());
        }
    }
}


impl Service {
    /// Each name reads back as itself inside a record, and holds no line break.
    pub proof fn lemma_name_plain(x: Service)
        ensures
            plain_field(x.spec_name()),
            !x.spec_name().contains('\n'),
    {
        match x {
            Service::ACS => {
                reveal_strlit("ACS");
                lemma_trim_fixed("ACS"@);
            },
            Service::CAL => {
                reveal_strlit("CAL");
                lemma_trim_fixed("CAL"@);
            },
            Service::REF => {
                reveal_strlit("REF");
                lemma_trim_fixed("REF"@);
            },
            Service::VEN => {
                reveal_strlit("VEN");
                lemma_trim_fixed("VEN"@);
            },
            Service::ILU => {
                reveal_strlit("ILU");
                lemma_trim_fixed("ILU"@);
            },
            Service::NEPB => {
                reveal_strlit("NEPB");
                lemma_trim_fixed("NEPB"@);
            },
            Service::COGEN => {
                reveal_strlit("COGEN");
                lemma_trim_fixed("COGEN"@);
            },
        }
    }
}

} // verus!
