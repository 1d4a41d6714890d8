//! Energy needs of the building and of its zones, for each step of the calculation period.

use vstd::prelude::*;

use crate::error::{is_parse_error, EpbdError};
use crate::record::{
    chars_each, comment_of, fields_of, i32_chars, i32_of_text, int_text, lemma_i32_text_roundtrip,
    lemma_int_text_plain, lemma_record_roundtrip, parse_i32, plain_field, record_line,
    record_text, split_record, strings_from, texts, views,
};
use crate::text::{chars_eq, chars_of, concat, string_of};
use crate::number::{find_non_number, first_non_number, lemma_all_numbers, number_error};
use crate::types::energy::{number_error_of, plain_values_comment};
use crate::types::Service;

verus! {

broadcast use vstd::string::group_string_axioms;

/// Energy needs of the whole building for a service (CAL, REF or ACS).
///
/// Negative values are heating needs and positive values cooling needs. kWh
#[derive(Debug, Clone)]
pub struct BuildingNeeds<T> {
    /// Service (CAL, REF or ACS)
    pub service: Service,
    /// Needs at each step. kWh
    pub values: Vec<T>,
}

/// Energy needs of zone `id` (0 for the whole building) for a service.
#[derive(Debug, Clone)]
pub struct ZoneNeeds<T> {
    /// Zone id (0 for all the zones, negative for fictitious zones)
    pub id: i32,
    /// Service
    pub service: Service,
    /// Needs at each step. kWh
    pub values: Vec<T>,
    /// Descriptive comment
    pub comment: String,
}

/// Energy delivered (positive) or absorbed (negative) by system `id` to give a service: the
/// needs that the system meets.
#[derive(Debug, Clone)]
pub struct SystemNeeds<T> {
    /// System id (0 for the whole building, negative for fictitious systems)
    pub id: i32,
    /// Service
    pub service: Service,
    /// Energy delivered or absorbed at each step. kWh
    pub values: Vec<T>,
    /// Descriptive comment
    pub comment: String,
}

/// The services that building needs can be given for.
pub open spec fn is_needs_service(s: Service) -> bool {
    s == Service::CAL || s == Service::REF || s == Service::ACS
}

/// Where the fields of building needs start: after an optional `EDIFICIO` mark.
pub open spec fn building_base(f: Seq<Seq<char>>) -> int {
    if f.len() > 0 && f[0] == "EDIFICIO"@ {
        1
    } else {
        0
    }
}

/// The detail of the error that reading `s` as building needs gives, if it gives one.
pub open spec fn building_error(s: Seq<char>) -> Option<Seq<char>> {
    let f = fields_of(s);
    let b = building_base(f);
    if f.len() < b + 3 {
        Some(s)
    } else if f[b] != "DEMANDA"@ {
        Some("No se reconoce el formato como elemento de Demanda: "@ + s)
    } else if Service::spec_from_name(f[b + 1]) is None {
        Some(f[b + 1])
    } else if !is_needs_service(Service::spec_from_name(f[b + 1])->0) {
        Some("Servicio no soportado en componente de DEMANDA del edificio: "@ + f[b + 1])
    } else if first_non_number(f.skip(b + 2)) is Some {
        Some(number_error(first_non_number(f.skip(b + 2))->0))
    } else {
        None
    }
}

/// Whether `e` is what the record `s` reads as building needs:
/// `[EDIFICIO,] DEMANDA, service, values... [# comment]` (the comment is not kept).
pub open spec fn building_read(e: BuildingNeeds<String>, s: Seq<char>) -> bool {
    let f = fields_of(s);
    let b = building_base(f);
    &&& Service::spec_from_name(f[b + 1]) == Some(e.service)
    &&& texts(e.values@) == f.skip(b + 2)
}

/// The fields of the text of building needs.
pub open spec fn building_fields(e: BuildingNeeds<String>) -> Seq<Seq<char>> {
    seq!["DEMANDA"@, e.service.spec_name()] + texts(e.values@)
}

impl BuildingNeeds<String> {
    /// Reads building needs from its text: `[EDIFICIO,] DEMANDA, service, values...`, for
    /// the CAL, REF or ACS service.
    pub fn from_text(s: &str) -> (r: Result<BuildingNeeds<String>, EpbdError>)
        ensures
            match building_error(s@) {
                Some(m) => is_parse_error(r, m),
                None => r matches Ok(e) && building_read(e, s@),
            },
            // Needs of heating, cooling or domestic hot water, with numeric values, are read
            ({
                let f = fields_of(s@);
                let b = building_base(f);
                (f.len() >= b + 3 && f[b] == "DEMANDA"@ && (Service::spec_from_name(f[b + 1]) == Some(
                    Service::CAL,
                ) || Service::spec_from_name(f[b + 1]) == Some(Service::REF) || Service::spec_from_name(
                    f[b + 1],
                ) == Some(Service::ACS)) && first_non_number(f.skip(b + 2)) is None) ==> (r matches Ok(e)
                    && Service::spec_from_name(f[b + 1]) == Some(e.service) && texts(e.values@) == f.skip(
                    b + 2,
                ))
            }),
            // and needs of any other service are refused
            r matches Ok(e) ==> (e.service == Service::CAL || e.service == Service::REF || e.service
                == Service::ACS),
    {
        let (f, _comment) = split_record(s);
        let b: usize = if f.len() > 0 && chars_eq(f[0].as_slice(), chars_of("EDIFICIO").as_slice()) {
            1
        } else {
            0
        };
        proof {
            if f@.len() > 0 {
                assert(views(f@)[0] == f@[0]@);
            }
        }
        if f.len() < b + 3 {
            return Err(EpbdError::ParseError(string_of(chars_of(s).as_slice())));
        }
        assert(views(f@)[b as int] == f@[b as int]@);
        assert(views(f@)[b + 1] == f@[b + 1]@);
        if !chars_eq(f[b].as_slice(), chars_of("DEMANDA").as_slice()) {
            return Err(
                EpbdError::ParseError(
                    concat("No se reconoce el formato como elemento de Demanda: ", s),
                ),
            );
        }
        let service = match Service::from_chars(f[b + 1].as_slice()) {
            Ok(x) => x,
            Err(e) => {
                return Err(e);
            },
        };
        if !(service == Service::CAL || service == Service::REF || service == Service::ACS) {
            let name = string_of(f[b + 1].as_slice());
            return Err(
                EpbdError::ParseError(
                    concat(
                        "Servicio no soportado en componente de DEMANDA del edificio: ",
                        name.as_str(),
                    ),
                ),
            );
        }
        let values = strings_from(&f, b + 2);
        let bad = find_non_number(&values);
        if bad.is_some() {
            return Err(number_error_of(bad));
        }
        Ok(BuildingNeeds { service, values })
    }

    /// The text of building needs: `DEMANDA, service, values...`.
    pub fn to_text(&self) -> (r: String)
        ensures
            r@ == record_text(building_fields(*self), Seq::<char>::empty()),
    {
        let mut f: Vec<Vec<char>> = Vec::new();
        f.push(chars_of("DEMANDA"));
        f.push(chars_of(self.service.as_str()));
        let mut v = chars_each(&self.values);
        let ghost head = views(f@);
        let ghost tail = views(v@);
        f.append(&mut v);
        assert(views(f@) =~= head + tail);
        assert(views(f@) =~= building_fields(*self));
        let none: Vec<char> = Vec::new();
        record_line(&f, none.as_slice())
    }

    /// The text of building needs of heating (CAL), cooling (REF) or domestic hot water (ACS),
    /// with at least one value and values that read back as themselves, reads without error
    /// and gives them back.
    pub proof fn lemma_services_read(e: BuildingNeeds<String>)
        requires
            e.service == Service::CAL || e.service == Service::REF || e.service == Service::ACS,
            plain_values_comment(e.values@, Seq::<char>::empty()),
            e.values.len() > 0,
        ensures
            building_error(record_text(building_fields(e), Seq::<char>::empty())) is None,
            building_read(e, record_text(building_fields(e), Seq::<char>::empty())),
    {
        Self::lemma_text_roundtrip(e);
    }

    /// Reading the text of building needs with at least one value, whose values read back as
    /// themselves, gives them back.
    pub proof fn lemma_text_roundtrip(e: BuildingNeeds<String>)
        requires
            plain_values_comment(e.values@, Seq::<char>::empty()),
            is_needs_service(e.service),
            e.values.len() > 0,
        ensures
            building_error(record_text(building_fields(e), Seq::<char>::empty())) is None,
            building_read(e, record_text(building_fields(e), Seq::<char>::empty())),
    {
        let f = building_fields(e);
        Service::lemma_name_plain(e.service);
        Service::lemma_name_roundtrip(e.service);
        reveal_strlit("DEMANDA");
        reveal_strlit("EDIFICIO");
        crate::record::lemma_trim_fixed("DEMANDA"@);
        assert(plain_field("DEMANDA"@));
        assert forall|i: int| 0 <= i < f.len() implies plain_field(#[trigger] f[i]) by {
            if i >= 2 {
                assert(f[i] == texts(e.values@)[i - 2]);
            }
        }
        assert(crate::text::trim(Seq::<char>::empty()) =~= Seq::<char>::empty());
        lemma_record_roundtrip(f, Seq::<char>::empty());
        assert("DEMANDA"@ != "EDIFICIO"@) by {
            assert("DEMANDA"@.len() != "EDIFICIO"@.len());
        }
        assert(f.skip(2) =~= texts(e.values@));
        lemma_all_numbers(texts(e.values@));
    }
}

/// The detail of the error that reading `s` as zone needs gives, if it gives one.
pub open spec fn zone_error(s: Seq<char>) -> Option<Seq<char>> {
    let f = fields_of(s);
    if f.len() < 4 {
        Some(s)
    } else if f[1] != "ZONA"@ || f[2] != "DEMANDA"@ {
        Some("No se reconoce el formato como elemento de Demanda: "@ + s)
    } else if i32_of_text(f[0]) is None {
        Some("Id erróneo en elemento de Demanda: "@ + s)
    } else if Service::spec_from_name(f[3]) is None {
        Some(f[3])
    } else if first_non_number(f.skip(4)) is Some {
        Some(number_error(first_non_number(f.skip(4))->0))
    } else {
        None
    }
}

/// Whether `e` is what the record `s` reads as zone needs:
/// `id, ZONA, DEMANDA, service, values... [# comment]`.
pub open spec fn zone_read(e: ZoneNeeds<String>, s: Seq<char>) -> bool {
    let f = fields_of(s);
    &&& i32_of_text(f[0]) == Some(e.id)
    &&& Service::spec_from_name(f[3]) == Some(e.service)
    &&& texts(e.values@) == f.skip(4)
    &&& e.comment@ == comment_of(s)
}

/// The fields of the text of zone needs.
pub open spec fn zone_fields(e: ZoneNeeds<String>) -> Seq<Seq<char>> {
    seq![int_text(e.id as int), "ZONA"@, "DEMANDA"@, e.service.spec_name()] + texts(e.values@)
}

impl ZoneNeeds<String> {
    /// Reads zone needs from its text: `id, ZONA, DEMANDA, service, values... [# comment]`.
    pub fn from_text(s: &str) -> (r: Result<ZoneNeeds<String>, EpbdError>)
        ensures
            match zone_error(s@) {
                Some(m) => is_parse_error(r, m),
                None => r matches Ok(e) && zone_read(e, s@),
            },
    {
        let (f, comment) = split_record(s);
        if f.len() < 4 {
            return Err(EpbdError::ParseError(string_of(chars_of(s).as_slice())));
        }
        assert(views(f@)[0] == f@[0]@);
        assert(views(f@)[1] == f@[1]@);
        assert(views(f@)[2] == f@[2]@);
        assert(views(f@)[3] == f@[3]@);
        if !chars_eq(f[1].as_slice(), chars_of("ZONA").as_slice()) || !chars_eq(
            f[2].as_slice(),
            chars_of("DEMANDA").as_slice(),
        ) {
            return Err(
                EpbdError::ParseError(
                    concat("No se reconoce el formato como elemento de Demanda: ", s),
                ),
            );
        }
        let id = match parse_i32(f[0].as_slice()) {
            Some(i) => i,
            None => {
                return Err(
                    EpbdError::ParseError(concat("Id erróneo en elemento de Demanda: ", s)),
                );
            },
        };
        let service = match Service::from_chars(f[3].as_slice()) {
            Ok(x) => x,
            Err(e) => {
                return Err(e);
            },
        };
        let values = strings_from(&f, 4);
        let bad = find_non_number(&values);
        if bad.is_some() {
            return Err(number_error_of(bad));
        }
        Ok(ZoneNeeds { id, service, values, comment: string_of(comment.as_slice()) })
    }

    /// The text of zone needs: `id, ZONA, DEMANDA, service, values...`, then ` # comment`
    /// when the comment is not empty.
    pub fn to_text(&self) -> (r: String)
        ensures
            r@ == record_text(zone_fields(*self), self.comment@),
    {
        let mut f: Vec<Vec<char>> = Vec::new();
        f.push(i32_chars(self.id));
        f.push(chars_of("ZONA"));
        f.push(chars_of("DEMANDA"));
        f.push(chars_of(self.service.as_str()));
        let mut v = chars_each(&self.values);
        let ghost head = views(f@);
        let ghost tail = views(v@);
        f.append(&mut v);
        assert(views(f@) =~= head + tail);
        assert(views(f@) =~= zone_fields(*self));
        record_line(&f, chars_of(self.comment.as_str()).as_slice())
    }

    /// Reading the text of zone needs whose values and comment read back as themselves
    /// gives them back.
    pub proof fn lemma_text_roundtrip(e: ZoneNeeds<String>)
        requires
            plain_values_comment(e.values@, e.comment@),
        ensures
            zone_error(record_text(zone_fields(e), e.comment@)) is None,
            zone_read(e, record_text(zone_fields(e), e.comment@)),
    {
        let f = zone_fields(e);
        lemma_int_text_plain(e.id as int);
        Service::lemma_name_plain(e.service);
        Service::lemma_name_roundtrip(e.service);
        lemma_i32_text_roundtrip(e.id);
        reveal_strlit("ZONA");
        reveal_strlit("DEMANDA");
        crate::record::lemma_trim_fixed("ZONA"@);
        crate::record::lemma_trim_fixed("DEMANDA"@);
        assert(plain_field("ZONA"@));
        assert(plain_field("DEMANDA"@));
        assert forall|i: int| 0 <= i < f.len() implies plain_field(#[trigger] f[i]) by {
            if i >= 4 {
                assert(f[i] == texts(e.values@)[i - 4]);
            }
        }
        lemma_record_roundtrip(f, e.comment@);
        assert(f.skip(4) =~= texts(e.values@));
        lemma_all_numbers(texts(e.values@));
    }
}

/// The detail of the error that reading `s` as system needs gives, if it gives one.
pub open spec fn system_error(s: Seq<char>) -> Option<Seq<char>> {
    let f = fields_of(s);
    if f.len() < 4 {
        Some(s)
    } else if f[1] != "SISTEMA"@ || f[2] != "DEMANDA"@ {
        Some("No se reconoce el formato como componente de Demanda sobre el Sistema: "@ + s)
    } else if i32_of_text(f[0]) is None {
        Some("Id erróneo en componente de Demanda sobre el Sistema: "@ + s)
    } else if Service::spec_from_name(f[3]) is None {
        Some(f[3])
    } else if first_non_number(f.skip(4)) is Some {
        Some(number_error(first_non_number(f.skip(4))->0))
    } else {
        None
    }
}

/// Whether `e` is what the record `s` reads as system needs:
/// `id, SISTEMA, DEMANDA, service, values... [# comment]`.
pub open spec fn system_read(e: SystemNeeds<String>, s: Seq<char>) -> bool {
    let f = fields_of(s);
    &&& i32_of_text(f[0]) == Some(e.id)
    &&& Service::spec_from_name(f[3]) == Some(e.service)
    &&& texts(e.values@) == f.skip(4)
    &&& e.comment@ == comment_of(s)
}

/// The fields of the text of system needs.
pub open spec fn system_fields(e: SystemNeeds<String>) -> Seq<Seq<char>> {
    seq![int_text(e.id as int), "SISTEMA"@, "DEMANDA"@, e.service.spec_name()] + texts(e.values@)
}

impl<T> SystemNeeds<T> {
    /// Whether these are the needs of the service.
    pub fn has_service(&self, service: Service) -> (r: bool)
        ensures
            r == (self.service == service),
    {
        self.service == service
    }
}

impl SystemNeeds<String> {
    /// Reads system needs from its text: `id, SISTEMA, DEMANDA, service, values... [# comment]`.
    pub fn from_text(s: &str) -> (r: Result<SystemNeeds<String>, EpbdError>)
        ensures
            match system_error(s@) {
                Some(m) => is_parse_error(r, m),
                None => r matches Ok(e) && system_read(e, s@),
            },
    {
        let (f, comment) = split_record(s);
        if f.len() < 4 {
            return Err(EpbdError::ParseError(string_of(chars_of(s).as_slice())));
        }
        assert(views(f@)[0] == f@[0]@);
        assert(views(f@)[1] == f@[1]@);
        assert(views(f@)[2] == f@[2]@);
        assert(views(f@)[3] == f@[3]@);
        if !chars_eq(f[1].as_slice(), chars_of("SISTEMA").as_slice()) || !chars_eq(
            f[2].as_slice(),
            chars_of("DEMANDA").as_slice(),
        ) {
            return Err(
                EpbdError::ParseError(
                    concat("No se reconoce el formato como componente de Demanda sobre el Sistema: ", s),
                ),
            );
        }
        let id = match parse_i32(f[0].as_slice()) {
            Some(i) => i,
            None => {
                return Err(
                    EpbdError::ParseError(
                        concat("Id erróneo en componente de Demanda sobre el Sistema: ", s),
                    ),
                );
            },
        };
        let service = match Service::from_chars(f[3].as_slice()) {
            Ok(x) => x,
            Err(e) => {
                return Err(e);
            },
        };
        let values = strings_from(&f, 4);
        let bad = find_non_number(&values);
        if bad.is_some() {
            return Err(number_error_of(bad));
        }
        Ok(SystemNeeds { id, service, values, comment: string_of(comment.as_slice()) })
    }

    /// The text of system needs: `id, SISTEMA, DEMANDA, service, values...`, then
    /// ` # comment` when the comment is not empty.
    pub fn to_text(&self) -> (r: String)
        ensures
            r@ == record_text(system_fields(*self), self.comment@),
    {
        let mut f: Vec<Vec<char>> = Vec::new();
        f.push(i32_chars(self.id));
        f.push(chars_of("SISTEMA"));
        f.push(chars_of("DEMANDA"));
        f.push(chars_of(self.service.as_str()));
        let mut v = chars_each(&self.values);
        let ghost head = views(f@);
        let ghost tail = views(v@);
        f.append(&mut v);
        assert(views(f@) =~= head + tail);
        assert(views(f@) =~= system_fields(*self));
        record_line(&f, chars_of(self.comment.as_str()).as_slice())
    }

    /// Reading the text of system needs whose values and comment read back as themselves
    /// gives them back.
    pub proof fn lemma_text_roundtrip(e: SystemNeeds<String>)
        requires
            plain_values_comment(e.values@, e.comment@),
        ensures
            system_error(record_text(system_fields(e), e.comment@)) is None,
            system_read(e, record_text(system_fields(e), e.comment@)),
    {
        let f = system_fields(e);
        lemma_int_text_plain(e.id as int);
        Service::lemma_name_plain(e.service);
        Service::lemma_name_roundtrip(e.service);
        lemma_i32_text_roundtrip(e.id);
        reveal_strlit("SISTEMA");
        reveal_strlit("DEMANDA");
        crate::record::lemma_trim_fixed("SISTEMA"@);
        crate::record::lemma_trim_fixed("DEMANDA"@);
        assert(plain_field("SISTEMA"@));
        assert(plain_field("DEMANDA"@));
        assert forall|i: int| 0 <= i < f.len() implies plain_field(#[trigger] f[i]) by {
            if i >= 4 {
                assert(f[i] == texts(e.values@)[i - 4]);
            }
        }
        lemma_record_roundtrip(f, e.comment@);
        assert(f.skip(4) =~= texts(e.values@));
        lemma_all_numbers(texts(e.values@));
    }
}

impl std::str::FromStr for SystemNeeds<String> {
    type Err = EpbdError;

    fn from_str(s: &str) -> (r: Result<SystemNeeds<String>, EpbdError>)
        ensures
            match system_error(s@) {
                Some(m) => is_parse_error(r, m),
                None => r matches Ok(e) && system_read(e, s@),
            },
    {
        SystemNeeds::from_text(s)
    }
}

impl std::str::FromStr for BuildingNeeds<String> {
    type Err = EpbdError;

    fn from_str(s: &str) -> (r: Result<BuildingNeeds<String>, EpbdError>)
        ensures
            match building_error(s@) {
                Some(m) => is_parse_error(r, m),
                None => r matches Ok(e) && building_read(e, s@),
            },
    {
        BuildingNeeds::from_text(s)
    }
}

impl std::str::FromStr for ZoneNeeds<String> {
    type Err = EpbdError;

    fn from_str(s: &str) -> (r: Result<ZoneNeeds<String>, EpbdError>)
        ensures
            match zone_error(s@) {
                Some(m) => is_parse_error(r, m),
                None => r matches Ok(e) && zone_read(e, s@),
            },
    {
        ZoneNeeds::from_text(s)
    }
}

} // verus!
