use cteepbd::error::EpbdError;
use cteepbd::types::metavec::{get_meta, has_meta, has_meta_value, set_meta};
use cteepbd::types::meta::escape_xml;
use cteepbd::{Carrier, Dest, Meta, ProdSource, Service, Source, Step};

#[test]
fn types_tmeta() {
    let meta = Meta {
        key: "CTE_FUENTE".to_string(),
        value: "CTE2013".to_string(),
    };
    let metastr = "#META CTE_FUENTE: CTE2013";
    assert_eq!(meta.to_text(), metastr);
    assert_eq!(Meta::from_text(metastr).unwrap().to_text(), metastr);
}

#[test]
fn tmeta_tmeta() {
    let meta = Meta {
        key: "CTE_FUENTE".to_string(),
        value: "RITE2014".to_string(),
    };
    let meta2 = Meta::new("CTE_FUENTE", "RITE2014");
    let metastr = "#META CTE_FUENTE: RITE2014";
    assert_eq!(meta.to_text(), metastr);
    assert_eq!(meta2.to_text(), metastr);
    assert_eq!(Meta::from_text(metastr).unwrap().to_text(), metastr);
}

#[test]
fn meta_legacy_keys_and_marker() {
    let m = Meta::from_text("  #CTE_Area_ref: 100.5  ").unwrap();
    assert_eq!(m.key, "CTE_AREAREF");
    assert_eq!(m.value, "100.5");
    let m = Meta::from_text("#META Localizacion: PENINSULA").unwrap();
    assert_eq!(m.key, "CTE_LOCALIZACION");
    let m = Meta::from_text("#META kexp:0.0").unwrap();
    assert_eq!(m.key, "CTE_KEXP");
    assert_eq!(m.value, "0.0");
}

#[test]
fn meta_without_colon_is_error() {
    assert_eq!(
        Meta::from_text("#META CTE_FUENTE RITE2014").unwrap_err(),
        EpbdError::ParseError("#META CTE_FUENTE RITE2014".to_string())
    );
}

#[test]
fn meta_xml_escapes() {
    let m = Meta::new("a<b", "x & \"y\" 'w' \\ z>");
    assert_eq!(
        m.to_xml(),
        "<Metadato><Clave>a&lt;b</Clave><Valor>x &amp; &quot;y&quot; &apos;w&apos; \\ z&gt;</Valor></Metadato>"
    );
    assert_eq!(escape_xml("<&>"), "&lt;&amp;&gt;");
    assert_eq!(escape_xml("a<b & 'c'"), "a&lt;b &amp; &apos;c&apos;");
    assert_eq!(escape_xml("&lt;"), "&amp;lt;");
}

#[test]
fn metavec_set_then_get() {
    let mut m = vec![Meta::new("A", "1"), Meta::new("B", "2")];
    assert!(has_meta(&m, "A"));
    assert!(!has_meta(&m, "C"));
    assert!(has_meta_value(&m, "B", "2"));
    assert!(!has_meta_value(&m, "B", "3"));
    set_meta(&mut m, "B", "5");
    assert_eq!(get_meta(&m, "B"), Some("5".to_string()));
    assert_eq!(get_meta(&m, "A"), Some("1".to_string()));
    assert_eq!(m.len(), 2);
    set_meta(&mut m, "C", "7");
    assert_eq!(get_meta(&m, "C"), Some("7".to_string()));
    assert_eq!(m.len(), 3);
    set_meta(&mut m, "C", "7");
    assert_eq!(m.len(), 3);
    assert_eq!(get_meta(&m, "D"), None);
}

#[test]
fn names_roundtrip() {
    for c in [
        Carrier::EAMBIENTE,
        Carrier::BIOCARBURANTE,
        Carrier::BIOMASA,
        Carrier::BIOMASADENSIFICADA,
        Carrier::CARBON,
        Carrier::ELECTRICIDAD,
        Carrier::GASNATURAL,
        Carrier::GASOLEO,
        Carrier::GLP,
        Carrier::RED1,
        Carrier::RED2,
        Carrier::TERMOSOLAR,
    ] {
        assert_eq!(c.as_str().parse::<Carrier>().unwrap(), c);
    }
    for s in [
        Service::ACS,
        Service::CAL,
        Service::REF,
        Service::VEN,
        Service::ILU,
        Service::NEPB,
        Service::COGEN,
    ] {
        assert_eq!(s.as_str().parse::<Service>().unwrap(), s);
    }
    assert_eq!("EL_INSITU".parse::<ProdSource>().unwrap(), ProdSource::EL_INSITU);
    assert_eq!("COGEN".parse::<Source>().unwrap(), Source::COGEN);
    assert_eq!("A_NEPB".parse::<Dest>().unwrap(), Dest::A_NEPB);
    assert_eq!("B".parse::<Step>().unwrap(), Step::B);
    assert_eq!(
        "ELECTRICITY".parse::<Carrier>().unwrap_err(),
        EpbdError::ParseError("ELECTRICITY".to_string())
    );
}

#[test]
fn carrier_perimeters() {
    assert!(Carrier::BIOMASA.is_nearby());
    assert!(Carrier::RED1.is_nearby());
    assert!(!Carrier::ELECTRICIDAD.is_nearby());
    assert!(Carrier::EAMBIENTE.is_onsite());
    assert!(Carrier::TERMOSOLAR.is_onsite());
    assert!(!Carrier::GASNATURAL.is_onsite());
    assert_eq!(Carrier::from(ProdSource::EL_COGEN), Carrier::ELECTRICIDAD);
    assert_eq!(Source::from(ProdSource::EL_COGEN), Source::COGEN);
    assert_eq!(Source::from(ProdSource::TERMOSOLAR), Source::INSITU);
}

#[test]
fn service_kinds() {
    assert!(Service::CAL.is_epb());
    assert!(!Service::NEPB.is_epb());
    assert!(!Service::COGEN.is_epb());
    assert!(Service::NEPB.is_nepb());
    assert!(Service::COGEN.is_cogen());
}

#[test]
fn production_priorities() {
    let (el_sorted, el) = ProdSource::get_priorities(Carrier::ELECTRICIDAD);
    assert!(el_sorted);
    assert_eq!(el, vec![ProdSource::EL_INSITU, ProdSource::EL_COGEN]);
    let (ea_sorted, ea) = ProdSource::get_priorities(Carrier::EAMBIENTE);
    assert!(!ea_sorted);
    assert!(ea.is_empty());
}

#[test]
fn error_messages() {
    assert_eq!(
        EpbdError::ParseError("x".into()).message(),
        "No se ha podido interpretar x"
    );
    assert_eq!(
        EpbdError::WrongInput("y".into()).message(),
        "Valor de entrada incorrecto: y"
    );
    assert_eq!(
        EpbdError::MissingFactor("z".into()).message(),
        "Factor de paso no encontrado: z"
    );
}
