use cteepbd::error::EpbdError;
use cteepbd::{
    BuildingNeeds, Carrier, EAux, EOut, EProd, EUsed, Energy, ProdSource, Service, Source, SystemNeeds,
    ZoneNeeds,
};

fn fmt2(v: &[f32]) -> Vec<String> {
    v.iter().map(|x| format!("{:.2}", x)).collect()
}

#[test]
fn used_components_used_energy() {
    let component1 = EUsed {
        id: 0,
        carrier: "ELECTRICIDAD".parse().unwrap(),
        service: "ILU".parse().unwrap(),
        values: fmt2(&[
            1.0, 2.0, 3.0, 4.0, 5.0, 6.0, 7.0, 8.0, 9.0, 10.0, 11.0, 12.0,
        ]),
        comment: "Comentario cons 1".into(),
    };
    let component1str = "0, CONSUMO, ILU, ELECTRICIDAD, 1.00, 2.00, 3.00, 4.00, 5.00, 6.00, 7.00, 8.00, 9.00, 10.00, 11.00, 12.00 # Comentario cons 1";
    let component1str_legacy = "CONSUMO, ILU, ELECTRICIDAD, 1.00, 2.00, 3.00, 4.00, 5.00, 6.00, 7.00, 8.00, 9.00, 10.00, 11.00, 12.00 # Comentario cons 1";
    assert_eq!(component1.to_text(), component1str);
    assert_eq!(
        component1str.parse::<EUsed<String>>().unwrap().to_text(),
        component1str
    );
    assert_eq!(
        component1str_legacy.parse::<EUsed<String>>().unwrap().to_text(),
        component1str
    );
}

#[test]
fn prod_produced_energy_component() {
    let component2 = EProd {
        id: 0,
        source: "EL_INSITU".parse().unwrap(),
        values: fmt2(&[
            1.0, 2.0, 3.0, 4.0, 5.0, 6.0, 7.0, 8.0, 9.0, 10.0, 11.0, 12.0,
        ]),
        comment: "Comentario prod 1".into(),
    };
    let component2str = "0, PRODUCCION, EL_INSITU, 1.00, 2.00, 3.00, 4.00, 5.00, 6.00, 7.00, 8.00, 9.00, 10.00, 11.00, 12.00 # Comentario prod 1";
    let component2strlegacy = "PRODUCCION, EL_INSITU, 1.00, 2.00, 3.00, 4.00, 5.00, 6.00, 7.00, 8.00, 9.00, 10.00, 11.00, 12.00 # Comentario prod 1";
    assert_eq!(component2.to_text(), component2str);
    assert_eq!(
        component2str.parse::<EProd<String>>().unwrap().to_text(),
        component2str
    );
    assert_eq!(
        component2strlegacy.parse::<EProd<String>>().unwrap().to_text(),
        component2str
    );
}

#[test]
fn component_building_needs() {
    let component1 = BuildingNeeds {
        service: "REF".parse().unwrap(),
        values: fmt2(&[
            1.0, 2.0, 3.0, 4.0, 5.0, -6.0, -7.0, -8.0, -9.0, 10.0, 11.0, 12.0,
        ]),
    };
    let component1str = "DEMANDA, REF, 1.00, 2.00, 3.00, 4.00, 5.00, -6.00, -7.00, -8.00, -9.00, 10.00, 11.00, 12.00";
    assert_eq!(component1.to_text(), component1str);
    assert_eq!(
        component1str.parse::<BuildingNeeds<String>>().unwrap().to_text(),
        component1str
    );
}

#[test]
fn component_zone_needs() {
    let component1 = ZoneNeeds {
        id: 0,
        service: "REF".parse().unwrap(),
        values: fmt2(&[
            1.0, 2.0, 3.0, 4.0, 5.0, -6.0, -7.0, -8.0, -9.0, 10.0, 11.0, 12.0,
        ]),
        comment: "Comentario demanda zona 1".into(),
    };
    let component1str = "0, ZONA, DEMANDA, REF, 1.00, 2.00, 3.00, 4.00, 5.00, -6.00, -7.00, -8.00, -9.00, 10.00, 11.00, 12.00 # Comentario demanda zona 1";
    assert_eq!(component1.to_text(), component1str);
    assert_eq!(
        component1str.parse::<ZoneNeeds<String>>().unwrap().to_text(),
        component1str
    );
}

#[test]
fn component_system_needs() {
    let component1 = SystemNeeds {
        id: 0,
        service: "REF".parse().unwrap(),
        values: fmt2(&[
            -1.0, -2.0, -3.0, -4.0, -5.0, -6.0, -7.0, -8.0, -9.0, -10.0, -11.0, -12.0,
        ]),
        comment: "Comentario demanda sobre sistema 0".into(),
    };
    let component1str = "0, SISTEMA, DEMANDA, REF, -1.00, -2.00, -3.00, -4.00, -5.00, -6.00, -7.00, -8.00, -9.00, -10.00, -11.00, -12.00 # Comentario demanda sobre sistema 0";
    assert_eq!(component1.to_text(), component1str);
    assert_eq!(
        component1str.parse::<SystemNeeds<String>>().unwrap().to_text(),
        component1str
    );
}

#[test]
fn system_needs_errors() {
    let s = "0, ZONA, DEMANDA, REF, 1.0";
    assert_eq!(
        s.parse::<SystemNeeds<String>>().unwrap_err(),
        EpbdError::ParseError(format!(
            "No se reconoce el formato como componente de Demanda sobre el Sistema: {}",
            s
        ))
    );
    let s = "x, SISTEMA, DEMANDA, REF, 1.0";
    assert_eq!(
        s.parse::<SystemNeeds<String>>().unwrap_err(),
        EpbdError::ParseError(format!("Id erróneo en componente de Demanda sobre el Sistema: {}", s))
    );
    let t = "1, SISTEMA, DEMANDA, ACS, 1.0 # agua".parse::<SystemNeeds<String>>().unwrap();
    assert!(t.has_service(Service::ACS));
    assert!(!t.has_service(Service::CAL));
    assert_eq!(t.comment, "agua");
}

#[test]
fn aux_and_out_components() {
    let a = "2, AUX, 0.5 # Auxiliares ACS BdC".parse::<EAux<String>>().unwrap();
    assert_eq!(a.id, 2);
    assert_eq!(a.service, Service::NEPB);
    assert_eq!(a.values, vec!["0.5".to_string()]);
    assert_eq!(a.comment, "Auxiliares ACS BdC");
    assert_eq!(a.to_text(), "2, AUX, 0.5 # Auxiliares ACS BdC");
    let o = "3, SALIDA, REF, -3.0 # Absorbida".parse::<EOut<String>>().unwrap();
    assert_eq!(o.id, 3);
    assert_eq!(o.service, Service::REF);
    assert_eq!(o.to_text(), "3, SALIDA, REF, -3.0 # Absorbida");
    let no_id = "AUX, 1, 2".parse::<EAux<String>>().unwrap();
    assert_eq!(no_id.id, 0);
    assert_eq!(no_id.to_text(), "0, AUX, 1, 2");
}

#[test]
fn negative_ids_and_comments_with_marks() {
    let u = "-12, CONSUMO, CAL, GASNATURAL, 3 # a # b".parse::<EUsed<String>>().unwrap();
    assert_eq!(u.id, -12);
    assert_eq!(u.comment, "a # b");
    assert_eq!(u.to_text(), "-12, CONSUMO, CAL, GASNATURAL, 3 # a # b");
    let u = "+7, CONSUMO, CAL, GASNATURAL, 3".parse::<EUsed<String>>().unwrap();
    assert_eq!(u.id, 7);
}

#[test]
fn used_energy_errors() {
    assert_eq!(
        "CONSUMO, ILU".parse::<EUsed<String>>().unwrap_err(),
        EpbdError::ParseError("CONSUMO, ILU".into())
    );
    assert_eq!(
        "0, PRODUCCION, ILU, ELECTRICIDAD, 1".parse::<EUsed<String>>().unwrap_err(),
        EpbdError::ParseError(
            "Componente de energía consumida con formato incorrecto: 0, PRODUCCION, ILU, ELECTRICIDAD, 1".into()
        )
    );
    assert_eq!(
        "0, CONSUMO, XXX, ELECTRICIDAD, 1".parse::<EUsed<String>>().unwrap_err(),
        EpbdError::ParseError("XXX".into())
    );
    assert_eq!(
        "0, CONSUMO, CAL, ELEC, 1".parse::<EUsed<String>>().unwrap_err(),
        EpbdError::ParseError("ELEC".into())
    );
    assert_eq!(
        "0, CONSUMO, CAL, ELECTRICIDAD, 1, x".parse::<EUsed<String>>().unwrap_err(),
        EpbdError::ParseError(
            "se esperaban valores numéricos en línea `0, CONSUMO, CAL, ELECTRICIDAD, 1, x`".into()
        )
    );
}

#[test]
fn produced_energy_errors() {
    assert_eq!(
        "0, CONSUMO, EL_INSITU, 1".parse::<EProd<String>>().unwrap_err(),
        EpbdError::ParseError(
            "Componente de energía generada con formato incorrecto: 0, CONSUMO, EL_INSITU, 1".into()
        )
    );
    assert_eq!(
        "0, PRODUCCION, SOLAR, 1".parse::<EProd<String>>().unwrap_err(),
        EpbdError::ParseError("SOLAR".into())
    );
    assert_eq!(
        "0, PRODUCCION, EL_INSITU, 1..2".parse::<EProd<String>>().unwrap_err(),
        EpbdError::ParseError(
            "se esperaban valores numéricos en línea `0, PRODUCCION, EL_INSITU, 1..2`".into()
        )
    );
}

#[test]
fn aux_out_needs_errors() {
    assert_eq!(
        "1, AUX, 1, ".parse::<EAux<String>>().unwrap_err(),
        EpbdError::ParseError("cannot parse float from empty string".into())
    );
    assert_eq!(
        "1, SALIDA, CAL, 1e".parse::<EOut<String>>().unwrap_err(),
        EpbdError::ParseError("invalid float literal".into())
    );
    assert_eq!(
        "1, SALIDA, CAL".parse::<EOut<String>>().unwrap().values.len(),
        0
    );
    assert_eq!(
        "DEMANDA, ILU, 1".parse::<BuildingNeeds<String>>().unwrap_err(),
        EpbdError::ParseError("Servicio no soportado en componente de DEMANDA del edificio: ILU".into())
    );
    assert_eq!(
        "EDIFICIO, DEMANDA, ACS, 100".parse::<BuildingNeeds<String>>().unwrap().service,
        Service::ACS
    );
    assert_eq!(
        "x, ZONA, DEMANDA, CAL, 1".parse::<ZoneNeeds<String>>().unwrap_err(),
        EpbdError::ParseError("Id erróneo en elemento de Demanda: x, ZONA, DEMANDA, CAL, 1".into())
    );
    assert_eq!(
        "1, ZONA, CAL, 1".parse::<ZoneNeeds<String>>().unwrap_err(),
        EpbdError::ParseError("No se reconoce el formato como elemento de Demanda: 1, ZONA, CAL, 1".into())
    );
}

#[test]
fn number_texts() {
    for ok in ["1", "-1", "+1.5", "1.", ".5", "1e3", "1.5E-3", "inf", "-Infinity", "NaN"] {
        let line = format!("0, CONSUMO, CAL, GLP, {}", ok);
        assert!(line.parse::<EUsed<String>>().is_ok(), "{}", ok);
        assert!(ok.parse::<f32>().is_ok());
    }
    for bad in [".", "e3", "1e", "1.2.3", "--1", "infin", "1 2", "0x10"] {
        let line = format!("0, CONSUMO, CAL, GLP, {}", bad);
        assert!(line.parse::<EUsed<String>>().is_err(), "{}", bad);
        assert!(bad.parse::<f32>().is_err());
    }
}

#[test]
fn energy_accessors() {
    let p = Energy::Prod(EProd {
        id: 3,
        source: ProdSource::EL_COGEN,
        values: vec![1.0f32],
        comment: String::new(),
    });
    assert_eq!(p.id(), 3);
    assert_eq!(p.carrier(), Carrier::ELECTRICIDAD);
    assert_eq!(p.source(), Source::COGEN);
    assert!(p.is_generated() && p.is_cogen_pr() && !p.is_onsite_pr());
    assert!(p.is_electricity());
    assert!(!p.is_epb_use() && !p.is_nepb_use());
    let a = Energy::Aux(EAux {
        id: 1,
        service: Service::NEPB,
        values: vec![1.0f32, 2.0],
        comment: "c".into(),
    });
    assert_eq!(a.carrier(), Carrier::ELECTRICIDAD);
    assert!(a.is_nepb_use() && a.is_aux());
    assert_eq!(a.num_steps(), 2);
    assert_eq!(a.comment(), "c");
    let o = Energy::Out(EOut {
        id: 1,
        service: Service::CAL,
        values: vec![1.0f32],
        comment: String::new(),
    });
    assert!(!o.has_carrier(Carrier::ELECTRICIDAD));
    assert!(!o.is_electricity());
    assert!(o.has_service(Service::CAL));
    assert!(o.has_id(1) && !o.has_id(2));
}
