use cteepbd::error::EpbdError;
use cteepbd::{Carrier, Components, Dest, Factor, FactorTexts, Factors, MetaVec, Source, Step, UserWF};

type V = (f32, f32, f32);

fn to_numbers(f: Factors<FactorTexts>) -> Factors<V> {
    Factors {
        wmeta: f.wmeta,
        wdata: f
            .wdata
            .into_iter()
            .map(|x| Factor {
                carrier: x.carrier,
                source: x.source,
                dest: x.dest,
                step: x.step,
                values: (
                    x.values.ren.parse().unwrap(),
                    x.values.nren.parse().unwrap(),
                    x.values.co2.parse().unwrap(),
                ),
                comment: x.comment,
            })
            .collect(),
    }
}

fn to_texts(f: Factors<V>) -> Factors<FactorTexts> {
    Factors {
        wmeta: f.wmeta,
        wdata: f
            .wdata
            .into_iter()
            .map(|x| Factor {
                carrier: x.carrier,
                source: x.source,
                dest: x.dest,
                step: x.step,
                values: FactorTexts {
                    ren: format!("{:.3}", x.values.0),
                    nren: format!("{:.3}", x.values.1),
                    co2: format!("{:.3}", x.values.2),
                },
                comment: x.comment,
            })
            .collect(),
    }
}

#[test]
fn factor_tfactor() {
    let factor1 = Factor {
        carrier: "ELECTRICIDAD".parse().unwrap(),
        source: "RED".parse().unwrap(),
        dest: "SUMINISTRO".parse().unwrap(),
        step: "A".parse().unwrap(),
        values: FactorTexts {
            ren: format!("{:.3}", 0.414f32),
            nren: format!("{:.3}", 1.954f32),
            co2: format!("{:.3}", 0.331f32),
        },
        comment: "Electricidad de red paso A".into(),
    };
    let factor1str =
        "ELECTRICIDAD, RED, SUMINISTRO, A, 0.414, 1.954, 0.331 # Electricidad de red paso A";
    assert_eq!(factor1.to_text(), factor1str);
    assert_eq!(
        factor1str.parse::<Factor<FactorTexts>>().unwrap().to_text(),
        factor1str
    );
}

#[test]
fn wfactors_tfactors() {
    let tfactors1 = "#META CTE_FUENTE: RITE2014
#META CTE_FUENTE_COMENTARIO: Factores de paso del documento reconocido del IDAE de 20/07/2014
ELECTRICIDAD, RED, SUMINISTRO, A, 0.414, 1.954, 0.331 # Recursos usados para suministrar electricidad (peninsular) desde la red
ELECTRICIDAD, INSITU, SUMINISTRO, A, 1.000, 0.000, 0.000 # Recursos usados para producir electricidad in situ";
    assert_eq!(
        tfactors1.parse::<Factors<FactorTexts>>().unwrap().to_text(),
        tfactors1
    );
}

#[test]
fn set_user_factors() {
    let tfactors1 = "#META CTE_FUENTE: RITE2014
#META CTE_FUENTE_COMENTARIO: Factores de paso del documento reconocido del IDAE de 20/07/2014
ELECTRICIDAD, RED, SUMINISTRO, A, 0.414, 1.954, 0.331 # Recursos usados para suministrar electricidad (peninsular) desde la red
ELECTRICIDAD, INSITU, SUMINISTRO, A, 1.000, 0.000, 0.000 # Recursos usados para producir electricidad in situ
"
    .parse::<Factors<FactorTexts>>()
    .unwrap();
    let tfactorsres = "#META CTE_FUENTE: RITE2014
#META CTE_FUENTE_COMENTARIO: Factores de paso del documento reconocido del IDAE de 20/07/2014
ELECTRICIDAD, RED, SUMINISTRO, A, 0.414, 1.954, 0.331 # Recursos usados para suministrar electricidad (peninsular) desde la red
ELECTRICIDAD, INSITU, SUMINISTRO, A, 1.000, 0.000, 0.000 # Recursos usados para producir electricidad in situ
ELECTRICIDAD, COGEN, A_RED, A, 0.125, 0.500, 1.000 # Factor de usuario
ELECTRICIDAD, COGEN, A_NEPB, A, 0.500, 0.125, 2.000 # Factor de usuario
RED1, RED, SUMINISTRO, A, 0.100, 0.125, 0.500 # Factor de usuario
RED2, RED, SUMINISTRO, A, 0.125, 0.100, 0.500 # Factor de usuario";
    let res = to_numbers(tfactors1).set_user_wfactors(UserWF {
        red1: Some((0.1, 0.125, 0.5)),
        red2: Some((0.125, 0.1, 0.5)),
        cogen_to_grid: Some((0.125, 0.5, 1.0)),
        cogen_to_nepb: Some((0.5, 0.125, 2.0)),
    });
    assert_eq!(to_texts(res).to_text(), tfactorsres);
}

const DEFAULTS: UserWF<V> = UserWF {
    red1: (0.0, 1.3, 0.3),
    red2: (0.0, 1.3, 0.3),
    cogen_to_grid: (0.0, 2.5, 0.3),
    cogen_to_nepb: (0.0, 2.5, 0.3),
};

#[test]
fn normalize_and_strip() {
    let tfactors = "#META CTE_FUENTE: RITE2014
#META CTE_FUENTE_COMENTARIO: Factores de paso del documento reconocido del IDAE de 20/07/2014
ELECTRICIDAD, RED, SUMINISTRO, A, 0.414, 1.954, 0.331 # Recursos usados para suministrar electricidad (peninsular) desde la red
ELECTRICIDAD, INSITU, SUMINISTRO, A, 1.000, 0.000, 0.000 # Recursos usados para producir electricidad in situ
".parse::<Factors<FactorTexts>>().unwrap();
    let tfactors_normalized_str = "#META CTE_FUENTE: RITE2014
#META CTE_FUENTE_COMENTARIO: Factores de paso del documento reconocido del IDAE de 20/07/2014
ELECTRICIDAD, RED, SUMINISTRO, A, 0.414, 1.954, 0.331 # Recursos usados para suministrar electricidad (peninsular) desde la red
ELECTRICIDAD, INSITU, SUMINISTRO, A, 1.000, 0.000, 0.000 # Recursos usados para producir electricidad in situ
EAMBIENTE, INSITU, SUMINISTRO, A, 1.000, 0.000, 0.000 # Recursos usados para obtener energía ambiente
EAMBIENTE, RED, SUMINISTRO, A, 1.000, 0.000, 0.000 # Recursos usados para obtener energía ambiente (red ficticia)
TERMOSOLAR, INSITU, SUMINISTRO, A, 1.000, 0.000, 0.000 # Recursos usados para obtener energía solar térmica
TERMOSOLAR, RED, SUMINISTRO, A, 1.000, 0.000, 0.000 # Recursos usados para obtener energía solar térmica (red ficticia)
ELECTRICIDAD, COGEN, SUMINISTRO, A, 0.000, 0.000, 0.000 # Factor de paso generado (el impacto de la cogeneración se tiene en cuenta en el vector de suministro)
ELECTRICIDAD, INSITU, A_RED, A, 1.000, 0.000, 0.000 # Recursos usados para producir la energía exportada a la red\nELECTRICIDAD, INSITU, A_NEPB, A, 1.000, 0.000, 0.000 # Recursos usados para producir la energía exportada a usos no EPB
ELECTRICIDAD, INSITU, A_RED, B, 0.414, 1.954, 0.331 # Recursos ahorrados a la red por la energía producida in situ y exportada a la red
ELECTRICIDAD, INSITU, A_NEPB, B, 0.414, 1.954, 0.331 # Recursos ahorrados a la red por la energía producida in situ y exportada a usos no EPB
ELECTRICIDAD, COGEN, A_RED, A, 0.000, 2.500, 0.300 # Recursos usados para producir la energía exportada a la red. Valor predefinido
ELECTRICIDAD, COGEN, A_NEPB, A, 0.000, 2.500, 0.300 # Recursos usados para producir la energía exportada a usos no EPB. Valor predefinido
ELECTRICIDAD, COGEN, A_RED, B, 0.414, 1.954, 0.331 # Recursos ahorrados a la red por la energía producida in situ y exportada a la red
ELECTRICIDAD, COGEN, A_NEPB, B, 0.414, 1.954, 0.331 # Recursos ahorrados a la red por la energía producida in situ y exportada a usos no EPB
EAMBIENTE, INSITU, A_RED, A, 1.000, 0.000, 0.000 # Recursos usados para producir la energía exportada a la red
EAMBIENTE, INSITU, A_NEPB, A, 1.000, 0.000, 0.000 # Recursos usados para producir la energía exportada a usos no EPB
EAMBIENTE, INSITU, A_RED, B, 1.000, 0.000, 0.000 # Recursos ahorrados a la red por la energía producida in situ y exportada a la red
EAMBIENTE, INSITU, A_NEPB, B, 1.000, 0.000, 0.000 # Recursos ahorrados a la red por la energía producida in situ y exportada a usos no EPB
TERMOSOLAR, INSITU, A_RED, A, 1.000, 0.000, 0.000 # Recursos usados para producir la energía exportada a la red
TERMOSOLAR, INSITU, A_NEPB, A, 1.000, 0.000, 0.000 # Recursos usados para producir la energía exportada a usos no EPB
TERMOSOLAR, INSITU, A_RED, B, 1.000, 0.000, 0.000 # Recursos ahorrados a la red por la energía producida in situ y exportada a la red
TERMOSOLAR, INSITU, A_NEPB, B, 1.000, 0.000, 0.000 # Recursos ahorrados a la red por la energía producida in situ y exportada a usos no EPB
RED1, RED, SUMINISTRO, A, 0.000, 1.300, 0.300 # Recursos usados para suministrar energía de la red de distrito 1 (definible por el usuario)
RED2, RED, SUMINISTRO, A, 0.000, 1.300, 0.300 # Recursos usados para suministrar energía de la red de distrito 2 (definible por el usuario)";
    let tcomps = Components::from_text("CONSUMO, CAL, ELECTRICIDAD, 1 # Solo consume electricidad de red")
        .unwrap();
    let tfactors_normalized_stripped_str = "#META CTE_FUENTE: RITE2014
#META CTE_FUENTE_COMENTARIO: Factores de paso del documento reconocido del IDAE de 20/07/2014
ELECTRICIDAD, RED, SUMINISTRO, A, 0.414, 1.954, 0.331 # Recursos usados para suministrar electricidad (peninsular) desde la red";

    let tfactors_normalized = to_numbers(tfactors)
        .normalize(&DEFAULTS, (1.0, 0.0, 0.0), (0.0, 0.0, 0.0))
        .unwrap();
    let tfactors_normalized_stripped = tfactors_normalized.clone().strip(&tcomps);

    assert_eq!(to_texts(tfactors_normalized).to_text(), tfactors_normalized_str);
    assert_eq!(
        to_texts(tfactors_normalized_stripped).to_text(),
        tfactors_normalized_stripped_str
    );
}

#[test]
fn normalize_missing_factors() {
    let f = to_numbers(
        "GLP, RED, SUMINISTRO, A, 0.003, 1.201, 0.254\nGASNATURAL, INSITU, SUMINISTRO, A, 1, 0, 0"
            .parse::<Factors<FactorTexts>>()
            .unwrap(),
    );
    assert_eq!(
        f.normalize(&DEFAULTS, (1.0, 0.0, 0.0), (0.0, 0.0, 0.0)).unwrap_err(),
        EpbdError::MissingFactor("Factores de red VECTOR, INSITU, SUMINISTRO, A, fren?, fnren?".into())
    );
    let f = to_numbers(
        "GLP, RED, SUMINISTRO, A, 0.003, 1.201, 0.254"
            .parse::<Factors<FactorTexts>>()
            .unwrap(),
    );
    assert_eq!(
        f.normalize(&DEFAULTS, (1.0, 0.0, 0.0), (0.0, 0.0, 0.0)).unwrap_err(),
        EpbdError::MissingFactor("ELECTRICIDAD, SUMINISTRO, A".into())
    );
}

#[test]
fn update_then_find() {
    let mut f: Factors<V> = Factors { wmeta: vec![], wdata: vec![] };
    f.update_wfactor(Carrier::GLP, Source::RED, Dest::SUMINISTRO, Step::A, (1.0, 2.0, 3.0), "x");
    f.update_wfactor(Carrier::GLP, Source::RED, Dest::SUMINISTRO, Step::A, (4.0, 5.0, 6.0), "y");
    assert_eq!(f.wdata.len(), 1);
    assert_eq!(f.wdata[0].values, (4.0, 5.0, 6.0));
    assert_eq!(f.wdata[0].comment, "x");
    f.ensure_wfactor(Carrier::GLP, Source::RED, Dest::SUMINISTRO, Step::A, (7.0, 8.0, 9.0), "z");
    assert_eq!(f.wdata.len(), 1);
    assert_eq!(f.wdata[0].factors(), (4.0, 5.0, 6.0));
    f.ensure_wfactor(Carrier::GLP, Source::RED, Dest::SUMINISTRO, Step::B, (7.0, 8.0, 9.0), "z");
    assert_eq!(f.find_wfactor(Carrier::GLP, Source::RED, Dest::SUMINISTRO, Step::B), Some(1));
    assert_eq!(f.find_wfactor(Carrier::GLP, Source::INSITU, Dest::SUMINISTRO, Step::B), None);
}

#[test]
fn to_nearby_converts_grid_factors() {
    let f = to_numbers(
        "GLP, RED, SUMINISTRO, A, 0.003, 1.201, 0.254 # gas\nBIOMASA, RED, SUMINISTRO, A, 1.003, 0.034, 0.018\nELECTRICIDAD, INSITU, SUMINISTRO, A, 1, 0, 0"
            .parse::<Factors<FactorTexts>>()
            .unwrap(),
    );
    let n = f.to_nearby(&[Carrier::BIOMASA], |v: V| (0.0, v.0 + v.1, v.2));
    assert_eq!(n.wdata[0].comment, "Perímetro nearby: gas");
    assert_eq!(n.wdata[0].values, (0.0, 0.003 + 1.201, 0.254));
    assert_eq!(n.wdata[1].values, f.wdata[1].values);
    assert_eq!(n.wdata[2].values, (1.0, 0.0, 0.0));
    assert!(n.has_meta_value("CTE_PERIMETRO", "NEARBY"));
}

#[test]
fn factor_errors() {
    assert_eq!(
        "ELECTRICIDAD, RED, SUMINISTRO, A, 0.414, 1.954".parse::<Factor<FactorTexts>>().unwrap_err(),
        EpbdError::ParseError("ELECTRICIDAD, RED, SUMINISTRO, A, 0.414, 1.954".into())
    );
    assert_eq!(
        "ELECTRICIDAD, RED, SUMINISTRO, C, 0.414, 1.954, 1".parse::<Factor<FactorTexts>>().unwrap_err(),
        EpbdError::ParseError("C".into())
    );
    assert_eq!(
        "ELECTRICIDAD, RED, SUMINISTRO, A, 0.414, x, 1".parse::<Factor<FactorTexts>>().unwrap_err(),
        EpbdError::ParseError("invalid float literal".into())
    );
    assert_eq!(
        "#META X: 1\nGLP, RED, SUMINISTRO, A, 1, 2".parse::<Factors<FactorTexts>>().unwrap_err(),
        EpbdError::ParseError("GLP, RED, SUMINISTRO, A, 1, 2".into())
    );
}

/// A table of factors by location with two locations.
fn loc_table() -> Vec<(String, Factors<V>)> {
    let pen = to_numbers(
        "#META CTE_LOCALIZACION: PENINSULA\nELECTRICIDAD, RED, SUMINISTRO, A, 0.414, 1.954, 0.331\nGLP, RED, SUMINISTRO, A, 0.003, 1.201, 0.254"
            .parse::<Factors<FactorTexts>>()
            .unwrap(),
    );
    let odd = to_numbers(
        "#META CTE_LOCALIZACION: SIN_RED\nGLP, RED, SUMINISTRO, A, 0.003, 1.201, 0.254"
            .parse::<Factors<FactorTexts>>()
            .unwrap(),
    );
    vec![("PENINSULA".to_string(), pen), ("SIN_RED".to_string(), odd)]
}

#[test]
fn wfactors_from_loc_normalizes_the_location() {
    let user = UserWF { red1: Some((0.1, 0.2, 0.3)), red2: None, cogen_to_grid: None, cogen_to_nepb: None };
    let w = cteepbd::cte::wfactors_from_loc("PENINSULA", loc_table(), user, &DEFAULTS, (1.0, 0.0, 0.0), (0.0, 0.0, 0.0))
        .unwrap();
    assert_eq!(w.get_meta("CTE_LOCALIZACION"), Some("PENINSULA".to_string()));
    let red1 = w.find_wfactor(Carrier::RED1, Source::RED, Dest::SUMINISTRO, Step::A).unwrap();
    assert_eq!(w.wdata[red1].values, (0.1, 0.2, 0.3));
    let el_b = w.find_wfactor(Carrier::ELECTRICIDAD, Source::INSITU, Dest::A_RED, Step::B).unwrap();
    assert_eq!(w.wdata[el_b].values, (0.414, 1.954, 0.331));
    assert!(w.find_wfactor(Carrier::EAMBIENTE, Source::INSITU, Dest::SUMINISTRO, Step::A).is_some());
}

#[test]
fn wfactors_from_loc_errors() {
    let user = UserWF { red1: None, red2: None, cogen_to_grid: None, cogen_to_nepb: None };
    assert_eq!(
        cteepbd::cte::wfactors_from_loc("MARTE", loc_table(), user, &DEFAULTS, (1.0, 0.0, 0.0), (0.0, 0.0, 0.0))
            .unwrap_err(),
        EpbdError::ParseError("Localizacion: MARTE".into())
    );
    assert_eq!(
        cteepbd::cte::wfactors_from_loc("SIN_RED", loc_table(), user, &DEFAULTS, (1.0, 0.0, 0.0), (0.0, 0.0, 0.0))
            .unwrap_err(),
        EpbdError::MissingFactor("ELECTRICIDAD, SUMINISTRO, A".into())
    );
}

#[test]
fn normalize_completes_the_factors() {
    let f = to_numbers(
        "ELECTRICIDAD, RED, SUMINISTRO, A, 0.414, 1.954, 0.331\nGLP, RED, SUMINISTRO, A, 0.003, 1.201, 0.254"
            .parse::<Factors<FactorTexts>>()
            .unwrap(),
    );
    let n = f.normalize(&DEFAULTS, (1.0, 0.0, 0.0), (0.0, 0.0, 0.0)).unwrap();
    let value = |c: Carrier, so: Source, d: Dest, st: Step| n.wdata[n.find_wfactor(c, so, d, st).unwrap()].values;
    assert_eq!(value(Carrier::GLP, Source::RED, Dest::SUMINISTRO, Step::A), (0.003, 1.201, 0.254));
    assert_eq!(value(Carrier::EAMBIENTE, Source::INSITU, Dest::SUMINISTRO, Step::A), (1.0, 0.0, 0.0));
    assert_eq!(value(Carrier::TERMOSOLAR, Source::RED, Dest::SUMINISTRO, Step::A), (1.0, 0.0, 0.0));
    assert_eq!(value(Carrier::ELECTRICIDAD, Source::COGEN, Dest::SUMINISTRO, Step::A), (0.0, 0.0, 0.0));
    assert_eq!(value(Carrier::ELECTRICIDAD, Source::INSITU, Dest::A_RED, Step::B), (0.414, 1.954, 0.331));
    assert_eq!(value(Carrier::ELECTRICIDAD, Source::COGEN, Dest::A_NEPB, Step::A), (0.0, 2.5, 0.3));
    assert_eq!(value(Carrier::TERMOSOLAR, Source::INSITU, Dest::A_NEPB, Step::B), (1.0, 0.0, 0.0));
    assert_eq!(value(Carrier::RED2, Source::RED, Dest::SUMINISTRO, Step::A), (0.0, 1.3, 0.3));
}

#[test]
fn normalize_keeps_user_values() {
    let f = to_numbers(
        "ELECTRICIDAD, RED, SUMINISTRO, A, 0.414, 1.954, 0.331"
            .parse::<Factors<FactorTexts>>()
            .unwrap(),
    );
    let user = UserWF {
        red1: Some((0.5, 0.5, 0.5)),
        red2: None,
        cogen_to_grid: Some((0.2, 2.0, 0.4)),
        cogen_to_nepb: None,
    };
    let n = f
        .set_user_wfactors(user)
        .normalize(&DEFAULTS, (1.0, 0.0, 0.0), (0.0, 0.0, 0.0))
        .unwrap();
    let value = |c: Carrier, so: Source, d: Dest, st: Step| n.wdata[n.find_wfactor(c, so, d, st).unwrap()].values;
    assert_eq!(value(Carrier::RED1, Source::RED, Dest::SUMINISTRO, Step::A), (0.5, 0.5, 0.5));
    assert_eq!(value(Carrier::RED2, Source::RED, Dest::SUMINISTRO, Step::A), (0.0, 1.3, 0.3));
    assert_eq!(value(Carrier::ELECTRICIDAD, Source::COGEN, Dest::A_RED, Step::A), (0.2, 2.0, 0.4));
    assert_eq!(value(Carrier::ELECTRICIDAD, Source::COGEN, Dest::A_NEPB, Step::A), (0.0, 2.5, 0.3));
}

#[test]
fn normalize_twice_changes_nothing() {
    let f = to_numbers(
        "#META CTE_FUENTE: RITE2014\nELECTRICIDAD, RED, SUMINISTRO, A, 0.414, 1.954, 0.331\nGLP, RED, SUMINISTRO, A, 0.003, 1.201, 0.254"
            .parse::<Factors<FactorTexts>>()
            .unwrap(),
    );
    let once = f.normalize(&DEFAULTS, (1.0, 0.0, 0.0), (0.0, 0.0, 0.0)).unwrap();
    let once_text = to_texts(once.clone()).to_text();
    let twice = once.normalize(&DEFAULTS, (1.0, 0.0, 0.0), (0.0, 0.0, 0.0)).unwrap();
    assert_eq!(to_texts(twice).to_text(), once_text);
}
