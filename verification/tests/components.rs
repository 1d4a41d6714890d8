use cteepbd::error::EpbdError;
use cteepbd::{Carrier, Components, EAux, EProd, EUsed, Energy, MetaVec, Pick, ProdSource, Service};

const TCOMPS1: &str = "#META CTE_AREAREF: 100.5
0, PRODUCCION, EL_INSITU, 8.20, 6.56, 4.10, 3.69, 2.05, 2.46, 3.28, 2.87, 2.05, 3.28, 4.92, 6.56
0, CONSUMO, REF, ELECTRICIDAD, 16.39, 13.11, 8.20, 7.38, 4.10, 4.92, 6.56, 5.74, 4.10, 6.56, 9.84, 13.11
0, CONSUMO, CAL, ELECTRICIDAD, 16.39, 13.11, 8.20, 7.38, 4.10, 4.92, 6.56, 5.74, 4.10, 6.56, 9.84, 13.11
0, CONSUMO, CAL, EAMBIENTE, 6.39, 3.11, 8.20, 17.38, 4.10, 4.92, 6.56, 5.74, 4.10, 6.56, 9.84, 3.11
0, PRODUCCION, EAMBIENTE, 6.39, 3.11, 8.20, 17.38, 4.10, 4.92, 6.56, 5.74, 4.10, 6.56, 9.84, 3.11 # Equilibrado de consumo sin producción declarada";

#[test]
fn tcomponents_parse() {
    let tcomps = Components::from_text(TCOMPS1).unwrap();
    assert_eq!(tcomps.to_text(), TCOMPS1);
}

#[test]
fn tcomponents_extended_parse() {
    let text = "#META CTE_AREAREF: 1.0
            0, ZONA, DEMANDA, REF, -3.0 # Demanda ref. edificio
            0, ZONA, DEMANDA, CAL, 3.0 # Demanda cal. edificio
            1, PRODUCCION, EL_INSITU, 2.00 # Producción PV
            2, CONSUMO, CAL, ELECTRICIDAD, 1.00 # BdC modo calefacción
            2, CONSUMO, CAL, EAMBIENTE, 2.00 # BdC modo calefacción
            2, SALIDA, CAL, 3.0 # Energía entregada por el equipo de calefacción con COP 3
            2, CONSUMO, ACS, ELECTRICIDAD, 1.0 # BdC modo ACS
            2, CONSUMO, ACS, EAMBIENTE, 2.0 # BdC modo ACS
            2, SALIDA, ACS, 3.0 # Energía entregada por el equipo de acs con COP_dhw 3
            2, AUX, 0.5 # Auxiliares ACS BdC
            3, CONSUMO, REF, ELECTRICIDAD, 1.00 # BdC modo refrigeración
            3, SALIDA, REF, -3.0 # Energía absorbida por el equipo de refrigeración con EER 3
            ";
    assert!(!Components::stops_at_system_line(text));
    let c = Components::from_text(text).unwrap();
    assert_eq!(c.zones.len(), 2);
    assert_eq!(c.cdata.len(), 10);
    assert_eq!(c.cmeta.len(), 1);
}

#[test]
fn components_with_bom_comments_and_building_needs() {
    let text = "\u{feff}# Bomba de calor
vector, tipo, valores
EDIFICIO,DEMANDA,ACS,100 # Demanda anual ACS (kWh)
1,CONSUMO,ACS,ELECTRICIDAD,100 # BdC 1

#CTE_AREAREF: 10";
    let c = Components::from_text(text).unwrap();
    assert_eq!(c.building.len(), 1);
    assert_eq!(c.building[0].service, Service::ACS);
    assert_eq!(c.cdata.len(), 1);
    assert_eq!(c.get_meta("AREAREF"), Some("10".to_string()));
}

#[test]
fn components_errors() {
    assert_eq!(
        Components::from_text("0, CONSUMO, CAL, GLP, 1, 2\n0, CONSUMO, CAL, GLP, 1").unwrap_err(),
        EpbdError::ParseError("Componentes con distinto número de pasos de cálculo".into())
    );
    assert_eq!(
        Components::from_text("0, CONSUMIDO, CAL, GLP, 1").unwrap_err(),
        EpbdError::ParseError(
            "ERROR: No se reconoce el componente de la línea: 0, CONSUMIDO, CAL, GLP, 1 CONSUMIDO".into()
        )
    );
    assert_eq!(
        Components::from_text("#META CTE_AREAREF 1\n0, CONSUMIDO, CAL, GLP, 1").unwrap_err(),
        EpbdError::ParseError("#META CTE_AREAREF 1".into())
    );
    assert!(Components::stops_at_system_line("1, SISTEMA, DEMANDA, CAL, 1"));
    assert!(!Components::stops_at_system_line("#META X\n1, SISTEMA, DEMANDA, CAL, 1"));
    assert!(!Components::stops_at_system_line("1, ZONA, CAL\n1, SISTEMA, DEMANDA, CAL, 1"));
}

fn used(id: i32, service: Service, carrier: Carrier, v: f32) -> Energy<f32> {
    Energy::Used(EUsed { id, carrier, service, values: vec![v], comment: String::new() })
}

fn prod(id: i32, source: ProdSource, v: f32) -> Energy<f32> {
    Energy::Prod(EProd { id, source, values: vec![v], comment: String::new() })
}

#[test]
fn sort_by_id_is_stable() {
    let mut c: Components<f32> = Components {
        cmeta: vec![],
        cdata: vec![
            used(2, Service::CAL, Carrier::GLP, 1.0),
            used(1, Service::ACS, Carrier::GLP, 2.0),
            prod(2, ProdSource::EL_INSITU, 3.0),
            used(1, Service::REF, Carrier::GLP, 4.0),
            used(0, Service::CAL, Carrier::GLP, 5.0),
        ],
        building: vec![],
        zones: vec![],
    };
    c.sort_by_id();
    let ids: Vec<i32> = c.cdata.iter().map(|e| e.id()).collect();
    assert_eq!(ids, vec![0, 1, 1, 2, 2]);
    let vals: Vec<f32> = c.cdata.iter().map(|e| e.values()[0]).collect();
    assert_eq!(vals, vec![5.0, 2.0, 4.0, 1.0, 3.0]);
}

#[test]
fn carriers_ids_and_positions() {
    let mut c: Components<f32> = Components {
        cmeta: vec![],
        cdata: vec![
            used(1, Service::ACS, Carrier::EAMBIENTE, 150.0),
            used(2, Service::CAL, Carrier::EAMBIENTE, 300.0),
            prod(0, ProdSource::EAMBIENTE, 100.0),
            prod(1, ProdSource::EAMBIENTE, 100.0),
            used(1, Service::ACS, Carrier::ELECTRICIDAD, 100.0),
            Energy::Aux(EAux { id: 2, service: Service::NEPB, values: vec![5.0], comment: String::new() }),
        ],
        building: vec![],
        zones: vec![],
    };
    let carriers = c.available_carriers();
    assert_eq!(carriers, vec![Carrier::EAMBIENTE, Carrier::ELECTRICIDAD]);
    assert_eq!(c.num_steps(), 1);
    assert_eq!(c.ids_of(Pick::UseOf(Carrier::EAMBIENTE)), vec![1, 2]);
    assert_eq!(c.positions_of(Pick::CarrierOf(Carrier::EAMBIENTE, 1, true)), vec![0]);
    assert_eq!(c.positions_of(Pick::CarrierOf(Carrier::EAMBIENTE, 1, false)), vec![3]);
    assert_eq!(c.positions_of(Pick::KeptFor(Service::ACS)), vec![0, 2, 3, 4]);
    assert_eq!(c.services_of(Pick::UseBy(1)), vec![Service::ACS]);
    assert_eq!(c.ids_of(Pick::Aux), vec![2]);
    assert!(c.any_of(Pick::NepbUse));
    assert!(!c.any_of(Pick::CogenProduced));
    c.assign_aux_service(2, Service::CAL);
    assert_eq!(c.cdata[5].service(), Service::CAL);
    assert_eq!(c.cdata[1].service(), Service::CAL);
    c.remove_aux(7);
    assert_eq!(c.cdata.len(), 6);
    c.remove_aux(2);
    assert_eq!(c.cdata.len(), 5);
    let p = Components::onsite_balance(2, Carrier::EAMBIENTE, vec![200.0f32]);
    assert_eq!(p.comment(), "Equilibrado de consumo sin producción declarada");
    assert!(matches!(p, Energy::Prod(EProd { source: ProdSource::EAMBIENTE, .. })));
    let a = Components::aux_share(2, Service::ACS, vec![2.5f32]);
    assert_eq!(a.comment(), "Reasignación automática de consumos auxiliares");
    assert_eq!(
        Components::<f32>::aux_split_error(-4),
        EpbdError::WrongInput(
            "Sin datos de energía saliente para hacer el reparto de los consumos auxiliares del sistema -4".into()
        )
    );
}

#[test]
fn service_meta() {
    let mut c = Components::from_text(TCOMPS1).unwrap();
    c.set_meta("CTE_SERVICIO", Service::CAL.as_str());
    assert!(c.has_meta_value("CTE_SERVICIO", "CAL"));
    assert!(c.has_meta("CTE_AREAREF"));
    assert_eq!(
        cteepbd::components::reassigned_production_comment(""),
        " Producción eléctrica reasignada al servicio"
    );
}

#[test]
fn dhw_biomass_systems_need_their_output() {
    let ok = Components::from_text(
        "1, CONSUMO, ACS, BIOMASA, 1.0, 2.0\n1, SALIDA, ACS, 0.8, 1.6\n2, CONSUMO, CAL, BIOMASA, 1.0, 1.0\n3, CONSUMO, ACS, BIOMASA, 1.0, 1.0\n3, SALIDA, ACS, 0.9, 0.9\n1, CONSUMO, ACS, BIOMASA, 0.5, 0.5",
    )
    .unwrap();
    assert_eq!(ok.dhw_biomass_systems(Carrier::BIOMASA), Ok(vec![1, 3]));
    assert_eq!(ok.dhw_biomass_systems(Carrier::BIOMASADENSIFICADA), Ok(vec![]));

    let missing = Components::from_text(
        "1, CONSUMO, ACS, BIOMASA, 1.0\n1, SALIDA, CAL, 0.8\n4, CONSUMO, ACS, BIOMASA, 1.0",
    )
    .unwrap();
    assert_eq!(
        missing.dhw_biomass_systems(Carrier::BIOMASA),
        Err(EpbdError::WrongInput(
            "Uso de biomasa en el sistema con id:1 sin definición de la energía entregada para el servicio de ACS.".into()
        ))
    );
}
