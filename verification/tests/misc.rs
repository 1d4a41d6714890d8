use cteepbd::{EpbdError, FactorTexts, MiscMap};

/// The three values of a text, as numbers.
fn triple(s: &str) -> (f32, f32, f32) {
    let t = FactorTexts::from_text(s).unwrap();
    (
        t.ren.parse::<f32>().unwrap(),
        t.nren.parse::<f32>().unwrap(),
        t.co2.parse::<f32>().unwrap(),
    )
}

#[test]
fn parse() {
    let val = (1.0, 0.0, 2.0);
    assert_eq!(triple("1.000, 0.000, 2.000"), val);
    assert_eq!(triple("(1.000, 0.000, 2.000)"), val);
    assert_eq!(triple("{ ren: 1.000, nren: 0.000, co2: 2.000 }"), val);
    assert_eq!(triple("{ co2: 2.000, nren: 0.000, ren: 1.000 }"), val);
}

#[test]
fn triple_texts_kept() {
    let t = FactorTexts::from_text("  ( 0.414 , 1.954,0.331 ) ").unwrap();
    assert_eq!(t.ren, "0.414");
    assert_eq!(t.nren, "1.954");
    assert_eq!(t.co2, "0.331");
}

#[test]
fn triple_named_defaults_and_last_wins() {
    // Missing values are 0.0, unknown keys and values that are not numbers are ignored,
    // and the last value of a key wins
    let t = FactorTexts::from_text("{ nren: 1.5, foo: 3, co2: x, nren: 2.5 }").unwrap();
    assert_eq!(t.ren, "0.0");
    assert_eq!(t.nren, "2.5");
    assert_eq!(t.co2, "0.0");
}

#[test]
fn triple_errors() {
    assert_eq!(
        FactorTexts::from_text("1.0, 2.0").unwrap_err(),
        EpbdError::ParseError("1.0, 2.0".to_string())
    );
    assert_eq!(
        FactorTexts::from_text(" (1.0, dos, 3.0) ").unwrap_err(),
        EpbdError::ParseError("1.0, dos, 3.0".to_string())
    );
    assert_eq!(
        FactorTexts::from_text("1, 2, 3, 4").unwrap_err(),
        EpbdError::ParseError("1, 2, 3, 4".to_string())
    );
}

#[test]
fn misc_insert_get_remove() {
    let mut m = MiscMap::new();
    assert_eq!(m.get("a"), None);
    m.insert("a", "1");
    m.insert("b", "dos");
    assert_eq!(m.get("a"), Some("1".to_string()));
    assert_eq!(m.get("b"), Some("dos".to_string()));
    m.insert("a", "3");
    assert_eq!(m.get("a"), Some("3".to_string()));
    assert_eq!(m.pairs().len(), 2);
    m.remove("a");
    assert_eq!(m.get("a"), None);
    assert_eq!(m.get("b"), Some("dos".to_string()));
    m.remove("zzz");
    assert_eq!(m.pairs(), vec![("b".to_string(), "dos".to_string())]);
}

#[test]
fn misc_number_text() {
    let mut m = MiscMap::new();
    m.insert("fraccion_renovable_demanda_acs_nrb", "0.625");
    m.insert("error_acs", "ERROR: no se puede calcular");
    assert_eq!(
        m.number_text("fraccion_renovable_demanda_acs_nrb"),
        Some("0.625".to_string())
    );
    assert_eq!(m.number_text("error_acs"), None);
    assert_eq!(m.number_text("missing"), None);
}

#[test]
fn misc_clone_keeps_values() {
    let mut m = MiscMap::new();
    m.insert("x", "1");
    m.insert("y", "2");
    let c = m.clone();
    assert_eq!(c.get("x"), Some("1".to_string()));
    assert_eq!(c.get("y"), Some("2".to_string()));
    assert_eq!(c.pairs().len(), 2);
}
