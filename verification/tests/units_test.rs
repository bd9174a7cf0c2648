use fetchly::columns::normalize_unit;
use fetchly::units::{split_number_unit, unit_label};

#[test]
fn unit_label_volume_and_mass() {
    assert_eq!(unit_label(true), "l");
    assert_eq!(unit_label(false), "kg");
}

#[test]
fn normalize_unit_examples() {
    assert_eq!(normalize_unit("L"), Some("l"));
    assert_eq!(normalize_unit("ml"), Some("l"));
    assert_eq!(normalize_unit("1,5l"), Some("l"));
    assert_eq!(normalize_unit("kg"), Some("kg"));
    assert_eq!(normalize_unit("30komad"), Some("kom"));
    assert_eq!(normalize_unit("ko"), Some("kom"));
    assert_eq!(normalize_unit("xyz"), None);
    assert_eq!(normalize_unit(""), None);
}

#[test]
fn split_number_unit_examples() {
    assert_eq!(split_number_unit("68 G"), ("68".to_string(), Some("G".to_string())));
    assert_eq!(split_number_unit("1,000"), ("1,000".to_string(), None));
}

use fetchly::units::{inline_parts, number_text, quantity_parts, to_base};

#[test]
fn base_factors() {
    assert_eq!(to_base("ML"), Some((1, true)));
    assert_eq!(to_base("CL"), Some((10, true)));
    assert_eq!(to_base("DL"), Some((100, true)));
    assert_eq!(to_base("LIT"), Some((1000, true)));
    assert_eq!(to_base("GRM"), Some((1, false)));
    assert_eq!(to_base("DAG"), Some((10, false)));
    assert_eq!(to_base("KG"), Some((1000, false)));
    assert_eq!(to_base("KOM"), None);
    assert_eq!(to_base("kg"), None);
}

#[test]
fn number_texts() {
    assert_eq!(number_text(" 1,5 "), Some("1.5".to_string()));
    assert_eq!(number_text(",5"), Some("0.5".to_string()));
    assert_eq!(number_text("  "), None);
}

#[test]
fn quantity_cells() {
    let q = quantity_parts(" 750 ml ", None);
    assert_eq!(q.number.as_deref(), Some("750"));
    assert_eq!(q.unit, "ML");
    let q = quantity_parts("1,5", Some(" l "));
    assert_eq!(q.number.as_deref(), Some("1.5"));
    assert_eq!(q.unit, "L");
    let q = quantity_parts("2 kg", Some("g"));
    assert_eq!(q.unit, "KG");
    let q = quantity_parts("3", None);
    assert_eq!(q.unit, "");
    let q = inline_parts("68g");
    assert_eq!(q.number.as_deref(), Some("68"));
    assert_eq!(q.unit, "G");
    let q = inline_parts("kg");
    assert_eq!(q.number, None);
}
