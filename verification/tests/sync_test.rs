use fetchly::search::Product;
use fetchly::sync::{chain_display_name, format_human_description, needs_move, SectionCache};
use fetchly::todoist::Section;

fn synced_product(brand: Option<&str>, store: &str, unit: Option<&str>) -> Product {
    Product {
        name: "Mlijeko 1L".into(),
        brand: brand.map(|b| b.to_string()),
        store: store.into(),
        barcode: None,
        shelf_price: 1.29f64.to_bits(),
        unit_price: Some(1.29f64.to_bits()),
        unit: unit.map(|u| u.to_string()),
        scraped_date: "2026-04-01".into(),
    }
}

#[test]
fn display_names() {
    assert_eq!(chain_display_name("lidl"), "Lidl");
    assert_eq!(chain_display_name("kaufland"), "Kaufland");
    assert_eq!(chain_display_name("konzum"), "Konzum");
    assert_eq!(chain_display_name("spar"), "Spar");
    assert_eq!(chain_display_name("ktc"), "KTC");
    assert_eq!(chain_display_name("eurospin"), "Eurospin");
    assert_eq!(chain_display_name("tommy"), "tommy");
}

#[test]
fn human_description_with_unit_price() {
    let d = format_human_description(&synced_product(Some("Dukat"), "konzum", Some("l")), "1.29", Some("1.29"));
    assert_eq!(d, "Proizvod: Mlijeko 1L\nBrand: Dukat\nCijena: 1.29 EUR\nLanac: Konzum\nCijena/l: 1.29 EUR");
}

#[test]
fn human_description_without_unit_price() {
    let d = format_human_description(&synced_product(None, "ktc", Some("kom")), "1.29", Some("1.29"));
    assert_eq!(d, "Proizvod: Mlijeko 1L\nBrand: -\nCijena: 1.29 EUR\nLanac: KTC");
    let d = format_human_description(&synced_product(None, "x", Some("kg")), "0.50", None);
    assert_eq!(d, "Proizvod: Mlijeko 1L\nBrand: -\nCijena: 0.50 EUR\nLanac: x");
}

#[test]
fn move_only_when_elsewhere() {
    assert!(needs_move(&None, "s1"));
    assert!(needs_move(&Some("s2".to_string()), "s1"));
    assert!(!needs_move(&Some("s1".to_string()), "s1"));
}

#[test]
fn section_cache_reads_back_writes() {
    let mut c = SectionCache::new();
    assert_eq!(c.get("Lidl"), None);
    c.insert("Lidl", "1");
    c.insert("Spar", "2");
    assert_eq!(c.get("Lidl"), Some("1".to_string()));
    c.insert("Lidl", "3");
    assert_eq!(c.get("Lidl"), Some("3".to_string()));
    assert_eq!(c.get("Spar"), Some("2".to_string()));
    c.absorb(&vec![
        Section { id: "4".into(), name: "Konzum".into() },
        Section { id: "5".into(), name: "Spar".into() },
        Section { id: "6".into(), name: "Konzum".into() },
    ]);
    assert_eq!(c.get("Konzum"), Some("6".to_string()));
    assert_eq!(c.get("Spar"), Some("5".to_string()));
    assert_eq!(c.get("KTC"), None);
}

use fetchly::sync::{section_step, sync_update, SectionAction};

#[test]
fn section_steps() {
    let mut c = SectionCache::new();
    assert!(matches!(section_step(&mut c, "Lidl", None), SectionAction::List));
    let listed = vec![Section { id: "7".into(), name: "Spar".into() }];
    assert!(matches!(section_step(&mut c, "Lidl", Some(&listed)), SectionAction::Create));
    assert_eq!(c.get("Spar"), Some("7".to_string()));
    match section_step(&mut c, "Spar", None) {
        SectionAction::Use(id) => assert_eq!(id, "7"),
        other => panic!("unexpected {:?}", other),
    }
    let listed = vec![Section { id: "9".into(), name: "Lidl".into() }];
    match section_step(&mut c, "Lidl", Some(&listed)) {
        SectionAction::Use(id) => assert_eq!(id, "9"),
        other => panic!("unexpected {:?}", other),
    }
}

#[test]
fn update_for_best_product() {
    let p = synced_product(Some("Dukat"), "ktc", Some("kg"));
    let u = sync_update(&p, "1.29", Some("2.58"), "{}", "immediate");
    assert_eq!(u.section_name, "KTC");
    assert_eq!(
        u.description,
        "Proizvod: Mlijeko 1L\nBrand: Dukat\nCijena: 1.29 EUR\nLanac: KTC\nCijena/kg: 2.58 EUR\n<!-- fetchly:{} -->"
    );
    assert!(u.due_today);
    assert!(!sync_update(&p, "1.29", None, "{}", "soon").due_today);
}
