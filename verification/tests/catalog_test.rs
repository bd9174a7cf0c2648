use fetchly::catalog::{build_fts_query, dedupe_products, normalize};
use fetchly::search::Product;

fn catalog_row(name: &str, brand: Option<&str>, price: f64) -> Product {
    Product {
        name: name.to_string(),
        brand: brand.map(|b| b.to_string()),
        store: "spar".to_string(),
        barcode: None,
        shelf_price: price.to_bits(),
        unit_price: None,
        unit: None,
        scraped_date: "2026-04-01".to_string(),
    }
}

#[test]
fn normalize_strips_croatian_diacritics_and_lowercases() {
    assert_eq!(normalize("Šljive Čokolada ĆEVAPI Žito Đumbir"), "sljive cokolada cevapi zito dumbir");
    assert_eq!(normalize("MLIJEKO 2,8%"), "mlijeko 2,8%");
    assert_eq!(normalize(""), "");
}

#[test]
fn fts_query_ors_the_terms() {
    assert_eq!(
        build_fts_query("Mlijeko  čokoladno!"),
        "name_search:mlijeko OR name_search:cokoladno"
    );
    assert_eq!(build_fts_query("kruh"), "name_search:kruh");
    assert_eq!(build_fts_query("2,8% mlijeko"), "name_search:28 OR name_search:mlijeko");
}

#[test]
fn fts_query_empty_without_letters_or_digits() {
    assert_eq!(build_fts_query(""), "");
    assert_eq!(build_fts_query("  !! ?? "), "");
}

#[test]
fn dedupe_keeps_first_row_of_each_key() {
    let rows = vec![
        catalog_row(" Mlijeko 1L ", Some("Dukat"), 1.29),
        catalog_row("mlijeko 1l", Some("DUKAT"), 1.29),
        catalog_row("Mlijeko 1L", Some("Dukat"), 1.19),
        catalog_row("Kruh", None, 2.0),
        catalog_row("kruh", Some(""), 2.0),
    ];
    let cents = vec![129, 129, 119, 200, 200];
    let kept = dedupe_products(rows, &cents);
    let names: Vec<&str> = kept.iter().map(|p| p.name.as_str()).collect();
    assert_eq!(names, vec![" Mlijeko 1L ", "Mlijeko 1L", "Kruh"]);
    assert_eq!(kept[1].shelf_price, 1.19f64.to_bits());
}

#[test]
fn dedupe_of_empty_and_distinct_lists() {
    assert!(dedupe_products(vec![], &vec![]).is_empty());
    let rows = vec![catalog_row("a", None, 1.0), catalog_row("b", None, 1.0)];
    assert_eq!(dedupe_products(rows, &vec![100, 100]).len(), 2);
}
