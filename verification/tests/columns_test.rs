use fetchly::columns::{col, decimal_text, field, normalize_unit};

fn headers(h: &[&str]) -> Vec<String> {
    h.iter().map(|s| s.to_string()).collect()
}

#[test]
fn col_exact_match() {
    let h = headers(&["\"Naziv proizvoda\"", "Marka", "Barkod"]);
    assert_eq!(col(&h, &["naziv_proizvoda", "naziv"]), Some(0));
    assert_eq!(col(&h, &["marka_proizvoda", "marka", "brend"]), Some(1));
    assert_eq!(col(&h, &["ean"]), None);
}

#[test]
fn col_prefix_match_with_bracketed_suffix() {
    let h = headers(&["NAZIV", "MPC (EUR)", "maloprod.cijena(EUR)"]);
    assert_eq!(col(&h, &["maloprodajna_cijena", "mpc", "cijena"]), Some(1));
    assert_eq!(col(&h, &["maloprod.cijena"]), Some(2));
    assert_eq!(col(&headers(&["mpcx"]), &["mpc"]), None);
}

#[test]
fn col_candidate_order_wins() {
    let h = headers(&["cijena", "mpc"]);
    assert_eq!(col(&h, &["mpc", "cijena"]), Some(1));
    assert_eq!(col(&headers(&["Jedinica-mjere"]), &["jedinica mjere"]), Some(0));
    assert_eq!(col(&headers(&[]), &["naziv"]), None);
}

#[test]
fn field_trims_and_drops_blank() {
    let row = headers(&["  Mlijeko ", "   ", "1,29"]);
    assert_eq!(field(&row, 0), Some("Mlijeko".to_string()));
    assert_eq!(field(&row, 1), None);
    assert_eq!(field(&row, 3), None);
}

#[test]
fn decimal_text_reads_comma() {
    assert_eq!(decimal_text(" 1,99 "), "1.99");
    assert_eq!(decimal_text("2.50"), "2.50");
}

#[test]
fn normalize_unit_more() {
    assert_eq!(normalize_unit("LT"), Some("l"));
    assert_eq!(normalize_unit("dag"), Some("kg"));
    assert_eq!(normalize_unit("PAK"), Some("kom"));
    assert_eq!(normalize_unit(" 500 g "), Some("kg"));
    assert_eq!(normalize_unit("123"), None);
}

#[test]
fn leading_digits_do_not_change_the_unit() {
    for (raw, unit) in [("l", Some("l")), ("kg", Some("kg")), ("komad", Some("kom")), ("xy", None)] {
        assert_eq!(normalize_unit(&format!("1,5 {raw}")), unit);
        assert_eq!(normalize_unit(&format!("30{raw}")), normalize_unit(raw));
    }
}
