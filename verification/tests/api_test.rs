use fetchly::api::{capitalize, due_today, new_item, parse_human_description, valid_priority};

#[test]
fn capitalize_first_character() {
    assert_eq!(capitalize("mlijeko"), "Mlijeko");
    assert_eq!(capitalize("Mlijeko"), "Mlijeko");
    assert_eq!(capitalize(""), "");
    assert_eq!(capitalize("šunka"), "Šunka");
    assert_eq!(capitalize("ßx"), "SSx");
    assert_eq!(capitalize("1 kruh"), "1 kruh");
}

#[test]
fn priorities() {
    assert!(valid_priority("immediate"));
    assert!(valid_priority("soon"));
    assert!(!valid_priority("later"));
    assert!(!valid_priority("Soon"));
    assert!(due_today("immediate"));
    assert!(!due_today("soon"));
}

#[test]
fn new_item_defaults() {
    let item = new_item("jaja", None, None);
    assert_eq!(item.query, "Jaja");
    assert_eq!(item.meta.priority, "immediate");
    assert!(item.meta.blacklisted_brands.is_empty());
    assert!(item.due_today);
    let item = new_item("jaja", Some("soon"), Some(vec!["Dukat".to_string()]));
    assert_eq!(item.meta.priority, "soon");
    assert_eq!(item.meta.blacklisted_brands, vec!["Dukat".to_string()]);
    assert!(!item.due_today);
}

#[test]
fn reads_a_formatted_description() {
    let d = "Proizvod: Mlijeko 2,8% 1L\nBrand: Dukat\nCijena: 1.29 EUR\nLanac: Konzum\nCijena/l: 1.29 EUR";
    let p = parse_human_description(d);
    assert_eq!(p.product_name.as_deref(), Some("Mlijeko 2,8% 1L"));
    assert_eq!(p.brand.as_deref(), Some("Dukat"));
    assert_eq!(p.price.as_deref(), Some("1.29"));
    assert_eq!(p.chain.as_deref(), Some("Konzum"));
    assert_eq!(p.unit_price.as_deref(), Some("1.29"));
}

#[test]
fn description_edge_cases() {
    let p = parse_human_description("Brand: -\r\nCijena: 2 kn\nCijena/kg: 0.44 EUR  (1 kg)\nOther: x");
    assert_eq!(p.brand, None);
    assert_eq!(p.price, None);
    assert_eq!(p.unit_price.as_deref(), Some("0.44"));
    assert_eq!(p.product_name, None);
    let p = parse_human_description("");
    assert!(p.chain.is_none() && p.price.is_none());
    let p = parse_human_description("Lanac: Spar\nLanac: Lidl\n");
    assert_eq!(p.chain.as_deref(), Some("Lidl"));
    let p = parse_human_description("Proizvod: A\r");
    assert_eq!(p.product_name.as_deref(), Some("A"));
}
