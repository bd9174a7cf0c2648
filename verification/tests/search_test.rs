use fetchly::search::{
    apply_semantic_reply, best_of, brand_is_blacklisted, effective_price, rank_candidates,
    remove_blacklisted, select_by_indices, sort_by_price, wants_semantic_filter, Product,
};

fn candidate(name: &str, brand: Option<&str>, price: f64, unit_price: Option<f64>) -> Product {
    Product {
        name: name.to_string(),
        brand: brand.map(|b| b.to_string()),
        store: "lidl".to_string(),
        barcode: None,
        shelf_price: price.to_bits(),
        unit_price: unit_price.map(f64::to_bits),
        unit: None,
        scraped_date: "2026-04-01".to_string(),
    }
}

fn candidate_names(v: &[Product]) -> Vec<&str> {
    v.iter().map(|p| p.name.as_str()).collect()
}

#[test]
fn effective_price_prefers_unit_price() {
    assert_eq!(effective_price(&candidate("a", None, 2.0, Some(0.5))), 0.5f64.to_bits());
    assert_eq!(effective_price(&candidate("a", None, 2.0, None)), 2.0f64.to_bits());
}

#[test]
fn sort_is_cheapest_first_and_stable() {
    let v = vec![
        candidate("b1", None, 2.0, None),
        candidate("a", None, 1.0, None),
        candidate("b2", None, 2.0, None),
        candidate("z", None, 9.0, Some(0.25)),
        candidate("neg0", None, -0.0, None),
        candidate("zero", None, 0.0, None),
    ];
    let s = sort_by_price(v);
    assert_eq!(candidate_names(&s), vec!["neg0", "zero", "z", "a", "b1", "b2"]);
}

#[test]
fn sort_handles_negative_prices() {
    let v = vec![candidate("p", None, 1.5, None), candidate("m", None, -3.0, None), candidate("n", None, -1.0, None)];
    assert_eq!(candidate_names(&sort_by_price(v)), vec!["m", "n", "p"]);
}

#[test]
fn semantic_filter_wanted_for_two_or_more() {
    assert!(!wants_semantic_filter(0));
    assert!(!wants_semantic_filter(1));
    assert!(wants_semantic_filter(2));
}

#[test]
fn select_by_indices_skips_out_of_range() {
    let v = vec![candidate("a", None, 1.0, None), candidate("b", None, 1.0, None), candidate("c", None, 1.0, None)];
    let s = select_by_indices(&v, &vec![2, 0, 9, 2]);
    assert_eq!(candidate_names(&s), vec!["c", "a", "c"]);
}

#[test]
fn semantic_reply_rules() {
    let v = || vec![candidate("a", None, 1.0, None), candidate("b", None, 1.0, None)];
    assert_eq!(candidate_names(&apply_semantic_reply(v(), Some(vec![1]))), vec!["b"]);
    assert_eq!(candidate_names(&apply_semantic_reply(v(), Some(vec![]))), vec!["a", "b"]);
    assert_eq!(candidate_names(&apply_semantic_reply(v(), None)), vec!["a", "b"]);
    let one = vec![candidate("a", None, 1.0, None)];
    assert_eq!(candidate_names(&apply_semantic_reply(one, Some(vec![5]))), vec!["a"]);
}

#[test]
fn blacklist_is_case_insensitive_substring() {
    let p = candidate("x", Some("Dukat d.d."), 1.0, None);
    assert!(brand_is_blacklisted(&p, &["dukat".to_string()]));
    assert!(brand_is_blacklisted(&p, &["D.D".to_string()]));
    assert!(!brand_is_blacklisted(&p, &["vindija".to_string()]));
    let nobrand = candidate("y", None, 1.0, None);
    assert!(!brand_is_blacklisted(&nobrand, &["dukat".to_string()]));
    assert!(brand_is_blacklisted(&nobrand, &["".to_string()]));
    assert!(!brand_is_blacklisted(&p, &[]));
}

#[test]
fn remove_blacklisted_keeps_order() {
    let v = vec![
        candidate("a", Some("Dukat"), 1.0, None),
        candidate("b", Some("Vindija"), 1.0, None),
        candidate("c", None, 1.0, None),
    ];
    assert_eq!(candidate_names(&remove_blacklisted(v, &["DUKAT".to_string()])), vec!["b", "c"]);
}

#[test]
fn rank_candidates_filters_sorts_and_limits() {
    let v = vec![
        candidate("a", Some("Dukat"), 0.5, None),
        candidate("b", None, 3.0, None),
        candidate("c", None, 1.0, None),
        candidate("d", None, 2.0, None),
    ];
    let r = rank_candidates(v, None, &["dukat".to_string()], 2).unwrap();
    assert_eq!(candidate_names(&r), vec!["c", "d"]);
}

#[test]
fn rank_candidates_applies_reply_first() {
    let v = vec![
        candidate("a", None, 0.5, None),
        candidate("b", None, 3.0, None),
        candidate("c", None, 1.0, None),
    ];
    let r = rank_candidates(v, Some(vec![1, 2, 7]), &[], 10).unwrap();
    assert_eq!(candidate_names(&r), vec!["c", "b"]);
}

#[test]
fn rank_candidates_refuses_nan_comparisons() {
    let v = vec![candidate("a", None, f64::NAN, None), candidate("b", None, 1.0, None)];
    assert!(rank_candidates(v, None, &[], 10).is_none());
    let single = vec![candidate("a", None, f64::NAN, None)];
    assert_eq!(rank_candidates(single, None, &[], 10).unwrap().len(), 1);
    let hidden = vec![candidate("a", Some("x"), f64::NAN, None), candidate("b", None, 1.0, None)];
    assert_eq!(candidate_names(&rank_candidates(hidden, None, &["x".to_string()], 10).unwrap()), vec!["b"]);
}

#[test]
fn best_of_picks_cheapest() {
    let v = vec![candidate("a", None, 2.0, None), candidate("b", None, 1.0, None), candidate("c", None, 1.0, None)];
    assert_eq!(best_of(v).unwrap().name, "b");
    assert!(best_of(vec![]).is_none());
}
