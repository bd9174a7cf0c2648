use fetchly::api::parse_human_description;
use fetchly::catalog::dedupe_products;
use fetchly::gemini::semantic_indices;
use fetchly::search::{apply_semantic_reply, best_of, rank_candidates, Product};
use fetchly::sync::{format_human_description, SectionCache};
use fetchly::todoist::{build_description, managed_tasks, split_description, Task};
use fetchly::ui::{next_priority, with_brand, without_brand};

fn law_product(name: &str, brand: Option<&str>, store: &str, price: f64, unit: Option<&str>) -> Product {
    Product {
        name: name.into(),
        brand: brand.map(|b| b.to_string()),
        store: store.into(),
        barcode: None,
        shelf_price: price.to_bits(),
        unit_price: Some(price.to_bits()),
        unit: unit.map(|u| u.to_string()),
        scraped_date: "2026-04-01".into(),
    }
}

#[test]
fn description_written_reads_back() {
    let p = law_product("Mlijeko 2,8% 1L", Some("Dukat"), "konzum", 1.29, Some("l"));
    let d = format_human_description(&p, "1.29", Some("1.29"));
    let r = parse_human_description(&d);
    assert_eq!(r.product_name.as_deref(), Some("Mlijeko 2,8% 1L"));
    assert_eq!(r.brand.as_deref(), Some("Dukat"));
    assert_eq!(r.price.as_deref(), Some("1.29"));
    assert_eq!(r.chain.as_deref(), Some("Konzum"));
    assert_eq!(r.unit_price.as_deref(), Some("1.29"));
    let q = law_product("Jaja", None, "lidl", 3.1, Some("kom"));
    let r = parse_human_description(&format_human_description(&q, "3.10", Some("0.31")));
    assert_eq!(r.brand, None);
    assert_eq!(r.chain.as_deref(), Some("Lidl"));
    assert_eq!(r.unit_price, None);
}

#[test]
fn built_descriptions_are_managed_and_split_back() {
    let d = build_description("Proizvod: X", "{}");
    let t = Task { id: "1".into(), content: "x".into(), description: d.clone(), section_id: None };
    assert_eq!(managed_tasks(vec![t]).len(), 1);
    assert_eq!(split_description(&d), Some(("Proizvod: X".to_string(), "{}".to_string())));
}

#[test]
fn unusable_answers_keep_every_candidate() {
    let v = || vec![law_product("a", None, "x", 1.0, None), law_product("b", None, "x", 2.0, None)];
    for answer in ["not json", "[7, 9]", "{}", "[]", "[0, 1]"] {
        let kept = apply_semantic_reply(v(), Some(semantic_indices(answer, 2)));
        assert_eq!(kept.len(), 2, "answer {answer}");
    }
}

#[test]
fn best_is_no_dearer_than_any() {
    let v = vec![
        law_product("a", None, "x", 3.0, None),
        law_product("b", None, "x", 0.5, None),
        law_product("c", None, "x", 2.0, None),
    ];
    let best = best_of(v.clone()).unwrap();
    for p in &v {
        assert!(f64::from_bits(best.shelf_price) <= f64::from_bits(p.shelf_price));
    }
    let ranked = rank_candidates(v, None, &[], 2).unwrap();
    assert_eq!(ranked.len(), 2);
    assert!(f64::from_bits(ranked[0].shelf_price) <= f64::from_bits(ranked[1].shelf_price));
}

#[test]
fn toggling_twice_restores_priority() {
    assert_eq!(next_priority(next_priority("soon")), "soon");
    assert_eq!(next_priority(next_priority("immediate")), "immediate");
}

#[test]
fn adding_then_removing_a_brand() {
    let bs = vec!["Dukat".to_string(), "Vindija".to_string()];
    let added = with_brand(&bs, " Meggle ").unwrap();
    assert_eq!(without_brand(&added, "Meggle"), without_brand(&bs, "Meggle"));
    let again = with_brand(&bs, "Dukat").unwrap();
    assert_eq!(without_brand(&again, "Dukat"), vec!["Vindija".to_string()]);
}

#[test]
fn cache_gives_back_the_last_write() {
    let mut c = SectionCache::new();
    c.insert("Spar", "1");
    c.insert("Lidl", "2");
    c.insert("Spar", "3");
    assert_eq!(c.get("Spar"), Some("3".to_string()));
    assert_eq!(c.get("Lidl"), Some("2".to_string()));
}

#[test]
fn deduplicated_keys_are_distinct() {
    let rows = vec![
        law_product("A", None, "x", 1.0, None),
        law_product(" a ", None, "x", 1.0, None),
        law_product("A", None, "x", 1.0, None),
        law_product("B", None, "x", 1.0, None),
    ];
    let kept = dedupe_products(rows, &vec![100, 100, 100, 100]);
    assert_eq!(kept.len(), 2);
}

#[test]
fn normalizing_twice_changes_nothing() {
    for s in ["Šljive ČOKOLADA", "Đumbir žito ćevapi", "MLIJEKO 2,8% 1L", ""] {
        let n = fetchly::catalog::normalize(s);
        assert_eq!(fetchly::catalog::normalize(&n), n);
        assert!(!n.chars().any(|c| "šŠčČćĆžŽđĐ".contains(c)));
    }
}

#[test]
fn unit_case_does_not_matter() {
    for raw in ["KG", "Kom", "1,5L", "30KOMAD", "Dag", "xyz"] {
        assert_eq!(
            fetchly::columns::normalize_unit(&raw.to_ascii_lowercase()),
            fetchly::columns::normalize_unit(raw)
        );
    }
}

#[test]
fn non_ascii_whitespace_is_trimmed() {
    let row = vec!["\u{3000}Mlijeko\u{A0}".to_string(), "\u{2009}".to_string()];
    assert_eq!(fetchly::columns::field(&row, 0), Some("Mlijeko".to_string()));
    assert_eq!(fetchly::columns::field(&row, 1), None);
}
