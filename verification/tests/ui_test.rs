use fetchly::ui::{next_priority, query_to_add, search_path, search_subtitle, with_brand, without_brand};

fn v(s: &[&str]) -> Vec<String> {
    s.iter().map(|x| x.to_string()).collect()
}

#[test]
fn search_request_path() {
    assert_eq!(search_path(""), None);
    assert_eq!(search_path("a"), None);
    assert_eq!(search_path("č"), Some("/api/search?q=č".to_string()));
    assert_eq!(search_path("ab"), Some("/api/search?q=ab".to_string()));
    assert_eq!(search_path("mlijeko 2%"), Some("/api/search?q=mlijeko%202%25".to_string()));
    assert_eq!(search_path("a-b_c&\n"), Some("/api/search?q=a-b_c%26%0A".to_string()));
    assert_eq!(search_path("a€"), Some("/api/search?q=a%20AC".to_string()));
}

#[test]
fn priority_toggle() {
    assert_eq!(next_priority("immediate"), "soon");
    assert_eq!(next_priority("soon"), "immediate");
    assert_eq!(next_priority(""), "immediate");
}

#[test]
fn brand_editing() {
    assert_eq!(without_brand(&v(&["a", "b", "a"]), "a"), v(&["b"]));
    assert_eq!(without_brand(&v(&[]), "a"), v(&[]));
    assert_eq!(with_brand(&v(&["a"]), "  b "), Some(v(&["a", "b"])));
    assert_eq!(with_brand(&v(&["a"]), "a"), Some(v(&["a"])));
    assert_eq!(with_brand(&v(&["a"]), "   "), None);
}

#[test]
fn add_box_and_subtitle() {
    assert_eq!(query_to_add("  mlijeko "), Some("mlijeko".to_string()));
    assert_eq!(query_to_add(" \t"), None);
    assert_eq!(search_subtitle(Some("Dukat"), "Konzum"), "Dukat · Konzum");
    assert_eq!(search_subtitle(Some(""), "Konzum"), "Konzum");
    assert_eq!(search_subtitle(None, "Lidl"), "Lidl");
}

use fetchly::ui::{with_created, with_updated, without_item};

#[test]
fn item_list_updates() {
    let ids = v(&["a", "b", "a"]);
    assert_eq!(with_created(vec![1, 2], 0), vec![0, 1, 2]);
    assert_eq!(without_item(vec![1, 2, 3], &ids, "a"), vec![2]);
    assert_eq!(without_item(vec![1, 2, 3], &ids, "z"), vec![1, 2, 3]);
    assert_eq!(with_updated(vec![1, 2, 3], &ids, "a", 9), vec![9, 2, 3]);
    assert_eq!(with_updated(vec![1, 2, 3], &ids, "b", 9), vec![1, 9, 3]);
    assert_eq!(with_updated(vec![1, 2, 3], &ids, "z", 9), vec![1, 2, 3]);
}
