use fetchly::todoist::{build_description, managed_tasks, meta_json, resolve_description, split_description, Task, TaskMeta};

fn task(id: &str, description: &str) -> Task {
    Task { id: id.into(), content: "Mlijeko".into(), description: description.into(), section_id: None }
}

#[test]
fn description_layout() {
    let d = build_description("Proizvod: X", r#"{"priority":"soon","blacklisted_brands":[]}"#);
    assert_eq!(d, "Proizvod: X\n<!-- fetchly:{\"priority\":\"soon\",\"blacklisted_brands\":[]} -->");
    assert_eq!(build_description("", "{}"), "\n<!-- fetchly:{} -->");
}

#[test]
fn split_gives_back_what_was_built() {
    let d = build_description("Proizvod: X  \n", r#"{"priority":"immediate"}"#);
    let (h, j) = split_description(&d).unwrap();
    assert_eq!(h, "Proizvod: X");
    assert_eq!(j, r#"{"priority":"immediate"}"#);
    assert_eq!(meta_json(&d), Some(r#"{"priority":"immediate"}"#.to_string()));
}

#[test]
fn split_without_block() {
    assert!(split_description("plain text").is_none());
    assert!(split_description("a <!-- fetchly:{} no end").is_none());
    assert!(meta_json("").is_none());
}

#[test]
fn resolve_falls_back_to_whole_text() {
    let (h, m) = resolve_description("just text", None);
    assert_eq!(h, "just text");
    assert_eq!(m.priority, "");
    assert!(m.blacklisted_brands.is_empty());
    let d = "X\n<!-- fetchly:not json -->";
    let (h, m) = resolve_description(d, None);
    assert_eq!(h, d);
    assert_eq!(m.priority, "");
    let (h, m) = resolve_description(d, Some(TaskMeta::new("soon", vec!["Dukat".into()])));
    assert_eq!(h, "X");
    assert_eq!(m.priority, "soon");
    assert_eq!(m.blacklisted_brands, vec!["Dukat".to_string()]);
}

#[test]
fn only_managed_tasks_are_kept() {
    let tasks = vec![task("1", "x <!-- fetchly:{} -->"), task("2", "plain"), task("3", "<!-- fetchly:")];
    let ids: Vec<String> = managed_tasks(tasks).into_iter().map(|t| t.id).collect();
    assert_eq!(ids, vec!["1".to_string(), "3".to_string()]);
}

#[test]
fn default_meta_is_empty() {
    let m = TaskMeta::default();
    assert_eq!(m.priority, "");
    assert!(m.blacklisted_brands.is_empty());
}

use fetchly::todoist::{with_blacklist, with_priority};

#[test]
fn metadata_updates() {
    let m = TaskMeta::new("soon", vec!["A".into()]);
    let b = with_blacklist(m, vec!["B".into(), "C".into()]);
    assert_eq!(b.priority, "soon");
    assert_eq!(b.blacklisted_brands, vec!["B".to_string(), "C".to_string()]);
    let p = with_priority(b, "immediate");
    assert_eq!(p.priority, "immediate");
    assert_eq!(p.blacklisted_brands, vec!["B".to_string(), "C".to_string()]);
}
