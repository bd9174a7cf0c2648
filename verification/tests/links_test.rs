use fetchly::links::{
    absolutise, extract_csv_href, extract_hrefs, find_store_link, find_zip_for_date,
    konzum_page_step, page_count_exceeded, PageStep, MAX_PAGES,
};

#[test]
fn csv_href_is_the_first_csv_link() {
    let html = r#"<a href="/a.pdf">x</a> <A HREF="/b.Csv">y</A> <a href="/c.csv">z</a>"#;
    assert_eq!(extract_csv_href(html), Some("/b.Csv"));
    assert_eq!(extract_csv_href(r#"<a href="/file.csv?x=1">"#), Some("/file.csv?x=1"));
    assert_eq!(extract_csv_href(r#"<a href="/a.pdf">"#), None);
    assert_eq!(extract_csv_href(r#"<a href="/unterminated.csv"#), None);
    assert_eq!(extract_csv_href(""), None);
}

#[test]
fn absolutise_cases() {
    assert_eq!(absolutise("https://x.hr/a.csv", "https://base"), "https://x.hr/a.csv");
    assert_eq!(absolutise("//cdn.x.hr/a.csv", "https://base"), "https://cdn.x.hr/a.csv");
    assert_eq!(absolutise("/a.csv", "https://base"), "https://base/a.csv");
}

#[test]
fn store_link_near_fragment() {
    let html = r#"<tr><td>Konzum Dugo Selo</td><td><a href="/cjenici/download?title=DUGO.csv">CSV</a></td></tr>"#;
    assert_eq!(
        find_store_link(html, "DUGO SELO"),
        Some("https://www.konzum.hr/cjenici/download?title=DUGO.csv".to_string())
    );
    assert_eq!(find_store_link(html, "ZAGREB"), None);
    let far = format!("Dugo Selo{}<a href=\"/x.csv\">", " ".repeat(2100));
    assert_eq!(find_store_link(&far, "DUGO SELO"), None);
}

#[test]
fn all_hrefs_in_order() {
    let html = r#"<a href="/one">1</a><a HREF="two">2</a><a href="three"#;
    assert_eq!(extract_hrefs(html), vec!["/one".to_string(), "two".to_string()]);
    assert!(extract_hrefs("no links").is_empty());
}

#[test]
fn zip_for_date_and_fallback() {
    let html = r#"<a href="/Popis_cijena_po_trgovinama_na_dan_02.04.2026.zip">n</a>
                  <a href="/Popis_cijena_po_trgovinama_na_dan_01.04.2026.zip">o</a>"#;
    assert_eq!(
        find_zip_for_date(html, "01.04.2026"),
        Some("https://tvrtka.lidl.hr/Popis_cijena_po_trgovinama_na_dan_01.04.2026.zip".to_string())
    );
    assert_eq!(
        find_zip_for_date(html, "05.04.2026"),
        Some("https://tvrtka.lidl.hr/Popis_cijena_po_trgovinama_na_dan_02.04.2026.zip".to_string())
    );
    assert_eq!(find_zip_for_date(r#"<a href="/other.zip">"#, "01.04.2026"), None);
}

#[test]
fn page_count_heuristic() {
    assert!(page_count_exceeded("short", 1));
    let long = "x".repeat(600);
    assert!(!page_count_exceeded(&long, 1));
    assert!(page_count_exceeded(&long, MAX_PAGES));
}

#[test]
fn konzum_steps() {
    let found = r#"DUGO SELO <a href="/d.csv">"#;
    match konzum_page_step(found, 1) {
        PageStep::Found(u) => assert_eq!(u, "https://www.konzum.hr/d.csv"),
        other => panic!("unexpected {:?}", other),
    }
    let next = format!("{}<a href=\"?page=2\">", "y".repeat(600));
    assert!(matches!(konzum_page_step(&next, 1), PageStep::Next));
    assert!(matches!(konzum_page_step(&next, MAX_PAGES), PageStep::Stop));
    let no_pages = "z".repeat(600);
    assert!(matches!(konzum_page_step(&no_pages, 1), PageStep::Stop));
}
