use fetchly::stores::{
    compact_date, day_first_date, dotted_date, eurospin_urls, iso_date, kaufland_csv_url,
    konzum_listing_url, ktc_urls, spar_index_url, spar_store_file, AssetEntry, Date,
    IndexFile,
};

fn d(year: i32, month: u32, day: u32) -> Date {
    Date { year, month, day }
}

fn eurospin_dates(year: i32, month: u32, day: u32) -> (String, String) {
    let urls = eurospin_urls(d(year, month, day));
    let date = |u: &String| {
        u.trim_start_matches("https://www.eurospin.hr/wp-content/themes/eurospin/documenti-prezzi/cjenik_")
            .trim_end_matches("-7.30.zip")
            .to_string()
    };
    (date(&urls[0]), date(&urls[1]))
}

#[test]
fn date_texts() {
    let day = d(2026, 4, 1);
    assert_eq!(iso_date(day), "2026-04-01");
    assert_eq!(compact_date(day), "20260401");
    assert_eq!(dotted_date(day), "01.04.2026");
    assert_eq!(day_first_date(day), "01042026");
    assert_eq!(iso_date(d(999, 12, 31)), "0999-12-31");
}

#[test]
fn previous_days() {
    assert_eq!(eurospin_dates(2026, 4, 2).1, "01.04.2026");
    assert_eq!(eurospin_dates(2026, 1, 1).1, "31.12.2025");
    assert_eq!(eurospin_dates(2024, 3, 1).1, "29.02.2024");
    assert_eq!(eurospin_dates(2023, 3, 1).1, "28.02.2023");
    assert_eq!(eurospin_dates(1900, 3, 1).1, "28.02.1900");
    assert_eq!(eurospin_dates(2000, 3, 1).1, "29.02.2000");
    assert_eq!(eurospin_dates(2026, 5, 1).1, "30.04.2026");
}

#[test]
fn first_representable_day_has_no_day_before() {
    let (today, fallback) = eurospin_dates(-262143, 1, 1);
    assert_eq!(today, fallback);
}

#[test]
fn konzum_and_spar_urls() {
    assert_eq!(konzum_listing_url(d(2026, 4, 1), 3), "https://www.konzum.hr/cjenici?date=2026-04-01&page=3");
    assert_eq!(konzum_listing_url(d(2026, 4, 1), 20), "https://www.konzum.hr/cjenici?date=2026-04-01&page=20");
    assert_eq!(spar_index_url(d(2026, 4, 1)), "https://www.spar.hr/datoteke_cjenici/Cjenik20260401.json");
}

#[test]
fn spar_store_file_choice() {
    let files = vec![
        IndexFile { name: "supermarket_zagreb_0101.csv".into(), url: "u0".into() },
        IndexFile { name: "SUPERMARKET_DUGO_SELO_0335.csv".into(), url: "u1".into() },
        IndexFile { name: "dugo_selo_0335_b.csv".into(), url: "u2".into() },
    ];
    assert_eq!(spar_store_file(&files), Some(1));
    assert_eq!(spar_store_file(&files[..1].to_vec()), None);
}

#[test]
fn ktc_candidate_urls() {
    let urls = ktc_urls(d(2026, 4, 1));
    assert_eq!(urls.len(), 10);
    assert_eq!(
        urls[0],
        "https://www.ktc.hr/ktcftp/Cjenici/RC%20DUGO%20SELO%20PJ-90/TRGOVINA-II%20SAVSKI%20ODVOJAK%201%20DUGO%20SELO-PJ90-1-20260401-071002.csv"
    );
    assert!(urls[9].ends_with("-20260401-065000.csv"));
}

#[test]
fn eurospin_today_then_yesterday() {
    let urls = eurospin_urls(d(2026, 3, 1));
    assert_eq!(
        urls,
        vec![
            "https://www.eurospin.hr/wp-content/themes/eurospin/documenti-prezzi/cjenik_01.03.2026-7.30.zip".to_string(),
            "https://www.eurospin.hr/wp-content/themes/eurospin/documenti-prezzi/cjenik_28.02.2026-7.30.zip".to_string(),
        ]
    );
}

#[test]
fn kaufland_choice() {
    let entries = vec![
        AssetEntry { label: "Zagreb_01042026.csv".into(), path: "/z.csv".into() },
        AssetEntry { label: "Dugo_Selo_31032026.csv".into(), path: "/old.csv".into() },
        AssetEntry { label: "Dugo_Selo_01042026.csv".into(), path: "https://cdn/new.csv".into() },
    ];
    assert_eq!(kaufland_csv_url(&entries, d(2026, 4, 1)), Some("https://cdn/new.csv".to_string()));
    assert_eq!(
        kaufland_csv_url(&entries, d(2026, 4, 2)),
        Some("https://www.kaufland.hr/old.csv".to_string())
    );
    assert_eq!(kaufland_csv_url(&entries[..1].to_vec(), d(2026, 4, 1)), None);
}
