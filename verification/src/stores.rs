//! Where each chain publishes its price list for a day: dates as they appear
//! in file names and URLs, and the choice among the chains' published files.
use chrono::Datelike;
use vstd::prelude::*;
use crate::gemini::{decimal, decimal_chars};
use crate::text::{
    chars_concat, chars_contains, chars_of, chars_starts_with, contains, starts_with, string_of,
    to_lowercase, unicode_lowercase,
};

verus! {

// ── Calendar dates ──────────────────────────────────────────────────────────

/// A day of the proleptic Gregorian calendar.
#[derive(Clone, Copy, Debug)]
pub struct Date {
    pub year: i32,
    pub month: u32,
    pub day: u32,
}

/// The earliest and latest years chrono's `NaiveDate` represents.
pub open spec fn first_year() -> int {
    -262143
}

pub open spec fn last_year() -> int {
    262142
}

pub open spec fn leap_year(y: int) -> bool {
    y % 4 == 0 && (y % 100 != 0 || y % 400 == 0)
}

pub open spec fn month_length(y: int, m: int) -> int {
    if m == 2 {
        if leap_year(y) {
            29
        } else {
            28
        }
    } else if m == 4 || m == 6 || m == 9 || m == 11 {
        30
    } else {
        31
    }
}

/// A day that exists and that chrono represents.
pub open spec fn valid_date(d: Date) -> bool {
    &&& first_year() <= d.year <= last_year()
    &&& 1 <= d.month <= 12
    &&& 1 <= d.day <= month_length(d.year as int, d.month as int)
}

/// The day before `d`; `None` before the first representable day.
pub open spec fn day_before(d: Date) -> Option<Date> {
    if d.day > 1 {
        Some(Date { year: d.year, month: d.month, day: (d.day - 1) as u32 })
    } else if d.month > 1 {
        Some(
            Date {
                year: d.year,
                month: (d.month - 1) as u32,
                day: month_length(d.year as int, d.month - 1) as u32,
            },
        )
    } else if d.year > first_year() {
        Some(Date { year: (d.year - 1) as i32, month: 12, day: 31 })
    } else {
        None
    }
}

/// Calls chrono's `NaiveDate::pred_opt`: the previous calendar day, `None` for
/// the first representable day.
#[verifier::external_body]
pub(crate) fn previous_day(d: Date) -> (r: Option<Date>)
    requires
        valid_date(d),
    ensures
        r == day_before(d),
{
    chrono::NaiveDate::from_ymd_opt(d.year, d.month, d.day).and_then(|x| x.pred_opt()).map(
        |p| Date { year: p.year(), month: p.month(), day: p.day() },
    )
}

/// A format string of chrono that uses only `%Y`, `%m` and `%d`.
pub open spec fn simple_pattern(p: Seq<char>) -> bool {
    forall|i: int|
        0 <= i < p.len() && #[trigger] p[i] == '%' ==> i + 1 < p.len() && (p[i + 1] == 'Y' || p[i + 1] == 'm'
            || p[i + 1] == 'd')
}

/// `s` with zeros in front up to `width` characters.
pub open spec fn zero_padded(s: Seq<char>, width: nat) -> Seq<char> {
    if s.len() >= width {
        s
    } else {
        Seq::new((width - s.len()) as nat, |i: int| '0') + s
    }
}

/// chrono's `%Y`: the year zero-padded to four digits; outside 0..=9999 with
/// a sign in front (`+10000`, `-0001`).
pub open spec fn year_text(y: int) -> Seq<char> {
    if 0 <= y <= 9999 {
        zero_padded(decimal(y as nat), 4)
    } else if y > 9999 {
        "+"@ + decimal(y as nat)
    } else {
        "-"@ + zero_padded(decimal((-y) as nat), 4)
    }
}

/// chrono's `%m` and `%d`: the number zero-padded to two digits.
pub open spec fn two_digits(n: u32) -> Seq<char> {
    zero_padded(decimal(n as nat), 2)
}

/// What chrono's `NaiveDate::format(pattern)` renders for the day, for a
/// pattern whose specifiers are `%Y`, `%m` and `%d`: each replaced by the
/// year, month or day, the other characters kept.
pub open spec fn rendered(pattern: Seq<char>, d: Date) -> Seq<char>
    decreases pattern.len(),
{
    if pattern.len() == 0 {
        Seq::empty()
    } else if pattern[0] == '%' && pattern.len() >= 2 {
        let field = if pattern[1] == 'Y' {
            year_text(d.year as int)
        } else if pattern[1] == 'm' {
            two_digits(d.month)
        } else {
            two_digits(d.day)
        };
        field + rendered(pattern.subrange(2, pattern.len() as int), d)
    } else {
        seq![pattern[0]] + rendered(pattern.drop_first(), d)
    }
}

/// Renders a day with chrono (`NaiveDate::format`, then `to_string`): `%Y` as
/// the year zero-padded to four digits (signed outside 0..=9999), `%m` and
/// `%d` as two digits, other characters as they are.
#[verifier::external_body]
pub(crate) fn format_date(d: Date, pattern: &str) -> (r: String)
    requires
        valid_date(d),
        simple_pattern(pattern@),
    ensures
        r@ == rendered(pattern@, d),
{
    chrono::NaiveDate::from_ymd_opt(d.year, d.month, d.day).unwrap().format(pattern).to_string()
}

pub open spec fn text_of(d: Date, pattern: Seq<char>) -> Seq<char> {
    rendered(pattern, d)
}

/// `%Y-%m-%d` rendered.
proof fn lemma_rendered_iso(d: Date)
    ensures
        rendered("%Y-%m-%d"@, d) == year_text(d.year as int) + "-"@ + two_digits(d.month) + "-"@
            + two_digits(d.day),
{
    reveal_strlit("%Y-%m-%d");
    reveal_strlit("-");
    let y = year_text(d.year as int);
    let m = two_digits(d.month);
    let dd = two_digits(d.day);
    let e = Seq::<char>::empty();
    let a = "%Y-%m-%d"@;
    let a1 = a.subrange(2, 8);
    assert(a1 =~= seq!['-', '%', 'm', '-', '%', 'd']);
    let a2 = a1.drop_first();
    assert(a2 =~= seq!['%', 'm', '-', '%', 'd']);
    let a3 = a2.subrange(2, 5);
    assert(a3 =~= seq!['-', '%', 'd']);
    let a4 = a3.drop_first();
    assert(a4 =~= seq!['%', 'd']);
    let a5 = a4.subrange(2, 2);
    assert(a5 =~= e);
    assert(rendered(a5, d) == e);
    assert(rendered(a4, d) == dd + rendered(a5, d));
    assert(rendered(a3, d) == seq!['-'] + rendered(a4, d));
    assert(rendered(a2, d) == m + rendered(a3, d));
    assert(rendered(a1, d) == seq!['-'] + rendered(a2, d));
    assert(rendered(a, d) == y + rendered(a1, d));
    assert(rendered(a, d) =~= y + "-"@ + m + "-"@ + dd);
}

/// `%Y%m%d` rendered.
proof fn lemma_rendered_compact(d: Date)
    ensures
        rendered("%Y%m%d"@, d) == year_text(d.year as int) + two_digits(d.month) + two_digits(d.day),
{
    reveal_strlit("%Y%m%d");
    let y = year_text(d.year as int);
    let m = two_digits(d.month);
    let dd = two_digits(d.day);
    let e = Seq::<char>::empty();
    let b = "%Y%m%d"@;
    let b1 = b.subrange(2, 6);
    assert(b1 =~= seq!['%', 'm', '%', 'd']);
    let b2 = b1.subrange(2, 4);
    assert(b2 =~= seq!['%', 'd']);
    let b3 = b2.subrange(2, 2);
    assert(b3 =~= e);
    assert(rendered(b3, d) == e);
    assert(rendered(b2, d) == dd + rendered(b3, d));
    assert(rendered(b1, d) == m + rendered(b2, d));
    assert(rendered(b, d) == y + rendered(b1, d));
    assert(rendered(b, d) =~= y + m + dd);
}

/// `%d.%m.%Y` rendered.
proof fn lemma_rendered_dotted(d: Date)
    ensures
        rendered("%d.%m.%Y"@, d) == two_digits(d.day) + "."@ + two_digits(d.month) + "."@
            + year_text(d.year as int),
{
    reveal_strlit("%d.%m.%Y");
    reveal_strlit(".");
    let y = year_text(d.year as int);
    let m = two_digits(d.month);
    let dd = two_digits(d.day);
    let e = Seq::<char>::empty();
    let c = "%d.%m.%Y"@;
    let c1 = c.subrange(2, 8);
    assert(c1 =~= seq!['.', '%', 'm', '.', '%', 'Y']);
    let c2 = c1.drop_first();
    assert(c2 =~= seq!['%', 'm', '.', '%', 'Y']);
    let c3 = c2.subrange(2, 5);
    assert(c3 =~= seq!['.', '%', 'Y']);
    let c4 = c3.drop_first();
    assert(c4 =~= seq!['%', 'Y']);
    let c5 = c4.subrange(2, 2);
    assert(c5 =~= e);
    assert(rendered(c5, d) == e);
    assert(rendered(c4, d) == y + rendered(c5, d));
    assert(rendered(c3, d) == seq!['.'] + rendered(c4, d));
    assert(rendered(c2, d) == m + rendered(c3, d));
    assert(rendered(c1, d) == seq!['.'] + rendered(c2, d));
    assert(rendered(c, d) == dd + rendered(c1, d));
    assert(rendered(c, d) =~= dd + "."@ + m + "."@ + y);
}

/// `%d%m%Y` rendered.
proof fn lemma_rendered_day_first(d: Date)
    ensures
        rendered("%d%m%Y"@, d) == two_digits(d.day) + two_digits(d.month) + year_text(d.year as int),
{
    reveal_strlit("%d%m%Y");
    let y = year_text(d.year as int);
    let m = two_digits(d.month);
    let dd = two_digits(d.day);
    let e = Seq::<char>::empty();
    let f = "%d%m%Y"@;
    let f1 = f.subrange(2, 6);
    assert(f1 =~= seq!['%', 'm', '%', 'Y']);
    let f2 = f1.subrange(2, 4);
    assert(f2 =~= seq!['%', 'Y']);
    let f3 = f2.subrange(2, 2);
    assert(f3 =~= e);
    assert(rendered(f3, d) == e);
    assert(rendered(f2, d) == y + rendered(f3, d));
    assert(rendered(f1, d) == m + rendered(f2, d));
    assert(rendered(f, d) == dd + rendered(f1, d));
    assert(rendered(f, d) =~= dd + m + y);
}

/// The day as `2026-04-01`, as due dates and Konzum's listing use it.
pub fn iso_date(d: Date) -> (r: String)
    requires
        valid_date(d),
    ensures
        r@ == text_of(d, "%Y-%m-%d"@),
        r@ == year_text(d.year as int) + "-"@ + two_digits(d.month) + "-"@ + two_digits(d.day),
{
    proof {
        reveal_strlit("%Y-%m-%d");
        lemma_rendered_iso(d);
    }
    format_date(d, "%Y-%m-%d")
}

/// The day as `20260401`, as KTC's and SPAR's file names use it.
pub fn compact_date(d: Date) -> (r: String)
    requires
        valid_date(d),
    ensures
        r@ == text_of(d, "%Y%m%d"@),
        r@ == year_text(d.year as int) + two_digits(d.month) + two_digits(d.day),
{
    proof {
        reveal_strlit("%Y%m%d");
        lemma_rendered_compact(d);
    }
    format_date(d, "%Y%m%d")
}

/// The day as `01.04.2026`, as Lidl's and Eurospin's archive names use it.
pub fn dotted_date(d: Date) -> (r: String)
    requires
        valid_date(d),
    ensures
        r@ == text_of(d, "%d.%m.%Y"@),
        r@ == two_digits(d.day) + "."@ + two_digits(d.month) + "."@ + year_text(d.year as int),
{
    proof {
        reveal_strlit("%d.%m.%Y");
        lemma_rendered_dotted(d);
    }
    format_date(d, "%d.%m.%Y")
}

/// The day as `01042026`, as Kaufland's file names use it.
pub fn day_first_date(d: Date) -> (r: String)
    requires
        valid_date(d),
    ensures
        r@ == text_of(d, "%d%m%Y"@),
        r@ == two_digits(d.day) + two_digits(d.month) + year_text(d.year as int),
{
    proof {
        reveal_strlit("%d%m%Y");
        lemma_rendered_day_first(d);
    }
    format_date(d, "%d%m%Y")
}

fn concat3(a: &str, b: &str, c: &str) -> (r: String)
    ensures
        r@ == a@ + b@ + c@,
{
    string_of(&chars_concat(&chars_concat(&chars_of(a), &chars_of(b)), &chars_of(c)))
}

// ── Konzum ──────────────────────────────────────────────────────────────────

/// The page of Konzum's price-list listing for a day.
pub fn konzum_listing_url(d: Date, page: usize) -> (r: String)
    requires
        valid_date(d),
    ensures
        r@ == "https://www.konzum.hr/cjenici?date="@ + text_of(d, "%Y-%m-%d"@) + "&page="@ + decimal(
            page as nat,
        ),
{
    let date = iso_date(d);
    let head = concat3("https://www.konzum.hr/cjenici?date=", date.as_str(), "&page=");
    string_of(&chars_concat(&chars_of(head.as_str()), &decimal_chars(page)))
}

// ── SPAR ────────────────────────────────────────────────────────────────────

/// The day's index of SPAR's price lists.
pub fn spar_index_url(d: Date) -> (r: String)
    requires
        valid_date(d),
    ensures
        r@ == "https://www.spar.hr/datoteke_cjenici/Cjenik"@ + text_of(d, "%Y%m%d"@) + ".json"@,
{
    let date = compact_date(d);
    concat3("https://www.spar.hr/datoteke_cjenici/Cjenik", date.as_str(), ".json")
}

/// A file listed in SPAR's index.
#[derive(Clone, Debug)]
pub struct IndexFile {
    pub name: String,
    pub url: String,
}

/// The Dugo Selo store's file: its lowercased name has "dugo_selo" and "0335".
pub open spec fn is_spar_store_file(name: Seq<char>) -> bool {
    contains(unicode_lowercase(name), "dugo_selo"@) && contains(unicode_lowercase(name), "0335"@)
}

/// The first file of the index that is the Dugo Selo store's; `None` if none.
pub fn spar_store_file(files: &Vec<IndexFile>) -> (r: Option<usize>)
    ensures
        r matches Some(i) ==> i < files@.len() && is_spar_store_file(files@[i as int].name@)
            && forall|j: int| 0 <= j < i ==> !is_spar_store_file(#[trigger] files@[j].name@),
        r is None ==> forall|j: int|
            0 <= j < files@.len() ==> !is_spar_store_file(#[trigger] files@[j].name@),
{
    let frag = chars_of("dugo_selo");
    let id = chars_of("0335");
    let mut i: usize = 0;
    while i < files.len()
        invariant
            i <= files@.len(),
            frag@ == "dugo_selo"@,
            id@ == "0335"@,
            forall|j: int| 0 <= j < i ==> !is_spar_store_file(#[trigger] files@[j].name@),
        decreases files@.len() - i,
    {
        let lower = to_lowercase(files[i].name.as_str());
        let lc = chars_of(lower.as_str());
        if chars_contains(&lc, &frag) && chars_contains(&lc, &id) {
            return Some(i);
        }
        i = i + 1;
    }
    None
}

// ── KTC ─────────────────────────────────────────────────────────────────────

/// The times of day (HHMMSS) at which KTC's file may have been written, most
/// likely first.
pub open spec fn ktc_timestamps() -> Seq<Seq<char>> {
    seq![
        "071002"@,
        "070000"@,
        "070500"@,
        "071000"@,
        "071500"@,
        "072000"@,
        "073000"@,
        "075000"@,
        "080000"@,
        "065000"@,
    ]
}

/// Where KTC's Dugo Selo file for the day would be, had it been written at `ts`.
pub open spec fn ktc_url(d: Date, ts: Seq<char>) -> Seq<char> {
    "https://www.ktc.hr/ktcftp/Cjenici/RC%20DUGO%20SELO%20PJ-90/TRGOVINA-II%20SAVSKI%20ODVOJAK%201%20DUGO%20SELO-PJ90-1-"@
        + text_of(d, "%Y%m%d"@) + "-"@ + ts + ".csv"@
}

/// The URLs to try for KTC's file of the day, most likely first.
pub fn ktc_urls(d: Date) -> (r: Vec<String>)
    requires
        valid_date(d),
    ensures
        r@.len() == ktc_timestamps().len(),
        forall|i: int| 0 <= i < r@.len() ==> (#[trigger] r@[i])@ == ktc_url(d, ktc_timestamps()[i]),
{
    let stamps: [&str; 10] = [
        "071002",
        "070000",
        "070500",
        "071000",
        "071500",
        "072000",
        "073000",
        "075000",
        "080000",
        "065000",
    ];
    assert(stamps@.map_values(|s: &str| s@) =~= ktc_timestamps());
    let date = compact_date(d);
    let head = concat3(
        "https://www.ktc.hr/ktcftp/Cjenici/RC%20DUGO%20SELO%20PJ-90/TRGOVINA-II%20SAVSKI%20ODVOJAK%201%20DUGO%20SELO-PJ90-1-",
        date.as_str(),
        "-",
    );
    let mut out: Vec<String> = Vec::new();
    let mut i: usize = 0;
    while i < 10
        invariant
            i <= 10,
            stamps@.len() == 10,
            stamps@.map_values(|s: &str| s@) == ktc_timestamps(),
            head@ == "https://www.ktc.hr/ktcftp/Cjenici/RC%20DUGO%20SELO%20PJ-90/TRGOVINA-II%20SAVSKI%20ODVOJAK%201%20DUGO%20SELO-PJ90-1-"@
                + text_of(d, "%Y%m%d"@) + "-"@,
            out@.len() == i,
            forall|j: int| 0 <= j < i ==> (#[trigger] out@[j])@ == ktc_url(d, ktc_timestamps()[j]),
        decreases 10 - i,
    {
        assert(ktc_timestamps()[i as int] == stamps@[i as int]@);
        out.push(concat3(head.as_str(), stamps[i], ".csv"));
        i = i + 1;
    }
    out
}

// ── Eurospin ────────────────────────────────────────────────────────────────

/// Where Eurospin's archive for the day is published.
pub open spec fn eurospin_url(d: Date) -> Seq<char> {
    "https://www.eurospin.hr/wp-content/themes/eurospin/documenti-prezzi/cjenik_"@ + text_of(
        d,
        "%d.%m.%Y"@,
    ) + "-7.30.zip"@
}

/// The archives to try, in order: the day's, then the day before's (the file
/// may not be out yet in the morning; on the first representable day, the
/// day's again).
pub fn eurospin_urls(d: Date) -> (r: Vec<String>)
    requires
        valid_date(d),
    ensures
        r@.len() == 2,
        r@[0]@ == eurospin_url(d),
        r@[1]@ == eurospin_url(
            match day_before(d) {
                Some(p) => p,
                None => d,
            },
        ),
{
    let prev = match previous_day(d) {
        Some(p) => p,
        None => d,
    };
    assert(valid_date(prev)) by {
        if day_before(d) is Some {
            if d.day <= 1 && d.month > 1 {
                assert(month_length(d.year as int, d.month - 1) >= 28);
            }
        }
    }
    let mut out: Vec<String> = Vec::new();
    let a = dotted_date(d);
    out.push(concat3(
        "https://www.eurospin.hr/wp-content/themes/eurospin/documenti-prezzi/cjenik_",
        a.as_str(),
        "-7.30.zip",
    ));
    let b = dotted_date(prev);
    out.push(concat3(
        "https://www.eurospin.hr/wp-content/themes/eurospin/documenti-prezzi/cjenik_",
        b.as_str(),
        "-7.30.zip",
    ));
    out
}

// ── Kaufland ────────────────────────────────────────────────────────────────

/// An entry of Kaufland's asset list.
#[derive(Clone, Debug)]
pub struct AssetEntry {
    pub label: String,
    pub path: String,
}

pub open spec fn kaufland_store() -> Seq<char> {
    "Dugo_Selo"@
}

/// The entry to use: the first Dugo Selo entry labelled with the day, else
/// the first Dugo Selo entry.
pub open spec fn kaufland_choice(labels: Seq<Seq<char>>, date_text: Seq<char>) -> Option<int> {
    let dated = |l: Seq<char>| contains(l, kaufland_store()) && contains(l, date_text);
    let any = |l: Seq<char>| contains(l, kaufland_store());
    match crate::columns::first_where(labels, dated, 0) {
        Some(i) => Some(i),
        None => crate::columns::first_where(labels, any, 0),
    }
}

pub open spec fn labels_of(e: Seq<AssetEntry>) -> Seq<Seq<char>> {
    e.map_values(|x: AssetEntry| x.label@)
}

/// The entry's path as a URL: kept when it starts with `http`, else put
/// after Kaufland's base URL.
pub open spec fn kaufland_url(path: Seq<char>) -> Seq<char> {
    if starts_with(path, "http"@) {
        path
    } else {
        "https://www.kaufland.hr"@ + path
    }
}

/// The first entry whose label has the store's name (and, when given, the day).
fn first_kaufland_entry(entries: &Vec<AssetEntry>, date: Option<&Vec<char>>) -> (r: Option<usize>)
    ensures
        ({
            let pred = match date {
                Some(dc) => |l: Seq<char>| contains(l, kaufland_store()) && contains(l, dc@),
                None => |l: Seq<char>| contains(l, kaufland_store()),
            };
            &&& r matches Some(i) ==> crate::columns::first_where(labels_of(entries@), pred, 0) == Some(i as int)
            &&& r is None ==> crate::columns::first_where(labels_of(entries@), pred, 0) is None
        }),
{
    let store = chars_of("Dugo_Selo");
    let ghost labels = labels_of(entries@);
    let ghost pred = match date {
        Some(dc) => |l: Seq<char>| contains(l, kaufland_store()) && contains(l, dc@),
        None => |l: Seq<char>| contains(l, kaufland_store()),
    };
    let mut i: usize = 0;
    while i < entries.len()
        invariant
            i <= entries@.len(),
            labels == labels_of(entries@),
            store@ == kaufland_store(),
            pred == (match date {
                Some(dc) => |l: Seq<char>| contains(l, kaufland_store()) && contains(l, dc@),
                None => |l: Seq<char>| contains(l, kaufland_store()),
            }),
            crate::columns::first_where(labels, pred, 0) == crate::columns::first_where(
                labels,
                pred,
                i as int,
            ),
        decreases entries@.len() - i,
    {
        let lc = chars_of(entries[i].label.as_str());
        assert(labels[i as int] == entries@[i as int].label@);
        let ok = match date {
            Some(dc) => chars_contains(&lc, &store) && chars_contains(&lc, dc),
            None => chars_contains(&lc, &store),
        };
        if ok {
            return Some(i);
        }
        i = i + 1;
    }
    None
}

/// The URL of Kaufland's Dugo Selo price list: the entry labelled with the
/// day (`01042026`) if there is one, else any Dugo Selo entry.
pub fn kaufland_csv_url(entries: &Vec<AssetEntry>, d: Date) -> (r: Option<String>)
    requires
        valid_date(d),
    ensures
        match kaufland_choice(labels_of(entries@), text_of(d, "%d%m%Y"@)) {
            Some(i) => r matches Some(u) && u@ == kaufland_url(entries@[i].path@),
            None => r is None,
        },
{
    let date = day_first_date(d);
    let dc = chars_of(date.as_str());
    let found = match first_kaufland_entry(entries, Some(&dc)) {
        Some(k) => Some(k),
        None => first_kaufland_entry(entries, None),
    };
    proof {
        let labels = labels_of(entries@);
        crate::columns::lemma_first_where(labels, |l: Seq<char>| contains(l, kaufland_store()) && contains(l, dc@), 0);
        crate::columns::lemma_first_where(labels, |l: Seq<char>| contains(l, kaufland_store()), 0);
    }
    match found {
        Some(k) => {
            let p = chars_of(entries[k].path.as_str());
            if chars_starts_with(&p, &chars_of("http")) {
                Some(string_of(&p))
            } else {
                Some(string_of(&chars_concat(&chars_of("https://www.kaufland.hr"), &p)))
            }
        },
        None => None,
    }
}

} // verus!
