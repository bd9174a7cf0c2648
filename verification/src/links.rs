//! Finding price-list links in the retailers' HTML pages.
//!
//! Offsets here are byte offsets, as `str::find` and slicing count them. The
//! scans search a case-converted copy of the page and cut the page itself at
//! the offset found there. Where that cut would fall inside a character (the
//! conversion changed some character's encoded width, and slicing there would
//! panic), these functions stop as if nothing more were found.
use vstd::prelude::*;
use vstd::string::StringSliceAdditionalSpecFns;
use vstd::utf8::{decode_utf8, encode_utf8, is_char_boundary};
use crate::text::{
    bytes_find_from, chars_contains, chars_ends_with, chars_of, chars_starts_with, contains,
    ends_with, find_from, first_index, lemma_after_ascii_is_boundary, lemma_ascii_byte_is_boundary, lemma_boundary_in_prefix, lemma_find_from, starts_with,
    string_of, to_lowercase, to_uppercase, unicode_lowercase, unicode_uppercase, chars_concat,
};

verus! {

broadcast use vstd::utf8::encode_utf8_valid_utf8, vstd::utf8::encode_utf8_decode_utf8;

/// The bytes of `href="`.
pub open spec fn href_marker() -> Seq<u8> {
    seq![104u8, 114u8, 101u8, 102u8, 61u8, 34u8]
}

/// The byte of `"`.
pub const QUOTE: u8 = 34;

/// The UTF-8 bytes of the lowercase form of the string encoded by `b`.
pub open spec fn lower_bytes(b: Seq<u8>) -> Seq<u8> {
    encode_utf8(unicode_lowercase(decode_utf8(b)))
}

/// A link text that mentions `.csv` in any letter case.
pub open spec fn is_csv_link(href: Seq<char>) -> bool {
    contains(unicode_lowercase(href), ".csv"@)
}

/// Where the attribute value of the first CSV link begins and ends (byte
/// offsets into `h`), scanning the `href="` markers of `l` from offset `from`.
/// `None` when a marker's value has no closing quote, when no further marker
/// exists, or when the cut would fall inside a character.
pub open spec fn csv_href_from(h: Seq<u8>, l: Seq<u8>, from: int) -> Option<(int, int)>
    decreases l.len() + 1 - from,
{
    if from < 0 {
        None
    } else {
        match find_from(l, href_marker(), from) {
            None => None,
            Some(p) => {
                let a = p + 6;
                if !is_char_boundary(h, a) {
                    None
                } else {
                    match first_index(h.subrange(a, h.len() as int), seq![QUOTE]) {
                        None => None,
                        Some(e) => if is_csv_link(decode_utf8(h.subrange(a, a + e))) {
                            Some((a, a + e))
                        } else {
                            proof {
                                lemma_find_from(l, href_marker(), from);
                            }
                            csv_href_from(h, l, a)
                        },
                    }
                }
            },
        }
    }
}

/// Scans a page for the first `href="..."` whose value mentions `.csv`
/// (in any case); the value is returned as a slice of `html`.
pub fn extract_csv_href(html: &str) -> (r: Option<&str>)
    ensures
        ({
            let h = html.spec_bytes();
            let found = csv_href_from(h, lower_bytes(h), 0);
            &&& r is Some <==> found is Some
            &&& r matches Some(x) ==> found matches Some((a, b)) && x.spec_bytes() == h.subrange(a, b)
        }),
{
    let lower = to_lowercase(html);
    let lb = lower.as_str().as_bytes();
    let hb = html.as_bytes();
    let ghost h = html.spec_bytes();
    let ghost l = lower_bytes(h);
    assert(decode_utf8(h) == html@);
    assert(lb@ == l);
    let marker: [u8; 6] = [104u8, 114u8, 101u8, 102u8, 61u8, 34u8];
    assert(marker@ =~= href_marker());
    assert(marker@.len() == 6);
    let quote: [u8; 1] = [QUOTE];
    let mut from: usize = 0;
    loop
        invariant
            h == html.spec_bytes(),
            hb@ == h,
            lb@ == l,
            l == lower_bytes(h),
            marker@ == href_marker(),
            quote@ == seq![QUOTE],
            csv_href_from(h, l, 0) == csv_href_from(h, l, from as int),
        decreases l.len() + 1 - from,
    {
        let p = match bytes_find_from(lb, &marker, from) {
            None => return None,
            Some(p) => p,
        };
        proof {
            lemma_find_from(l, href_marker(), from as int);
            assert(href_marker().len() == 6);
            assert(p + 6 <= lb@.len());
            assert(lb@.len() == lb.len());
        }
        let a = p + 6;
        if !html.is_char_boundary(a) {
            return None;
        }
        let (_, after) = html.split_at(a);
        let ab = after.as_bytes();
        assert(ab@ == h.subrange(a as int, h.len() as int));
        let e = match bytes_find_from(ab, &quote, 0) {
            None => return None,
            Some(e) => e,
        };
        proof {
            lemma_find_from(ab@, seq![QUOTE], 0);
            assert(ab@.subrange(e as int, e + 1)[0] == ab@[e as int]);
            lemma_ascii_byte_is_boundary(ab@, e as int);
        }
        let (href, _) = after.split_at(e);
        assert(href.spec_bytes() =~= h.subrange(a as int, a + e));
        assert(decode_utf8(href.spec_bytes()) == href@);
        let lh = to_lowercase(href);
        let lc = chars_of(lh.as_str());
        let ext = chars_of(".csv");
        if chars_contains(&lc, &ext) {
            return Some(href);
        }
        from = a;
    }
}

// ── Konzum: the store's link near its name ──────────────────────────────────

/// Whole-page window of about 2000 bytes either side of `pos`.
pub open spec fn window_bounds(pos: int, len: int) -> (int, int) {
    (if pos >= 2000 { pos - 2000 } else { 0 }, if pos + 2000 <= len { pos + 2000 } else { len })
}

/// `s` with an absolute `https` URL in front where it lacks one.
pub open spec fn absolutised(href: Seq<char>, base: Seq<char>) -> Seq<char> {
    if starts_with(href, "http"@) {
        href
    } else if starts_with(href, "//"@) {
        "https:"@ + href
    } else {
        base + href
    }
}

/// Makes a link absolute: kept when it starts with `http`, given `https:` when
/// it starts with `//`, otherwise put after `base`.
pub fn absolutise(href: &str, base: &str) -> (r: String)
    ensures
        r@ == absolutised(href@, base@),
{
    let h = chars_of(href);
    let http = chars_of("http");
    let slashes = chars_of("//");
    if chars_starts_with(&h, &http) {
        string_of(&h)
    } else if chars_starts_with(&h, &slashes) {
        let scheme = chars_of("https:");
        string_of(&chars_concat(&scheme, &h))
    } else {
        let b = chars_of(base);
        string_of(&chars_concat(&b, &h))
    }
}

/// The base URL of Konzum's site.
pub open spec fn konzum_base() -> Seq<char> {
    "https://www.konzum.hr"@
}

/// The Konzum link found near `fragment`: `fragment` is looked up in the
/// uppercased page; the CSV link is searched in the page's bytes within 2000
/// bytes either side of it, and made absolute.
pub open spec fn store_link_spec(html: Seq<char>, fragment: Seq<char>) -> Option<Seq<char>> {
    let h = encode_utf8(html);
    match first_index(encode_utf8(unicode_uppercase(html)), encode_utf8(fragment)) {
        None => None,
        Some(pos) => {
            let (ws, we) = window_bounds(pos, h.len() as int);
            if !(ws <= we && is_char_boundary(h, ws) && is_char_boundary(h, we)) {
                None
            } else {
                let w = h.subrange(ws, we);
                match csv_href_from(w, lower_bytes(w), 0) {
                    None => None,
                    Some((a, b)) => Some(absolutised(decode_utf8(w.subrange(a, b)), konzum_base())),
                }
            }
        },
    }
}

/// Finds the CSV link that stands near the text `fragment` on a Konzum page.
pub fn find_store_link(html: &str, fragment: &str) -> (r: Option<String>)
    ensures
        r matches Some(s) ==> store_link_spec(html@, fragment@) == Some(s@),
        r is None ==> store_link_spec(html@, fragment@) is None,
{
    let up = to_uppercase(html);
    let ub = up.as_str().as_bytes();
    let fb = fragment.as_bytes();
    assert(ub@ == encode_utf8(unicode_uppercase(html@)));
    assert(fb@ == encode_utf8(fragment@));
    let ghost h = encode_utf8(html@);
    let pos = match bytes_find_from(ub, fb, 0) {
        None => return None,
        Some(p) => p,
    };
    let len = html.as_bytes().len();
    assert(len == h.len());
    assert(window_bounds(pos as int, len as int) == (if pos >= 2000 { pos - 2000 } else { 0int }, if pos + 2000 <= len { pos + 2000 } else { len as int }));
    let ws = if pos >= 2000 { pos - 2000 } else { 0 };
    let we = if pos <= len && len - pos >= 2000 { pos + 2000 } else { len };
    if !(ws <= we && html.is_char_boundary(ws) && html.is_char_boundary(we)) {
        return None;
    }
    let (head, _) = html.split_at(we);
    assert(is_char_boundary(head.spec_bytes(), ws as int)) by {
        assert(head.spec_bytes() =~= html.spec_bytes().subrange(0, we as int));
        lemma_boundary_in_prefix(html.spec_bytes(), ws as int, we as int);
    }
    let (_, window) = head.split_at(ws);
    assert(window.spec_bytes() =~= html.spec_bytes().subrange(ws as int, we as int));
    assert(window.spec_bytes() == h.subrange(ws as int, we as int));
    match extract_csv_href(window) {
        None => None,
        Some(href) => {
            assert(decode_utf8(href.spec_bytes()) == href@);
            Some(absolutise(href, "https://www.konzum.hr"))
        },
    }
}

// ── Lidl: all links of a page ───────────────────────────────────────────────

/// The attribute values of the `href="..."` markers of the string encoded by
/// `r`, in order. Each marker is looked up in the lowercased rest of the page
/// and the page is cut at the offset found there; the scan ends at a marker
/// without a closing quote, and where the cut would fall inside a character.
pub open spec fn hrefs_in(r: Seq<u8>) -> Seq<Seq<char>>
    decreases r.len(),
{
    match first_index(lower_bytes(r), href_marker()) {
        None => Seq::empty(),
        Some(p) => {
            let a = p + 6;
            if !(0 <= a <= r.len() && is_char_boundary(r, a)) {
                Seq::empty()
            } else {
                let r2 = r.subrange(a, r.len() as int);
                match first_index(r2, seq![QUOTE]) {
                    None => Seq::empty(),
                    Some(e) => {
                        proof {
                            lemma_find_from(r2, seq![QUOTE], 0);
                        }
                        seq![decode_utf8(r2.subrange(0, e))] + hrefs_in(
                            r2.subrange(e + 1, r2.len() as int),
                        )
                    },
                }
            }
        },
    }
}

pub open spec fn string_views(s: Seq<String>) -> Seq<Seq<char>> {
    s.map_values(|x: String| x@)
}

/// Every `href="..."` value of a page, in order.
pub fn extract_hrefs(html: &str) -> (r: Vec<String>)
    ensures
        string_views(r@) == hrefs_in(html.spec_bytes()),
{
    let mut out: Vec<String> = Vec::new();
    let mut rest: &str = html;
    let marker: [u8; 6] = [104u8, 114u8, 101u8, 102u8, 61u8, 34u8];
    assert(marker@ =~= href_marker());
    let quote: [u8; 1] = [QUOTE];
    assert(string_views(out@) =~= Seq::<Seq<char>>::empty());
    loop
        invariant
            marker@ == href_marker(),
            quote@ == seq![QUOTE],
            hrefs_in(html.spec_bytes()) == string_views(out@) + hrefs_in(rest.spec_bytes()),
        decreases rest.spec_bytes().len(),
    {
        let ghost rb = rest.spec_bytes();
        assert(decode_utf8(rb) == rest@);
        let lower = to_lowercase(rest);
        let lb = lower.as_str().as_bytes();
        assert(lb@ == lower_bytes(rb));
        let pos = match bytes_find_from(lb, &marker, 0) {
            None => {
                assert(string_views(out@) + Seq::<Seq<char>>::empty() =~= string_views(out@));
                return out;
            },
            Some(p) => p,
        };
        proof {
            lemma_find_from(lb@, href_marker(), 0);
            assert(href_marker().len() == 6);
            assert(lb@.len() == lb.len());
        }
        let a = pos + 6;
        if !rest.is_char_boundary(a) {
            assert(string_views(out@) + Seq::<Seq<char>>::empty() =~= string_views(out@));
            return out;
        }
        proof {
            reveal_with_fuel(is_char_boundary, 1);
        }
        assert(a <= rb.len()) by {
            if a > rb.len() {
                assert(!is_char_boundary(rb, a as int));
            }
        }
        let (_, r2) = rest.split_at(a);
        let ghost r2b = rb.subrange(a as int, rb.len() as int);
        assert(r2.spec_bytes() == r2b);
        let r2bytes = r2.as_bytes();
        let e = match bytes_find_from(r2bytes, &quote, 0) {
            None => {
                assert(string_views(out@) + Seq::<Seq<char>>::empty() =~= string_views(out@));
                return out;
            },
            Some(e) => e,
        };
        proof {
            lemma_find_from(r2b, seq![QUOTE], 0);
            assert(r2b.subrange(e as int, e + 1)[0] == r2b[e as int]);
            lemma_ascii_byte_is_boundary(r2b, e as int);
            lemma_after_ascii_is_boundary(r2b, e as int);
            assert(r2bytes@.len() == r2bytes.len());
        }
        let (h, _) = r2.split_at(e);
        assert(h.spec_bytes() =~= r2b.subrange(0, e as int));
        let (_, r3) = r2.split_at(e + 1);
        assert(r3.spec_bytes() =~= r2b.subrange(e + 1, r2b.len() as int));
        let ghost before = string_views(out@);
        out.push(h.to_owned());
        assert(string_views(out@) =~= before.push(decode_utf8(r2b.subrange(0, e as int))));
        assert(hrefs_in(rb) == seq![decode_utf8(r2b.subrange(0, e as int))] + hrefs_in(
            r3.spec_bytes(),
        ));
        assert(before.push(decode_utf8(r2b.subrange(0, e as int))) + hrefs_in(r3.spec_bytes())
            =~= before + (seq![decode_utf8(r2b.subrange(0, e as int))] + hrefs_in(r3.spec_bytes())));
        rest = r3;
    }
}

/// The first element of `hs` that `pred` accepts.
pub open spec fn first_match(hs: Seq<Seq<char>>, pred: spec_fn(Seq<char>) -> bool) -> Option<
    Seq<char>,
>
    decreases hs.len(),
{
    if hs.len() == 0 {
        None
    } else if pred(hs[0]) {
        Some(hs[0])
    } else {
        first_match(hs.drop_first(), pred)
    }
}

/// A ZIP link carrying the given date.
pub open spec fn is_dated_zip(date: Seq<char>) -> spec_fn(Seq<char>) -> bool {
    |h: Seq<char>| ends_with(unicode_lowercase(h), ".zip"@) && contains(h, date)
}

/// A ZIP link of the price-list archive, whatever its date.
pub open spec fn is_price_list_zip() -> spec_fn(Seq<char>) -> bool {
    |h: Seq<char>|
        ends_with(unicode_lowercase(h), ".zip"@) && contains(unicode_lowercase(h), "popis_cijena"@)
}

pub open spec fn lidl_base() -> Seq<char> {
    "https://tvrtka.lidl.hr"@
}

/// The archive link of the page for the date: the first ZIP link that carries
/// the date, else the first price-list ZIP link (the page lists the newest
/// first), made absolute.
pub open spec fn zip_for_date(hrefs: Seq<Seq<char>>, date: Seq<char>) -> Option<Seq<char>> {
    match first_match(hrefs, is_dated_zip(date)) {
        Some(h) => Some(absolutised(h, lidl_base())),
        None => match first_match(hrefs, is_price_list_zip()) {
            Some(h) => Some(absolutised(h, lidl_base())),
            None => None,
        },
    }
}

/// The first element of `hs` accepted by the test that `dated` selects
/// (`dated`: a ZIP carrying `date`; otherwise: a price-list ZIP).
fn first_zip_link(hs: &Vec<String>, date: &str, dated: bool) -> (r: Option<usize>)
    ensures
        ({
            let pred = if dated { is_dated_zip(date@) } else { is_price_list_zip() };
            &&& r matches Some(i) ==> i < hs@.len() && first_match(string_views(hs@), pred) == Some(
                hs@[i as int]@,
            )
            &&& r is None ==> first_match(string_views(hs@), pred) is None
        }),
{
    let ghost pred = if dated { is_dated_zip(date@) } else { is_price_list_zip() };
    let zip = chars_of(".zip");
    let list = chars_of("popis_cijena");
    let dc = chars_of(date);
    let mut i: usize = 0;
    assert(string_views(hs@).subrange(0, hs@.len() as int) =~= string_views(hs@));
    while i < hs.len()
        invariant
            i <= hs.len(),
            pred == (if dated { is_dated_zip(date@) } else { is_price_list_zip() }),
            zip@ == ".zip"@,
            list@ == "popis_cijena"@,
            dc@ == date@,
            first_match(string_views(hs@), pred) == first_match(
                string_views(hs@).subrange(i as int, hs@.len() as int),
                pred,
            ),
        decreases hs.len() - i,
    {
        let ghost tail = string_views(hs@).subrange(i as int, hs@.len() as int);
        assert(tail[0] == hs@[i as int]@);
        assert(tail.drop_first() =~= string_views(hs@).subrange(i + 1, hs@.len() as int));
        let h = chars_of(hs[i].as_str());
        let lower = to_lowercase(hs[i].as_str());
        let lc = chars_of(lower.as_str());
        let ok = if dated {
            chars_ends_with(&lc, &zip) && chars_contains(&h, &dc)
        } else {
            chars_ends_with(&lc, &zip) && chars_contains(&lc, &list)
        };
        if ok {
            return Some(i);
        }
        i = i + 1;
    }
    None
}

/// The archive link for the date on Lidl's price page: the first ZIP link that
/// carries `date_fragment`, else the first price-list ZIP link, made absolute.
pub fn find_zip_for_date(html: &str, date_fragment: &str) -> (r: Option<String>)
    ensures
        r matches Some(s) ==> zip_for_date(hrefs_in(html.spec_bytes()), date_fragment@) == Some(
            s@,
        ),
        r is None ==> zip_for_date(hrefs_in(html.spec_bytes()), date_fragment@) is None,
{
    let hrefs = extract_hrefs(html);
    match first_zip_link(&hrefs, date_fragment, true) {
        Some(i) => Some(absolutise(hrefs[i].as_str(), "https://tvrtka.lidl.hr")),
        None => match first_zip_link(&hrefs, date_fragment, false) {
            Some(i) => Some(absolutise(hrefs[i].as_str(), "https://tvrtka.lidl.hr")),
            None => None,
        },
    }
}

// ── Konzum: walking the paged listing ───────────────────────────────────────

/// The highest listing page consulted.
pub const MAX_PAGES: usize = 20;

/// The store whose price list is wanted, as it appears on the listing.
pub open spec fn konzum_store() -> Seq<char> {
    "DUGO SELO"@
}

/// A page with too little content to list products, or the last page allowed.
pub open spec fn page_count_exceeded_spec(html_len: nat, current: nat) -> bool {
    html_len < 500 || current >= MAX_PAGES
}

/// Is this the last listing page worth reading?
pub fn page_count_exceeded(html: &str, current: usize) -> (b: bool)
    ensures
        b == page_count_exceeded_spec(html.spec_bytes().len(), current as nat),
{
    html.as_bytes().len() < 500 || current >= MAX_PAGES
}

/// What to do after reading one listing page.
#[derive(Debug)]
pub enum PageStep {
    /// The store's price list is at this URL.
    Found(String),
    /// The listing has no further pages.
    Stop,
    /// Read the next page.
    Next,
}

/// The step after reading listing page `page`: the store's link if the page has
/// it; else stop when the page has no `page=` link or is the last one worth
/// reading; else go on.
pub open spec fn page_step_spec(html: Seq<char>, page: nat) -> Option<Option<Seq<char>>> {
    match store_link_spec(html, konzum_store()) {
        Some(u) => Some(Some(u)),
        None => if !contains(unicode_lowercase(html), "page="@) || page_count_exceeded_spec(
            encode_utf8(html).len(),
            page,
        ) {
            Some(None)
        } else {
            None
        },
    }
}

/// Decides, for one Konzum listing page, whether the store's link is found,
/// the listing is over, or the next page must be read.
pub fn konzum_page_step(html: &str, page: usize) -> (r: PageStep)
    ensures
        match r {
            PageStep::Found(u) => page_step_spec(html@, page as nat) == Some(Some(u@)),
            PageStep::Stop => page_step_spec(html@, page as nat) == Some(None::<Seq<char>>),
            PageStep::Next => page_step_spec(html@, page as nat) is None,
        },
{
    proof {
        reveal_strlit("DUGO SELO");
    }
    match find_store_link(html, "DUGO SELO") {
        Some(u) => PageStep::Found(u),
        None => {
            let lower = to_lowercase(html);
            let lc = chars_of(lower.as_str());
            let marker = chars_of("page=");
            if !chars_contains(&lc, &marker) || page_count_exceeded(html, page) {
                PageStep::Stop
            } else {
                PageStep::Next
            }
        },
    }
}

} // verus!
