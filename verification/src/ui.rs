//! The decisions of the shopping-list page: the search request for what is
//! typed, toggling an item's priority, and editing its blacklisted brands.
use vstd::prelude::*;
use vstd::string::StringSliceAdditionalSpecFns;
use crate::text::{
    chars_concat, chars_equal, chars_of, is_alphanumeric, string_of, trim, trim_chars,
    unicode_alphanumeric,
};

verus! {

// ── The search request ──────────────────────────────────────────────────────

pub open spec fn hex_digit(d: nat) -> char {
    if d < 10 {
        (('0' as u32) + d) as char
    } else {
        (('A' as u32) + (d - 10)) as char
    }
}

/// The uppercase hexadecimal digits of `n`.
pub open spec fn hex(n: nat) -> Seq<char>
    decreases n,
{
    if n < 16 {
        seq![hex_digit(n)]
    } else {
        hex(n / 16) + seq![hex_digit(n % 16)]
    }
}

/// `%` and the character's code in uppercase hexadecimal, at least two digits.
pub open spec fn percent_code(c: char) -> Seq<char> {
    let h = hex((c as u32) as nat);
    if h.len() < 2 {
        "%0"@ + h
    } else {
        "%"@ + h
    }
}

/// Characters sent as they are: alphanumerics, `-` and `_`.
pub open spec fn kept_in_query(c: char) -> bool {
    unicode_alphanumeric(c) || c == '-' || c == '_'
}

/// The query text as sent: kept characters as they are, others as `%` codes.
pub open spec fn encoded(s: Seq<char>) -> Seq<char>
    decreases s.len(),
{
    if s.len() == 0 {
        Seq::empty()
    } else {
        encoded(s.drop_last()) + if kept_in_query(s.last()) {
            seq![s.last()]
        } else {
            percent_code(s.last())
        }
    }
}

fn hex_chars(n: u32) -> (r: Vec<char>)
    ensures
        r@ == hex(n as nat),
    decreases n,
{
    let d = n % 16;
    let c = if d < 10 {
        char_from_code(48 + d)
    } else {
        char_from_code(65 + d - 10)
    };
    if n < 16 {
        let mut v: Vec<char> = Vec::new();
        v.push(c);
        assert(v@ =~= seq![hex_digit(n as nat)]);
        v
    } else {
        let mut v = hex_chars(n / 16);
        v.push(c);
        v
    }
}

fn char_from_code(code: u32) -> (c: char)
    requires
        48 <= code <= 57 || 65 <= code <= 70,
    ensures
        c as u32 == code,
{
    if code == 48 { '0' } else if code == 49 { '1' } else if code == 50 { '2' }
    else if code == 51 { '3' } else if code == 52 { '4' } else if code == 53 { '5' }
    else if code == 54 { '6' } else if code == 55 { '7' } else if code == 56 { '8' }
    else if code == 57 { '9' } else if code == 65 { 'A' } else if code == 66 { 'B' }
    else if code == 67 { 'C' } else if code == 68 { 'D' } else if code == 69 { 'E' }
    else { 'F' }
}

/// The path of the search request for what was typed; `None` (no request,
/// no results) below two bytes of text.
pub fn search_path(q: &str) -> (r: Option<String>)
    ensures
        q.spec_bytes().len() < 2 ==> r is None,
        q.spec_bytes().len() >= 2 ==> (r matches Some(p) && p@ == "/api/search?q="@ + encoded(q@)),
{
    if q.as_bytes().len() < 2 {
        return None;
    }
    let cs = chars_of(q);
    let mut out: Vec<char> = Vec::new();
    let mut i: usize = 0;
    assert(cs@.take(0) =~= Seq::<char>::empty());
    while i < cs.len()
        invariant
            i <= cs@.len(),
            cs@ == q@,
            out@ == encoded(cs@.take(i as int)),
        decreases cs@.len() - i,
    {
        let c = cs[i];
        assert(cs@.take(i + 1).drop_last() =~= cs@.take(i as int));
        assert(cs@.take(i + 1).last() == c);
        let ghost before = out@;
        if is_alphanumeric(c) || c == '-' || c == '_' {
            out.push(c);
        } else {
            let h = hex_chars(c as u32);
            let prefix = if h.len() < 2 {
                chars_of("%0")
            } else {
                chars_of("%")
            };
            out = chars_concat(&chars_concat(&out, &prefix), &h);
            assert(out@ =~= before + percent_code(c));
        }
        assert(out@ == encoded(cs@.take(i + 1)));
        i = i + 1;
    }
    assert(cs@.take(cs@.len() as int) =~= cs@);
    Some(string_of(&chars_concat(&chars_of("/api/search?q="), &out)))
}

// ── Priority and brands ─────────────────────────────────────────────────────

/// The priority after a click on the badge: "soon" from "immediate", else
/// "immediate".
pub open spec fn toggled(p: Seq<char>) -> Seq<char> {
    if p == "immediate"@ {
        "soon"@
    } else {
        "immediate"@
    }
}

/// The priority a click on an item's badge switches to.
pub fn next_priority(current: &str) -> (r: &'static str)
    ensures
        r@ == toggled(current@),
{
    if chars_equal(&chars_of(current), &chars_of("immediate")) {
        "soon"
    } else {
        "immediate"
    }
}

pub open spec fn string_views(s: Seq<String>) -> Seq<Seq<char>> {
    s.map_values(|x: String| x@)
}

/// The brands without `brand`, in order.
pub fn without_brand(brands: &Vec<String>, brand: &str) -> (r: Vec<String>)
    ensures
        string_views(r@) == string_views(brands@).filter(|b: Seq<char>| b != brand@),
{
    let ghost bv = string_views(brands@);
    let ghost pred = |b: Seq<char>| b != brand@;
    let target = chars_of(brand);
    let mut out: Vec<String> = Vec::new();
    let mut i: usize = 0;
    assert(bv.take(0).filter(pred) =~= Seq::<Seq<char>>::empty()) by {
        reveal(Seq::filter);
    }
    while i < brands.len()
        invariant
            i <= brands@.len(),
            bv == string_views(brands@),
            target@ == brand@,
            pred == (|b: Seq<char>| b != brand@),
            string_views(out@) == bv.take(i as int).filter(pred),
        decreases brands@.len() - i,
    {
        assert(bv.take(i + 1).drop_last() =~= bv.take(i as int));
        assert(bv[i as int] == brands@[i as int]@);
        reveal(Seq::filter);
        if !chars_equal(&chars_of(brands[i].as_str()), &target) {
            let ghost before = string_views(out@);
            out.push(brands[i].clone());
            assert(string_views(out@) =~= before.push(bv[i as int]));
        }
        i = i + 1;
    }
    assert(bv.take(bv.len() as int) =~= bv);
    out
}

/// The brands after adding what was typed: `None` (nothing to do) when it is
/// blank; else the brands with the trimmed text added at the end unless it is
/// already there.
pub fn with_brand(brands: &Vec<String>, typed: &str) -> (r: Option<Vec<String>>)
    ensures
        trim(typed@).len() == 0 ==> r is None,
        trim(typed@).len() > 0 ==> (r matches Some(v) && string_views(v@) == if string_views(
            brands@,
        ).contains(trim(typed@)) {
            string_views(brands@)
        } else {
            string_views(brands@).push(trim(typed@))
        }),
{
    let t = trim_chars(&chars_of(typed));
    if t.len() == 0 {
        return None;
    }
    let ghost bv = string_views(brands@);
    let mut out: Vec<String> = Vec::new();
    let mut present = false;
    let mut i: usize = 0;
    while i < brands.len()
        invariant
            i <= brands@.len(),
            bv == string_views(brands@),
            string_views(out@) == bv.take(i as int),
            present == bv.take(i as int).contains(t@),
        decreases brands@.len() - i,
    {
        assert(bv[i as int] == brands@[i as int]@);
        let same = chars_equal(&chars_of(brands[i].as_str()), &t);
        let ghost before = string_views(out@);
        let copy = brands[i].clone();
        assert(copy@ == bv[i as int]);
        out.push(copy);
        assert(string_views(out@) =~= before.push(bv[i as int]));
        assert(string_views(out@) =~= bv.take(i + 1));
        assert(bv.take(i + 1) =~= bv.take(i as int).push(bv[i as int]));
        proof {
            if same {
                assert(bv.take(i + 1)[i as int] == t@);
            }
            if bv.take(i + 1).contains(t@) && !same {
                let k = choose|k: int| 0 <= k < bv.take(i + 1).len() && #[trigger] bv.take(i + 1)[k] == t@;
                assert(bv.take(i as int)[k] == t@);
            }
        }
        present = present || same;
        i = i + 1;
    }
    assert(bv.take(bv.len() as int) =~= bv);
    if !present {
        let ghost before = string_views(out@);
        out.push(string_of(&t));
        assert(string_views(out@) =~= before.push(t@));
    }
    Some(out)
}

/// What the add box holds, trimmed; `None` (nothing to add) when blank.
pub fn query_to_add(typed: &str) -> (r: Option<String>)
    ensures
        trim(typed@).len() == 0 ==> r is None,
        trim(typed@).len() > 0 ==> (r matches Some(q) && q@ == trim(typed@)),
{
    let t = trim_chars(&chars_of(typed));
    if t.len() == 0 {
        None
    } else {
        Some(string_of(&t))
    }
}

/// The second line of a search result: the store, after the brand when there
/// is one.
pub fn search_subtitle(brand: Option<&str>, store_display: &str) -> (r: String)
    ensures
        r@ == match brand {
            Some(b) => if b@.len() == 0 {
                store_display@
            } else {
                b@ + " · "@ + store_display@
            },
            None => store_display@,
        },
{
    match brand {
        Some(b) => {
            let bc = chars_of(b);
            if bc.len() == 0 {
                string_of(&chars_of(store_display))
            } else {
                string_of(&chars_concat(&chars_concat(&bc, &chars_of(" · ")), &chars_of(store_display)))
            }
        },
        None => string_of(&chars_of(store_display)),
    }
}

// ── The item list ───────────────────────────────────────────────────────────

/// The list after an item was created: the new item first.
pub fn with_created<T>(items: Vec<T>, item: T) -> (r: Vec<T>)
    ensures
        r@ == seq![item] + items@,
{
    let mut r = items;
    let ghost before = r@;
    r.insert(0, item);
    assert(r@ =~= seq![item] + before);
    r
}

/// The items among the first `n` whose id is not `id`, in order (`ids[i]`
/// is the id of `items[i]`).
pub open spec fn kept_ids<T>(items: Seq<T>, ids: Seq<Seq<char>>, id: Seq<char>, n: int) -> Seq<T>
    decreases n,
{
    if n <= 0 {
        Seq::empty()
    } else if ids[n - 1] != id {
        kept_ids(items, ids, id, n - 1).push(items[n - 1])
    } else {
        kept_ids(items, ids, id, n - 1)
    }
}

/// The list after the item with id `id` was deleted: every item with that
/// id dropped, the others in order. `ids[i]` is the id of `items[i]`.
pub fn without_item<T>(items: Vec<T>, ids: &Vec<String>, id: &str) -> (r: Vec<T>)
    requires
        ids.len() == items.len(),
    ensures
        r@ == kept_ids(items@, string_views(ids@), id@, items@.len() as int),
{
    let ghost orig = items@;
    let ghost iv = string_views(ids@);
    let target = chars_of(id);
    let mut rest = items;
    let mut r: Vec<T> = Vec::new();
    let mut i: usize = 0;
    while i < ids.len()
        invariant
            i <= ids.len() == orig.len(),
            iv == string_views(ids@),
            target@ == id@,
            rest@ == orig.subrange(i as int, orig.len() as int),
            r@ == kept_ids(orig, iv, id@, i as int),
        decreases ids.len() - i,
    {
        let ghost rest_before = rest@;
        let x = rest.remove(0);
        assert(x == orig[i as int]);
        assert(iv[i as int] == ids@[i as int]@);
        if !chars_equal(&chars_of(ids[i].as_str()), &target) {
            r.push(x);
        }
        i = i + 1;
        assert(rest@ =~= orig.subrange(i as int, orig.len() as int));
    }
    r
}

/// The first index whose id is `id`.
pub open spec fn index_of_id(ids: Seq<Seq<char>>, id: Seq<char>) -> Option<int> {
    crate::columns::first_where(ids, crate::columns::equals_key(id), 0)
}

/// The list after an item was updated: the first item with its id replaced
/// by it; unchanged when no item has that id. `ids[i]` is the id of `items[i]`.
pub fn with_updated<T>(items: Vec<T>, ids: &Vec<String>, id: &str, updated: T) -> (r: Vec<T>)
    requires
        ids.len() == items.len(),
    ensures
        match index_of_id(string_views(ids@), id@) {
            Some(k) => r@ == items@.update(k, updated),
            None => r@ == items@,
        },
{
    let ghost iv = string_views(ids@);
    let target = chars_of(id);
    let mut i: usize = 0;
    while i < ids.len()
        invariant
            i <= ids.len() == items.len(),
            iv == string_views(ids@),
            target@ == id@,
            index_of_id(iv, id@) == crate::columns::first_where(iv, crate::columns::equals_key(id@), i as int),
        decreases ids.len() - i,
    {
        assert(iv[i as int] == ids@[i as int]@);
        if chars_equal(&chars_of(ids[i].as_str()), &target) {
            let mut r = items;
            r.set(i, updated);
            return r;
        }
        i = i + 1;
    }
    items
}

// ── Laws ────────────────────────────────────────────────────────────────────

/// Two clicks on a priority badge give back the priority it had.
pub proof fn lemma_toggle_twice(p: Seq<char>)
    requires
        p == "immediate"@ || p == "soon"@,
    ensures
        toggled(toggled(p)) == p,
{
    reveal_strlit("immediate");
    reveal_strlit("soon");
    assert("soon"@.len() != "immediate"@.len());
}

/// Adding a brand and then removing it leaves the other brands as they were.
pub proof fn lemma_add_then_remove_brand(bs: Seq<Seq<char>>, t: Seq<char>)
    ensures
        (if bs.contains(t) {
            bs
        } else {
            bs.push(t)
        }).filter(|b: Seq<char>| b != t) == bs.filter(|b: Seq<char>| b != t),
{
    if !bs.contains(t) {
        reveal(Seq::filter);
        assert(bs.push(t).drop_last() =~= bs);
    }
}

} // verus!
