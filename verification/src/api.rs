//! The decisions behind the HTTP API: shopping-list item requests and the
//! reading of a task's human-visible description.
use vstd::prelude::*;
use crate::text::{
    ascii_whitespace, chars_concat, chars_equal, chars_find_from, chars_of, chars_slice,
    chars_starts_with, first_index, find_from, lemma_find_from, lemma_find_from_exact, occurs_at,
    starts_with, string_of, trim, trim_chars, trim_end, trim_start, unicode_whitespace,
};
use crate::search::ProductView;
use crate::sync::{display_name, human_description, shows_unit_price};
use crate::todoist::TaskMeta;

verus! {

/// The query string of a product search.
pub struct SearchQuery {
    pub q: String,
}

/// How many tasks a full refresh went through.
pub struct RefreshAllResponse {
    pub synced: usize,
}

// ── Capitalising a query ────────────────────────────────────────────────────

/// What `char::to_uppercase` yields for a non-ASCII `c`, collected (one or
/// more characters).
pub uninterp spec fn non_ascii_char_uppercase(c: char) -> Seq<char>;

/// What `char::to_uppercase` yields for `c`, collected: an ASCII letter a to
/// z as A to Z, another ASCII character as itself, a non-ASCII one by
/// Unicode's tables.
pub open spec fn char_uppercase(c: char) -> Seq<char> {
    if (c as u32) < 128 {
        seq![crate::text::ascii_upper(c)]
    } else {
        non_ascii_char_uppercase(c)
    }
}

/// Collects `char::to_uppercase(c)` into a `String`: the ASCII letters in
/// uppercase, other ASCII as it is; for a non-ASCII character the result is
/// named `non_ascii_char_uppercase`.
#[verifier::external_body]
fn uppercase_char(c: char) -> (r: String)
    ensures
        r@ == char_uppercase(c),
        (c as u32) >= 128 ==> r@ == non_ascii_char_uppercase(c),
{
    c.to_uppercase().collect::<String>()
}

pub open spec fn capitalized(s: Seq<char>) -> Seq<char> {
    if s.len() == 0 {
        s
    } else {
        char_uppercase(s[0]) + s.drop_first()
    }
}

/// The string with its first character in uppercase.
pub fn capitalize(s: &str) -> (r: String)
    ensures
        r@ == capitalized(s@),
{
    let cs = chars_of(s);
    if cs.len() == 0 {
        return String::new();
    }
    let first = uppercase_char(cs[0]);
    let rest = chars_slice(&cs, 1, cs.len());
    assert(rest@ =~= s@.drop_first());
    string_of(&chars_concat(&chars_of(first.as_str()), &rest))
}

// ── New items and priority changes ──────────────────────────────────────────

/// The priority of an item wanted now.
pub open spec fn immediate() -> Seq<char> {
    "immediate"@
}

/// The priority of an item wanted soon.
pub open spec fn soon() -> Seq<char> {
    "soon"@
}

/// Is the priority one of the two the list knows?
pub fn valid_priority(p: &str) -> (b: bool)
    ensures
        b == (p@ == immediate() || p@ == soon()),
{
    let pc = chars_of(p);
    chars_equal(&pc, &chars_of("immediate")) || chars_equal(&pc, &chars_of("soon"))
}

/// An item with this priority is due today.
pub fn due_today(priority: &str) -> (b: bool)
    ensures
        b == (priority@ == immediate()),
{
    chars_equal(&chars_of(priority), &chars_of("immediate"))
}

/// What a new item starts with.
pub struct NewItem {
    /// The task's title: the query, capitalised.
    pub query: String,
    pub meta: TaskMeta,
    /// Whether the task gets today's date as due date.
    pub due_today: bool,
}

/// A new item: its query capitalised, priority "immediate" unless one is
/// given, the given blacklisted brands (none by default), due today when
/// its priority is "immediate".
pub fn new_item(query: &str, priority: Option<&str>, blacklisted_brands: Option<Vec<String>>) -> (r: NewItem)
    ensures
        r.query@ == capitalized(query@),
        r.meta.priority@ == match priority {
            Some(p) => p@,
            None => immediate(),
        },
        r.meta.blacklisted_brands@ == match blacklisted_brands {
            Some(b) => b@,
            None => Seq::<String>::empty(),
        },
        r.due_today == (r.meta.priority@ == immediate()),
{
    let p = match priority {
        Some(p) => p,
        None => "immediate",
    };
    proof {
        reveal_strlit("immediate");
    }
    let brands = match blacklisted_brands {
        Some(b) => b,
        None => Vec::new(),
    };
    let meta = TaskMeta::new(p, brands);
    let due = due_today(p);
    NewItem { query: capitalize(query), meta, due_today: due }
}

// ── Reading a task's description ────────────────────────────────────────────

/// `l` without one trailing carriage return.
pub open spec fn strip_cr(l: Seq<char>) -> Seq<char> {
    if l.len() > 0 && l.last() == '\r' {
        l.drop_last()
    } else {
        l
    }
}

/// The lines of `s` as `str::lines` yields them: split at each line feed, a
/// carriage return before it dropped, no empty line after a final line feed.
pub open spec fn lines_of(s: Seq<char>) -> Seq<Seq<char>>
    decreases s.len(),
{
    if s.len() == 0 {
        Seq::empty()
    } else {
        match first_index(s, seq!['\n']) {
            None => seq![s],
            Some(i) => {
                proof {
                    lemma_find_from(s, seq!['\n'], 0);
                }
                seq![strip_cr(s.subrange(0, i))] + lines_of(s.subrange(i + 1, s.len() as int))
            },
        }
    }
}

/// What a task's description says of its best product, as text.
#[derive(Clone, Debug)]
pub struct ParsedDescription {
    pub chain: Option<String>,
    pub product_name: Option<String>,
    pub brand: Option<String>,
    /// The shelf price's number, as written.
    pub price: Option<String>,
    /// The unit price's number, as written.
    pub unit_price: Option<String>,
}

pub struct ParsedView {
    pub chain: Option<Seq<char>>,
    pub product_name: Option<Seq<char>>,
    pub brand: Option<Seq<char>>,
    pub price: Option<Seq<char>>,
    pub unit_price: Option<Seq<char>>,
}

pub open spec fn opt_view(o: Option<String>) -> Option<Seq<char>> {
    match o {
        Some(s) => Some(s@),
        None => None,
    }
}

impl View for ParsedDescription {
    type V = ParsedView;

    open spec fn view(&self) -> ParsedView {
        ParsedView {
            chain: opt_view(self.chain),
            product_name: opt_view(self.product_name),
            brand: opt_view(self.brand),
            price: opt_view(self.price),
            unit_price: opt_view(self.unit_price),
        }
    }
}

pub open spec fn nothing_parsed() -> ParsedView {
    ParsedView { chain: None, product_name: None, brand: None, price: None, unit_price: None }
}

/// `s` after `p`, where `s` starts with `p`.
pub open spec fn after(s: Seq<char>, p: Seq<char>) -> Seq<char> {
    s.subrange(p.len() as int, s.len() as int)
}

/// `v` before its first " EUR" (all of it when there is none).
pub open spec fn before_eur(v: Seq<char>) -> Seq<char> {
    match first_index(v, " EUR"@) {
        Some(k) => v.subrange(0, k),
        None => v,
    }
}

/// `v` without a final " EUR", if it ends with one.
pub open spec fn strip_eur(v: Seq<char>) -> Option<Seq<char>> {
    if v.len() >= 4 && v.subrange(v.len() - 4, v.len() as int) == " EUR"@ {
        Some(v.subrange(0, v.len() - 4))
    } else {
        None
    }
}

/// What one line of a description contributes: `Proizvod: `, `Brand: ` (a `-`
/// brand is left out), `Cijena: ` (the number before a final ` EUR`),
/// `Lanac: `, and `Cijena/l: ` or `Cijena/kg: ` (the text before ` EUR`).
pub open spec fn read_line(acc: ParsedView, line: Seq<char>) -> ParsedView {
    if starts_with(line, "Proizvod: "@) {
        ParsedView { product_name: Some(trim(after(line, "Proizvod: "@))), ..acc }
    } else if starts_with(line, "Brand: "@) {
        let v = trim(after(line, "Brand: "@));
        if v != "-"@ {
            ParsedView { brand: Some(v), ..acc }
        } else {
            acc
        }
    } else if starts_with(line, "Cijena: "@) {
        ParsedView { price: strip_eur(trim(after(line, "Cijena: "@))), ..acc }
    } else if starts_with(line, "Lanac: "@) {
        ParsedView { chain: Some(trim(after(line, "Lanac: "@))), ..acc }
    } else if starts_with(line, "Cijena/l: "@) {
        ParsedView { unit_price: Some(trim(before_eur(after(line, "Cijena/l: "@)))), ..acc }
    } else if starts_with(line, "Cijena/kg: "@) {
        ParsedView { unit_price: Some(trim(before_eur(after(line, "Cijena/kg: "@)))), ..acc }
    } else {
        acc
    }
}

/// The lines read in order, later lines overriding earlier ones.
pub open spec fn read_lines(lines: Seq<Seq<char>>) -> ParsedView
    decreases lines.len(),
{
    if lines.len() == 0 {
        nothing_parsed()
    } else {
        read_line(read_lines(lines.drop_last()), lines.last())
    }
}

fn copy_opt(o: &Option<String>) -> (r: Option<String>)
    ensures
        opt_view(r) == opt_view(*o),
{
    match o {
        Some(s) => Some(s.clone()),
        None => None,
    }
}

/// `v` without a final " EUR", if it ends with one.
fn strip_eur_exec(v: &Vec<char>) -> (r: Option<String>)
    ensures
        opt_view(r) == strip_eur(v@),
{
    let eur = chars_of(" EUR");
    proof {
        reveal_strlit(" EUR");
    }
    if v.len() >= 4 {
        let tail = chars_slice(v, v.len() - 4, v.len());
        if chars_equal(&tail, &eur) {
            return Some(string_of(&chars_slice(v, 0, v.len() - 4)));
        }
    }
    None
}

/// What one line contributes to what was read so far.
fn read_line_exec(acc: ParsedDescription, line: &Vec<char>) -> (r: ParsedDescription)
    ensures
        r@ == read_line(acc@, line@),
{
    let proizvod = chars_of("Proizvod: ");
    let brand = chars_of("Brand: ");
    let cijena = chars_of("Cijena: ");
    let lanac = chars_of("Lanac: ");
    let per_l = chars_of("Cijena/l: ");
    let per_kg = chars_of("Cijena/kg: ");
    if chars_starts_with(line, &proizvod) {
        let v = trim_chars(&chars_slice(line, proizvod.len(), line.len()));
        ParsedDescription { product_name: Some(string_of(&v)), ..acc }
    } else if chars_starts_with(line, &brand) {
        let v = trim_chars(&chars_slice(line, brand.len(), line.len()));
        if !chars_equal(&v, &chars_of("-")) {
            ParsedDescription { brand: Some(string_of(&v)), ..acc }
        } else {
            acc
        }
    } else if chars_starts_with(line, &cijena) {
        let v = trim_chars(&chars_slice(line, cijena.len(), line.len()));
        ParsedDescription { price: strip_eur_exec(&v), ..acc }
    } else if chars_starts_with(line, &lanac) {
        let v = trim_chars(&chars_slice(line, lanac.len(), line.len()));
        ParsedDescription { chain: Some(string_of(&v)), ..acc }
    } else if chars_starts_with(line, &per_l) || chars_starts_with(line, &per_kg) {
        let plen = if chars_starts_with(line, &per_l) {
            per_l.len()
        } else {
            per_kg.len()
        };
        let v = chars_slice(line, plen, line.len());
        let eur = chars_of(" EUR");
        let end = match chars_find_from(&v, &eur, 0) {
            Some(k) => k,
            None => v.len(),
        };
        proof {
            lemma_find_from(v@, " EUR"@, 0);
            assert(v@.subrange(0, v@.len() as int) =~= v@);
        }
        let part = trim_chars(&chars_slice(&v, 0, end));
        ParsedDescription { unit_price: Some(string_of(&part)), ..acc }
    } else {
        acc
    }
}

/// Reads what a task's description says of its best product: name, brand,
/// chain, and the numbers of its price and unit price as written.
pub fn parse_human_description(s: &str) -> (r: ParsedDescription)
    ensures
        r@ == read_lines(lines_of(s@)),
{
    let cs = chars_of(s);
    let nl = chars_of("\n");
    proof {
        reveal_strlit("\n");
    }
    assert(nl@ =~= seq!['\n']);
    let mut out = ParsedDescription {
        chain: None,
        product_name: None,
        brand: None,
        price: None,
        unit_price: None,
    };
    let mut pos: usize = 0;
    let ghost mut done: Seq<Seq<char>> = Seq::empty();
    assert(cs@.subrange(0, cs@.len() as int) =~= cs@);
    assert(done + lines_of(cs@.subrange(0, cs@.len() as int)) =~= lines_of(s@));
    while pos < cs.len()
        invariant
            pos <= cs.len(),
            nl@ == seq!['\n'],
            cs@ == s@,
            lines_of(s@) == done + lines_of(cs@.subrange(pos as int, cs@.len() as int)),
            out@ == read_lines(done),
        decreases cs.len() - pos,
    {
        let ghost rest = cs@.subrange(pos as int, cs@.len() as int);
        let found = chars_find_from(&cs, &nl, pos);
        proof {
            lemma_find_from(cs@, seq!['\n'], pos as int);
            assert(cs@.len() == cs.len());
        }
        let (line_end, next) = match found {
            Some(k) => (k, k + 1),
            None => (cs.len(), cs.len()),
        };
        proof {
            if found is Some {
                assert forall|j: int| 0 <= j < line_end - pos implies !crate::text::occurs_at(rest, seq!['\n'], j) by {
                    if crate::text::occurs_at(rest, seq!['\n'], j) {
                        assert(rest.subrange(j, j + 1) =~= cs@.subrange(pos + j, pos + j + 1));
                        assert(crate::text::occurs_at(cs@, seq!['\n'], pos + j));
                    }
                }
                assert(rest.subrange(line_end - pos, line_end - pos + 1) =~= cs@.subrange(line_end as int, line_end + 1));
                crate::text::lemma_find_from_exact(rest, seq!['\n'], 0, line_end - pos);
            } else {
                assert forall|j: int| 0 <= j implies !crate::text::occurs_at(rest, seq!['\n'], j) by {
                    if crate::text::occurs_at(rest, seq!['\n'], j) {
                        assert(rest.subrange(j, j + 1) =~= cs@.subrange(pos + j, pos + j + 1));
                        assert(crate::text::occurs_at(cs@, seq!['\n'], pos + j));
                    }
                }
                lemma_find_from(rest, seq!['\n'], 0);
                if first_index(rest, seq!['\n']) is Some {
                    let k = first_index(rest, seq!['\n'])->0;
                    assert(crate::text::occurs_at(rest, seq!['\n'], k));
                }
            }
        }
        let mut line = chars_slice(&cs, pos, line_end);
        if line.len() > 0 && line[line.len() - 1] == '\r' && line_end < cs.len() {
            line = chars_slice(&line, 0, line.len() - 1);
        }
        let ghost l = line@;
        out = read_line_exec(out, &line);
        proof {
            let tail = cs@.subrange(next as int, cs@.len() as int);
            assert(rest.subrange(0, line_end - pos) =~= cs@.subrange(pos as int, line_end as int));
            if line_end < cs.len() {
                assert(rest.subrange(line_end - pos + 1, rest.len() as int) =~= tail);
            }
            assert(lines_of(rest) == seq![l] + lines_of(tail));
            let d2 = done.push(l);
            assert(d2.drop_last() =~= done);
            assert(done + lines_of(rest) =~= d2 + lines_of(tail));
            done = d2;
        }
        pos = next;
    }
    assert(lines_of(cs@.subrange(pos as int, cs@.len() as int)) =~= Seq::<Seq<char>>::empty());
    assert(done + Seq::<Seq<char>>::empty() =~= done);
    out
}

// ── Reading back what was written ───────────────────────────────────────────

/// No line feed in `s`.
pub open spec fn one_line(s: Seq<char>) -> bool {
    forall|i: int| 0 <= i < s.len() ==> s[i] != '\n'
}

proof fn lemma_lines_cons(a: Seq<char>, b: Seq<char>)
    requires
        one_line(a),
    ensures
        lines_of(a + seq!['\n'] + b) == seq![strip_cr(a)] + lines_of(b),
{
    let s = a + seq!['\n'] + b;
    let nl = seq!['\n'];
    assert(s.subrange(a.len() as int, a.len() as int + 1) =~= nl);
    assert(occurs_at(s, nl, a.len() as int));
    assert forall|j: int| 0 <= j < a.len() implies !occurs_at(s, nl, j) by {
        if occurs_at(s, nl, j) {
            assert(s.subrange(j, j + 1)[0] == s[j]);
            assert(s[j] == a[j]);
        }
    }
    lemma_find_from_exact(s, nl, 0, a.len() as int);
    assert(s.subrange(0, a.len() as int) =~= a);
    assert(s.subrange(a.len() as int + 1, s.len() as int) =~= b);
}

proof fn lemma_lines_last(a: Seq<char>)
    requires
        one_line(a),
        a.len() > 0,
    ensures
        lines_of(a) == seq![a],
{
    let nl = seq!['\n'];
    lemma_find_from(a, nl, 0);
    if first_index(a, nl) is Some {
        let k = first_index(a, nl)->0;
        assert(a.subrange(k, k + 1)[0] == a[k]);
    }
}

proof fn lemma_trim_start_len(s: Seq<char>)
    ensures
        trim_start(s).len() <= s.len(),
        s.len() > 0 && unicode_whitespace(s[0]) ==> trim_start(s).len() < s.len(),
    decreases s.len(),
{
    if s.len() > 0 && unicode_whitespace(s[0]) {
        lemma_trim_start_len(s.drop_first());
    }
}

proof fn lemma_trim_end_len(s: Seq<char>)
    ensures
        trim_end(s).len() <= s.len(),
        s.len() > 0 && unicode_whitespace(s.last()) ==> trim_end(s).len() < s.len(),
    decreases s.len(),
{
    if s.len() > 0 && unicode_whitespace(s.last()) {
        lemma_trim_end_len(s.drop_last());
    }
}

/// A text that trimming leaves alone neither starts nor ends with whitespace.
proof fn lemma_trimmed_ends(x: Seq<char>)
    requires
        trim(x) == x,
        x.len() > 0,
    ensures
        !unicode_whitespace(x[0]),
        !unicode_whitespace(x.last()),
{
    lemma_trim_start_len(x);
    lemma_trim_end_len(trim_start(x));
    if !unicode_whitespace(x[0]) {
        assert(trim_start(x) == x);
        lemma_trim_end_len(x);
    }
}

/// A trimmed, non-empty text followed by " EUR" is still trimmed.
proof fn lemma_trim_with_eur(x: Seq<char>)
    requires
        trim(x) == x,
        x.len() > 0,
    ensures
        trim(x + " EUR"@) == x + " EUR"@,
{
    reveal_strlit(" EUR");
    lemma_trimmed_ends(x);
    let y = x + " EUR"@;
    assert(y[0] == x[0]);
    assert(trim_start(y) == y);
    assert(y.last() == 'R');
    assert(('R' as u32) < 128);
    assert(!ascii_whitespace('R'));
    assert(trim_end(y) == y);
}

/// `line` does not start with `p`: they differ at index `k`.
proof fn lemma_differs_at(line: Seq<char>, p: Seq<char>, k: int)
    requires
        0 <= k < p.len(),
        k < line.len(),
        line[k] != p[k],
    ensures
        !starts_with(line, p),
{
    if starts_with(line, p) {
        assert(line.subrange(0, p.len() as int)[k] == line[k]);
    }
}

proof fn lemma_after_prefix(p: Seq<char>, q: Seq<char>)
    ensures
        starts_with(p + q, p),
        after(p + q, p) == q,
{
    assert((p + q).subrange(0, p.len() as int) =~= p);
    assert(after(p + q, p) =~= q);
}

proof fn lemma_one_line_concat(a: Seq<char>, b: Seq<char>)
    requires
        one_line(a),
        one_line(b),
    ensures
        one_line(a + b),
{
    assert forall|i: int| 0 <= i < (a + b).len() implies (a + b)[i] != '\n' by {
        if i < a.len() {
            assert((a + b)[i] == a[i]);
        } else {
            assert((a + b)[i] == b[i - a.len()]);
        }
    }
}

/// The last character of `p + q` where `q` is trimmed: `q`'s last, which is
/// no whitespace, or `p`'s last when `q` is empty.
proof fn lemma_no_trailing_cr(p: Seq<char>, q: Seq<char>)
    requires
        p.len() > 0,
        p.last() != '\r',
        trim(q) == q,
    ensures
        strip_cr(p + q) == p + q,
{
    if q.len() > 0 {
        lemma_trimmed_ends(q);
        assert((p + q).last() == q.last());
        assert(('\r' as u32) < 128);
    } else {
        assert(p + q =~= p);
    }
}

proof fn lemma_read_name(acc: ParsedView, name: Seq<char>)
    ensures
        read_line(acc, "Proizvod: "@ + name) == (ParsedView { product_name: Some(trim(name)), ..acc }),
{
    lemma_after_prefix("Proizvod: "@, name);
}

proof fn lemma_read_brand(acc: ParsedView, brand: Seq<char>)
    ensures
        read_line(acc, "Brand: "@ + brand) == (if trim(brand) != "-"@ {
            (ParsedView { brand: Some(trim(brand)), ..acc })
        } else {
            acc
        }),
{
    reveal_strlit("Brand: ");
    reveal_strlit("Proizvod: ");
    let line = "Brand: "@ + brand;
    lemma_differs_at(line, "Proizvod: "@, 0);
    lemma_after_prefix("Brand: "@, brand);
}

proof fn lemma_read_price(acc: ParsedView, price: Seq<char>)
    ensures
        read_line(acc, "Cijena: "@ + price + " EUR"@) == (ParsedView {
            price: strip_eur(trim(price + " EUR"@)),
            ..acc
        }),
{
    reveal_strlit("Cijena: ");
    reveal_strlit("Proizvod: ");
    reveal_strlit("Brand: ");
    let line = "Cijena: "@ + price + " EUR"@;
    assert(line =~= "Cijena: "@ + (price + " EUR"@));
    lemma_differs_at(line, "Proizvod: "@, 0);
    lemma_differs_at(line, "Brand: "@, 0);
    lemma_after_prefix("Cijena: "@, price + " EUR"@);
}

proof fn lemma_read_chain(acc: ParsedView, chain: Seq<char>)
    ensures
        read_line(acc, "Lanac: "@ + chain) == (ParsedView { chain: Some(trim(chain)), ..acc }),
{
    reveal_strlit("Lanac: ");
    reveal_strlit("Proizvod: ");
    reveal_strlit("Brand: ");
    reveal_strlit("Cijena: ");
    let line = "Lanac: "@ + chain;
    lemma_differs_at(line, "Proizvod: "@, 0);
    lemma_differs_at(line, "Brand: "@, 0);
    lemma_differs_at(line, "Cijena: "@, 0);
    lemma_after_prefix("Lanac: "@, chain);
}

proof fn lemma_read_unit_price(acc: ParsedView, unit: Seq<char>, up: Seq<char>)
    requires
        unit == "l"@ || unit == "kg"@,
    ensures
        read_line(acc, "\nCijena/"@.drop_first() + unit + ": "@ + up + " EUR"@) == (ParsedView {
            unit_price: Some(trim(before_eur(up + " EUR"@))),
            ..acc
        }),
{
    reveal_strlit("\nCijena/");
    reveal_strlit(": ");
    reveal_strlit("l");
    reveal_strlit("kg");
    reveal_strlit("Proizvod: ");
    reveal_strlit("Brand: ");
    reveal_strlit("Cijena: ");
    reveal_strlit("Lanac: ");
    reveal_strlit("Cijena/l: ");
    reveal_strlit("Cijena/kg: ");
    let head = "\nCijena/"@.drop_first();
    let line = head + unit + ": "@ + up + " EUR"@;
    lemma_differs_at(line, "Proizvod: "@, 0);
    lemma_differs_at(line, "Brand: "@, 0);
    lemma_differs_at(line, "Cijena: "@, 6);
    lemma_differs_at(line, "Lanac: "@, 0);
    if unit == "l"@ {
        assert(line =~= "Cijena/l: "@ + (up + " EUR"@));
        lemma_after_prefix("Cijena/l: "@, up + " EUR"@);
    } else {
        lemma_differs_at(line, "Cijena/l: "@, 7);
        assert(line =~= "Cijena/kg: "@ + (up + " EUR"@));
        lemma_after_prefix("Cijena/kg: "@, up + " EUR"@);
    }
}

/// The brand text a description shows: the brand, or "-" when there is none.
pub open spec fn brand_shown(p: ProductView) -> Seq<char> {
    match p.brand {
        Some(b) => b,
        None => "-"@,
    }
}

/// What reading a product's description gives back: its name, brand (none
/// for "-"), price, chain, and the unit price where the unit is a litre or a
/// kilogram.
pub open spec fn read_back(p: ProductView, price: Seq<char>, unit_price: Option<Seq<char>>) -> ParsedView {
    ParsedView {
        chain: Some(display_name(p.store)),
        product_name: Some(p.name),
        brand: if brand_shown(p) == "-"@ {
            None
        } else {
            Some(brand_shown(p))
        },
        price: Some(price),
        unit_price: match unit_price {
            Some(u) => if shows_unit_price(p.unit) {
                Some(u)
            } else {
                None
            },
            None => None,
        },
    }
}

spec fn written_lines(p: ProductView, price: Seq<char>) -> Seq<Seq<char>> {
    seq![
        "Proizvod: "@ + p.name,
        "Brand: "@ + brand_shown(p),
        "Cijena: "@ + price + " EUR"@,
        "Lanac: "@ + display_name(p.store),
    ]
}

spec fn unit_line(unit: Seq<char>, up: Seq<char>) -> Seq<char> {
    "\nCijena/"@.drop_first() + unit + ": "@ + up + " EUR"@
}

spec fn texts_are_plain(p: ProductView, price: Seq<char>) -> bool {
    &&& one_line(p.name)
    &&& trim(p.name) == p.name
    &&& one_line(brand_shown(p))
    &&& trim(brand_shown(p)) == brand_shown(p)
    &&& one_line(price)
    &&& trim(price) == price
    &&& price.len() > 0
    &&& one_line(display_name(p.store))
    &&& trim(display_name(p.store)) == display_name(p.store)
}

proof fn lemma_written_lines_plain(p: ProductView, price: Seq<char>)
    requires
        texts_are_plain(p, price),
    ensures
        forall|k: int| 0 <= k < 4 ==> one_line(#[trigger] written_lines(p, price)[k]),
        forall|k: int| 0 <= k < 4 ==> strip_cr(#[trigger] written_lines(p, price)[k]) == written_lines(p, price)[k],
{
    reveal_strlit("Proizvod: ");
    reveal_strlit("Brand: ");
    reveal_strlit("Cijena: ");
    reveal_strlit("Lanac: ");
    reveal_strlit(" EUR");
    let w = written_lines(p, price);
    assert(one_line("Proizvod: "@));
    assert(one_line("Brand: "@));
    assert(one_line("Cijena: "@));
    assert(one_line(" EUR"@));
    assert(one_line("Lanac: "@));
    lemma_one_line_concat("Proizvod: "@, p.name);
    lemma_one_line_concat("Brand: "@, brand_shown(p));
    lemma_one_line_concat("Cijena: "@, price);
    lemma_one_line_concat("Cijena: "@ + price, " EUR"@);
    lemma_one_line_concat("Lanac: "@, display_name(p.store));
    lemma_no_trailing_cr("Proizvod: "@, p.name);
    lemma_no_trailing_cr("Brand: "@, brand_shown(p));
    lemma_no_trailing_cr("Lanac: "@, display_name(p.store));
    assert(w[2].last() == 'R');
}

/// The lines of the description without a unit price.
proof fn lemma_four_lines(p: ProductView, price: Seq<char>)
    requires
        texts_are_plain(p, price),
    ensures
        lines_of(human_description(p, price, None)) == written_lines(p, price),
{
    reveal_strlit("Proizvod: ");
    reveal_strlit("\nBrand: ");
    reveal_strlit("Brand: ");
    reveal_strlit("\nCijena: ");
    reveal_strlit("Cijena: ");
    reveal_strlit(" EUR\nLanac: ");
    reveal_strlit("Lanac: ");
    reveal_strlit(" EUR");
    let w = written_lines(p, price);
    lemma_written_lines_plain(p, price);
    let nl = seq!['\n'];
    let base = w[0] + nl + (w[1] + nl + (w[2] + nl + w[3]));
    assert(human_description(p, price, None) =~= base);
    assert(one_line(w[0]) && one_line(w[1]) && one_line(w[2]) && one_line(w[3]));
    lemma_lines_cons(w[0], w[1] + nl + (w[2] + nl + w[3]));
    lemma_lines_cons(w[1], w[2] + nl + w[3]);
    lemma_lines_cons(w[2], w[3]);
    lemma_lines_last(w[3]);
    assert(strip_cr(w[0]) == w[0] && strip_cr(w[1]) == w[1] && strip_cr(w[2]) == w[2]);
    assert(lines_of(base) =~= w);
}

/// The lines of the description with a unit price.
proof fn lemma_five_lines(p: ProductView, price: Seq<char>, up: Seq<char>)
    requires
        texts_are_plain(p, price),
        shows_unit_price(p.unit),
        one_line(up),
    ensures
        lines_of(human_description(p, price, Some(up))) == written_lines(p, price).push(
            unit_line(p.unit->0, up),
        ),
{
    reveal_strlit("Proizvod: ");
    reveal_strlit("\nBrand: ");
    reveal_strlit("Brand: ");
    reveal_strlit("\nCijena: ");
    reveal_strlit("Cijena: ");
    reveal_strlit(" EUR\nLanac: ");
    reveal_strlit("Lanac: ");
    reveal_strlit(" EUR");
    reveal_strlit("\nCijena/");
    reveal_strlit(": ");
    reveal_strlit("l");
    reveal_strlit("kg");
    let w = written_lines(p, price);
    let unit = p.unit->0;
    let l5 = unit_line(unit, up);
    lemma_written_lines_plain(p, price);
    assert(one_line("\nCijena/"@.drop_first()));
    assert(one_line(unit));
    assert(one_line(": "@));
    assert(one_line(" EUR"@));
    lemma_one_line_concat("\nCijena/"@.drop_first(), unit);
    lemma_one_line_concat("\nCijena/"@.drop_first() + unit, ": "@);
    lemma_one_line_concat("\nCijena/"@.drop_first() + unit + ": "@, up);
    lemma_one_line_concat("\nCijena/"@.drop_first() + unit + ": "@ + up, " EUR"@);
    let nl = seq!['\n'];
    let full = w[0] + nl + (w[1] + nl + (w[2] + nl + (w[3] + nl + l5)));
    assert(human_description(p, price, Some(up)) =~= full);
    assert(one_line(w[0]) && one_line(w[1]) && one_line(w[2]) && one_line(w[3]));
    lemma_lines_cons(w[0], w[1] + nl + (w[2] + nl + (w[3] + nl + l5)));
    lemma_lines_cons(w[1], w[2] + nl + (w[3] + nl + l5));
    lemma_lines_cons(w[2], w[3] + nl + l5);
    lemma_lines_cons(w[3], l5);
    lemma_lines_last(l5);
    assert(strip_cr(w[0]) == w[0] && strip_cr(w[1]) == w[1] && strip_cr(w[2]) == w[2]
        && strip_cr(w[3]) == w[3]);
    assert(lines_of(full) =~= w.push(l5));
}

/// Reading the four lines.
proof fn lemma_read_four(p: ProductView, price: Seq<char>)
    requires
        texts_are_plain(p, price),
    ensures
        read_lines(written_lines(p, price)) == read_back(p, price, None),
{
    reveal_strlit("-");
    let w = written_lines(p, price);
    let name = p.name;
    let brand = brand_shown(p);
    let disp = display_name(p.store);
    let acc0 = nothing_parsed();
    lemma_read_name(acc0, name);
    let acc1 = ParsedView { product_name: Some(name), ..acc0 };
    lemma_read_brand(acc1, brand);
    let acc2 = if brand != "-"@ {
        ParsedView { brand: Some(brand), ..acc1 }
    } else {
        acc1
    };
    lemma_read_price(acc2, price);
    lemma_trim_with_eur(price);
    assert(strip_eur(price + " EUR"@) == Some(price)) by {
        reveal_strlit(" EUR");
        let y = price + " EUR"@;
        assert(y.subrange(y.len() - 4, y.len() as int) =~= " EUR"@);
        assert(y.subrange(0, y.len() - 4) =~= price);
    }
    let acc3 = ParsedView { price: Some(price), ..acc2 };
    lemma_read_chain(acc3, disp);
    let acc4 = ParsedView { chain: Some(disp), ..acc3 };
    assert(w.drop_last() =~= seq![w[0], w[1], w[2]]);
    assert(seq![w[0], w[1], w[2]].drop_last() =~= seq![w[0], w[1]]);
    assert(seq![w[0], w[1]].drop_last() =~= seq![w[0]]);
    assert(seq![w[0]].drop_last() =~= Seq::<Seq<char>>::empty());
    assert(trim(name) == name);
    assert(read_lines(Seq::<Seq<char>>::empty()) == acc0);
    assert(seq![w[0]].last() == w[0]);
    assert(w[0] == "Proizvod: "@ + name);
    assert(read_line(acc0, w[0]) == acc1);
    assert(read_lines(seq![w[0]]) == acc1);
    assert(read_lines(seq![w[0], w[1]]) == acc2);
    assert(read_lines(seq![w[0], w[1], w[2]]) == acc3);
    assert(read_lines(w) == acc4);
}

/// A product's description, as the sync writes it, reads back as what was
/// written: name, brand, price, chain and unit price. This holds for texts
/// of one line without surrounding whitespace, a non-empty price, and a unit
/// price that does not itself contain " EUR".
pub proof fn lemma_description_read_back(p: ProductView, price: Seq<char>, unit_price: Option<Seq<char>>)
    requires
        one_line(p.name),
        trim(p.name) == p.name,
        one_line(brand_shown(p)),
        trim(brand_shown(p)) == brand_shown(p),
        one_line(price),
        trim(price) == price,
        price.len() > 0,
        one_line(display_name(p.store)),
        trim(display_name(p.store)) == display_name(p.store),
        unit_price matches Some(u) ==> one_line(u) && trim(u) == u && first_index(u + " EUR"@, " EUR"@)
            == Some(u.len() as int),
    ensures
        read_lines(lines_of(human_description(p, price, unit_price))) == read_back(p, price, unit_price),
{
    lemma_read_four(p, price);
    match unit_price {
        Some(up) => {
            if shows_unit_price(p.unit) {
                lemma_five_lines(p, price, up);
                let w = written_lines(p, price);
                let l5 = unit_line(p.unit->0, up);
                assert(w.push(l5).drop_last() =~= w);
                lemma_read_unit_price(read_back(p, price, None), p.unit->0, up);
                assert(before_eur(up + " EUR"@) =~= up);
            } else {
                assert(human_description(p, price, unit_price) == human_description(p, price, None));
                lemma_four_lines(p, price);
            }
        },
        None => {
            lemma_four_lines(p, price);
        },
    }
}

} // verus!
