//! The product catalogue's text handling: the diacritic-free lowercase form
//! used for indexing and querying, the full-text query built from a search,
//! and the removal of rows listed twice.
use vstd::prelude::*;
use crate::search::{brand_text, copy_product, views, Product, ProductView};
use crate::text::{
    all_ascii, ascii_lower,
    chars_concat, chars_equal, chars_of, is_alphanumeric, is_whitespace, string_of, to_lowercase,
    trim, trim_chars, unicode_alphanumeric, unicode_lowercase, unicode_whitespace,
};

verus! {

// ── Normalisation ───────────────────────────────────────────────────────────

/// The Croatian letter without its diacritic (š→s, č→c, ć→c, ž→z, đ→d, in
/// both cases); other characters as they are.
pub open spec fn plain_letter(c: char) -> char {
    if c == 'š' || c == 'Š' {
        's'
    } else if c == 'č' || c == 'Č' || c == 'ć' || c == 'Ć' {
        'c'
    } else if c == 'ž' || c == 'Ž' {
        'z'
    } else if c == 'đ' || c == 'Đ' {
        'd'
    } else {
        c
    }
}

/// The indexing form of a text: Croatian diacritics removed, then lowercased.
pub open spec fn normalized(s: Seq<char>) -> Seq<char> {
    unicode_lowercase(s.map_values(|c: char| plain_letter(c)))
}

fn plain_letter_exec(c: char) -> (r: char)
    ensures
        r == plain_letter(c),
{
    if c == 'š' || c == 'Š' {
        's'
    } else if c == 'č' || c == 'Č' || c == 'ć' || c == 'Ć' {
        'c'
    } else if c == 'ž' || c == 'Ž' {
        'z'
    } else if c == 'đ' || c == 'Đ' {
        'd'
    } else {
        c
    }
}

/// Strips Croatian diacritics and lowercases; used for both indexing and querying.
pub fn normalize(s: &str) -> (r: String)
    ensures
        r@ == normalized(s@),
{
    let cs = chars_of(s);
    let mut out: Vec<char> = Vec::new();
    let mut i: usize = 0;
    while i < cs.len()
        invariant
            i <= cs@.len(),
            cs@ == s@,
            out@ == cs@.take(i as int).map_values(|c: char| plain_letter(c)),
        decreases cs@.len() - i,
    {
        out.push(plain_letter_exec(cs[i]));
        i = i + 1;
        assert(out@ =~= cs@.take(i as int).map_values(|c: char| plain_letter(c)));
    }
    assert(cs@.take(cs@.len() as int) =~= cs@);
    to_lowercase(string_of(&out).as_str())
}

// ── The full-text query ─────────────────────────────────────────────────────

/// The words of `s` (maximal runs of non-whitespace), given the word `cur`
/// already begun, as `str::split_whitespace` yields them.
pub open spec fn words_from(s: Seq<char>, cur: Seq<char>) -> Seq<Seq<char>>
    decreases s.len(),
{
    if s.len() == 0 {
        if cur.len() > 0 {
            seq![cur]
        } else {
            Seq::empty()
        }
    } else if unicode_whitespace(s[0]) {
        (if cur.len() > 0 {
            seq![cur]
        } else {
            Seq::empty()
        }) + words_from(s.drop_first(), Seq::empty())
    } else {
        words_from(s.drop_first(), cur.push(s[0]))
    }
}

pub open spec fn words(s: Seq<char>) -> Seq<Seq<char>> {
    words_from(s, Seq::empty())
}

/// The alphanumeric characters of a word.
pub open spec fn alnum_only(w: Seq<char>) -> Seq<char> {
    w.filter(|c: char| unicode_alphanumeric(c))
}

/// The search terms of a query: its normalised words, each reduced to its
/// alphanumeric characters, empty ones dropped.
pub open spec fn terms(query: Seq<char>) -> Seq<Seq<char>> {
    words(normalized(query)).map_values(|w: Seq<char>| alnum_only(w)).filter(|w: Seq<char>| w.len() > 0)
}

/// The terms as a full-text expression: each as `name_search:term`, joined
/// by ` OR `.
pub open spec fn or_of_terms(ts: Seq<Seq<char>>) -> Seq<char>
    decreases ts.len(),
{
    if ts.len() == 0 {
        Seq::empty()
    } else if ts.len() == 1 {
        "name_search:"@ + ts[0]
    } else {
        or_of_terms(ts.drop_last()) + " OR "@ + "name_search:"@ + ts.last()
    }
}

/// The alphanumeric characters of `w`.
fn alnum_chars(w: &Vec<char>) -> (r: Vec<char>)
    ensures
        r@ == alnum_only(w@),
{
    let ghost pred = |c: char| unicode_alphanumeric(c);
    let mut out: Vec<char> = Vec::new();
    let mut i: usize = 0;
    assert(w@.take(0).filter(pred) =~= Seq::<char>::empty()) by {
        reveal(Seq::filter);
    }
    while i < w.len()
        invariant
            i <= w@.len(),
            pred == (|c: char| unicode_alphanumeric(c)),
            out@ == w@.take(i as int).filter(pred),
        decreases w@.len() - i,
    {
        assert(w@.take(i + 1).drop_last() =~= w@.take(i as int));
        reveal(Seq::filter);
        if is_alphanumeric(w[i]) {
            out.push(w[i]);
        }
        i = i + 1;
    }
    assert(w@.take(w@.len() as int) =~= w@);
    out
}

/// `or_of_terms` after one more word: its term added when it is not empty.
proof fn lemma_or_of_terms_step(done: Seq<Seq<char>>, w: Seq<char>)
    ensures
        ({
            let f = |x: Seq<char>| alnum_only(x);
            let keep = |x: Seq<char>| x.len() > 0;
            let before = done.map_values(f).filter(keep);
            let after = done.push(w).map_values(f).filter(keep);
            &&& alnum_only(w).len() > 0 ==> after == before.push(alnum_only(w))
            &&& alnum_only(w).len() == 0 ==> after == before
            &&& alnum_only(w).len() > 0 ==> or_of_terms(after) == if before.len() == 0 {
                "name_search:"@ + alnum_only(w)
            } else {
                or_of_terms(before) + " OR "@ + "name_search:"@ + alnum_only(w)
            }
        }),
{
    let f = |x: Seq<char>| alnum_only(x);
    let keep = |x: Seq<char>| x.len() > 0;
    assert(done.push(w).map_values(f) =~= done.map_values(f).push(alnum_only(w)));
    assert(done.push(w).map_values(f).drop_last() =~= done.map_values(f));
    reveal(Seq::filter);
    let before = done.map_values(f).filter(keep);
    if alnum_only(w).len() > 0 {
        assert(before.push(alnum_only(w)).drop_last() =~= before);
    }
}

/// Appends the term of a finished word to the expression.
fn add_term(out: Vec<char>, count: usize, word: &Vec<char>, ghost_done: Ghost<Seq<Seq<char>>>) -> (r: (Vec<char>, usize))
    requires
        out@ == or_of_terms(ghost_done@.map_values(|x: Seq<char>| alnum_only(x)).filter(|x: Seq<char>| x.len() > 0)),
        count == ghost_done@.map_values(|x: Seq<char>| alnum_only(x)).filter(|x: Seq<char>| x.len() > 0).len(),
        count < usize::MAX,
    ensures
        r.0@ == or_of_terms(ghost_done@.push(word@).map_values(|x: Seq<char>| alnum_only(x)).filter(|x: Seq<char>| x.len() > 0)),
        r.1 == ghost_done@.push(word@).map_values(|x: Seq<char>| alnum_only(x)).filter(|x: Seq<char>| x.len() > 0).len(),
        r.1 <= count + 1,
{
    proof {
        lemma_or_of_terms_step(ghost_done@, word@);
    }
    let term = alnum_chars(word);
    if term.len() == 0 {
        (out, count)
    } else {
        let piece = chars_concat(&chars_of("name_search:"), &term);
        if count == 0 {
            (piece, 1)
        } else {
            (chars_concat(&chars_concat(&out, &chars_of(" OR ")), &piece), count + 1)
        }
    }
}

/// Builds the full-text match expression for a search: its normalised words,
/// reduced to letters and digits, each matched against the name column and
/// joined by ` OR ` (partial matches are wanted; the semantic filter narrows
/// them later). Empty when the query has no letters or digits.
pub fn build_fts_query(query: &str) -> (r: String)
    ensures
        r@ == or_of_terms(terms(query@)),
{
    let n = normalize(query);
    let cs = chars_of(n.as_str());
    let ghost f = |w: Seq<char>| alnum_only(w);
    let ghost keep = |w: Seq<char>| w.len() > 0;
    let ghost mut done: Seq<Seq<char>> = Seq::empty();
    let mut cur: Vec<char> = Vec::new();
    let mut out: Vec<char> = Vec::new();
    let mut count: usize = 0;
    let mut i: usize = 0;
    assert(cs@.subrange(0, cs@.len() as int) =~= cs@);
    assert(done.map_values(f).filter(keep) =~= Seq::<Seq<char>>::empty()) by {
        reveal(Seq::filter);
    }
    while i < cs.len()
        invariant
            i <= cs@.len(),
            cs@ == n@,
            f == (|w: Seq<char>| alnum_only(w)),
            keep == (|w: Seq<char>| w.len() > 0),
            words(n@) == done + words_from(cs@.subrange(i as int, cs@.len() as int), cur@),
            out@ == or_of_terms(done.map_values(f).filter(keep)),
            count == done.map_values(f).filter(keep).len(),
            count + cur@.len() <= i,
        decreases cs@.len() - i,
    {
        let ghost rest = cs@.subrange(i as int, cs@.len() as int);
        assert(rest.drop_first() =~= cs@.subrange(i + 1, cs@.len() as int));
        if is_whitespace(cs[i]) {
            if cur.len() > 0 {
                let (o, c) = add_term(out, count, &cur, Ghost(done));
                out = o;
                count = c;
                proof {
                    assert(done + (seq![cur@] + words_from(rest.drop_first(), Seq::empty())) =~= done.push(cur@) + words_from(rest.drop_first(), Seq::empty()));
                    done = done.push(cur@);
                }
            } else {
                assert(done + (Seq::<Seq<char>>::empty() + words_from(rest.drop_first(), Seq::empty())) =~= done + words_from(rest.drop_first(), Seq::empty()));
            }
            cur = Vec::new();
        } else {
            cur.push(cs[i]);
        }
        i = i + 1;
    }
    assert(cs@.subrange(i as int, cs@.len() as int) =~= Seq::<char>::empty());
    if cur.len() > 0 {
        let (o, c) = add_term(out, count, &cur, Ghost(done));
        out = o;
        proof {
            assert(done + seq![cur@] =~= done.push(cur@));
            done = done.push(cur@);
        }
    } else {
        assert(done + Seq::<Seq<char>>::empty() =~= done);
    }
    string_of(&out)
}

// ── Rows listed twice ───────────────────────────────────────────────────────

/// The key under which two rows count as one product: the trimmed, lowercased
/// name, the lowercased brand (empty when there is none) and the shelf price in
/// whole cents.
pub open spec fn product_key(p: ProductView, cents: u64) -> (Seq<char>, Seq<char>, u64) {
    (unicode_lowercase(trim(p.name)), unicode_lowercase(brand_text(p)), cents)
}

/// The key of every row, given each row's price in cents.
pub open spec fn keys_of(s: Seq<ProductView>, cents: Seq<u64>) -> Seq<(Seq<char>, Seq<char>, u64)> {
    Seq::new(s.len(), |i: int| product_key(s[i], cents[i]))
}

/// No earlier element of `keys` equals the one at `i`.
pub open spec fn first_of_key<K>(keys: Seq<K>, i: int) -> bool {
    forall|j: int| 0 <= j < i ==> keys[j] != keys[i]
}

/// The elements among the first `n` of `s` whose key occurs there for the
/// first time, in order.
pub open spec fn deduped<T, K>(s: Seq<T>, keys: Seq<K>, n: int) -> Seq<T>
    decreases n,
{
    if n <= 0 {
        Seq::empty()
    } else if first_of_key(keys, n - 1) {
        deduped(s, keys, n - 1).push(s[n - 1])
    } else {
        deduped(s, keys, n - 1)
    }
}

/// The rows of `s` with the first row of each key kept, in order.
pub open spec fn deduplicated(s: Seq<ProductView>, cents: Seq<u64>) -> Seq<ProductView> {
    deduped(s, keys_of(s, cents), s.len() as int)
}

pub open spec fn key_view(k: (Vec<char>, Vec<char>, u64)) -> (Seq<char>, Seq<char>, u64) {
    (k.0@, k.1@, k.2)
}

/// The key of one row.
fn key_of(p: &Product, cents: u64) -> (r: (Vec<char>, Vec<char>, u64))
    ensures
        key_view(r) == product_key(p@, cents),
{
    let name = trim_chars(&chars_of(p.name.as_str()));
    let name = chars_of(to_lowercase(string_of(&name).as_str()).as_str());
    let brand = match &p.brand {
        Some(b) => to_lowercase(b.as_str()),
        None => {
            proof {
                reveal_strlit("");
            }
            assert(""@ =~= Seq::<char>::empty());
            to_lowercase("")
        },
    };
    (name, chars_of(brand.as_str()), cents)
}

fn same_key(a: &(Vec<char>, Vec<char>, u64), b: &(Vec<char>, Vec<char>, u64)) -> (r: bool)
    ensures
        r == (key_view(*a) == key_view(*b)),
{
    a.2 == b.2 && chars_equal(&a.0, &b.0) && chars_equal(&a.1, &b.1)
}

/// Keeps the first row of each product key and drops the later ones (a store
/// may list one product under several barcodes). `cents[i]` is the shelf
/// price of row `i` in whole cents.
pub fn dedupe_products(products: Vec<Product>, cents: &Vec<u64>) -> (r: Vec<Product>)
    requires
        cents.len() == products.len(),
    ensures
        views(r@) == deduplicated(views(products@), cents@),
{
    let ghost s = views(products@);
    let ghost ks = keys_of(s, cents@);
    let mut keys: Vec<(Vec<char>, Vec<char>, u64)> = Vec::new();
    let mut i: usize = 0;
    while i < products.len()
        invariant
            i <= products.len() == cents.len(),
            s == views(products@),
            ks == keys_of(s, cents@),
            keys.len() == i,
            forall|j: int| 0 <= j < i ==> key_view(#[trigger] keys@[j]) == ks[j],
        decreases products.len() - i,
    {
        let k = key_of(&products[i], cents[i]);
        assert(s[i as int] == products@[i as int]@);
        keys.push(k);
        i = i + 1;
    }
    let mut r: Vec<Product> = Vec::new();
    let mut i: usize = 0;
    while i < products.len()
        invariant
            i <= products.len() == keys.len(),
            s == views(products@),
            ks.len() == s.len(),
            forall|j: int| 0 <= j < keys.len() ==> key_view(#[trigger] keys@[j]) == ks[j],
            views(r@) == deduped(s, ks, i as int),
        decreases products.len() - i,
    {
        let mut seen = false;
        let mut j: usize = 0;
        while j < i
            invariant
                j <= i < keys.len(),
                forall|k: int| 0 <= k < keys.len() ==> key_view(#[trigger] keys@[k]) == ks[k],
                seen ==> !first_of_key(ks, i as int),
                !seen ==> forall|k: int| 0 <= k < j ==> ks[k] != ks[i as int],
            decreases i - j,
        {
            if same_key(&keys[j], &keys[i]) {
                assert(ks[j as int] == ks[i as int]);
                seen = true;
            }
            j = j + 1;
        }
        let ghost before = views(r@);
        if !seen {
            let p = copy_product(&products[i]);
            r.push(p);
            assert(views(r@) =~= before.push(s[i as int]));
        }
        i = i + 1;
    }
    r
}

// ── Laws ────────────────────────────────────────────────────────────────────

/// A Croatian letter with a diacritic.
pub open spec fn croatian_letter(c: char) -> bool {
    c == 'š' || c == 'Š' || c == 'č' || c == 'Č' || c == 'ć' || c == 'Ć' || c == 'ž' || c == 'Ž'
        || c == 'đ' || c == 'Đ'
}

/// Text written in ASCII and the Croatian letters with diacritics.
pub open spec fn croatian_ascii_text(s: Seq<char>) -> bool {
    forall|i: int| 0 <= i < s.len() ==> (#[trigger] s[i] as u32) < 128 || croatian_letter(s[i])
}

/// For text in ASCII and the Croatian letters, the normalised form holds no
/// diacritic, and normalising it again changes nothing.
pub proof fn lemma_normalize_twice(s: Seq<char>)
    requires
        croatian_ascii_text(s),
    ensures
        normalized(normalized(s)) == normalized(s),
        forall|i: int| 0 <= i < normalized(s).len() ==> !croatian_letter(#[trigger] normalized(s)[i]),
{
    let m = s.map_values(|c: char| plain_letter(c));
    assert(all_ascii(m)) by {
        assert forall|i: int| 0 <= i < m.len() implies (#[trigger] m[i] as u32) < 128 by {
            assert(m[i] == plain_letter(s[i]));
        }
    }
    let n = m.map_values(|c: char| ascii_lower(c));
    assert(normalized(s) == n);
    assert forall|i: int| 0 <= i < n.len() implies (#[trigger] n[i] as u32) < 128 && !('A' <= n[i]
        <= 'Z') by {
        assert(n[i] == ascii_lower(m[i]));
        assert((m[i] as u32) < 128);
    }
    let m2 = n.map_values(|c: char| plain_letter(c));
    assert(m2 =~= n) by {
        assert forall|i: int| 0 <= i < n.len() implies m2[i] == n[i] by {
            assert((n[i] as u32) < 128);
        }
    }
    assert(all_ascii(n));
    let n2 = n.map_values(|c: char| ascii_lower(c));
    assert(n2 =~= n);
    assert forall|i: int| 0 <= i < n.len() implies !croatian_letter(#[trigger] n[i]) by {
        assert((n[i] as u32) < 128);
    }
}

/// How many of the first `n` positions hold the first row of their key.
proof fn lemma_deduped_len<T, K>(s: Seq<T>, keys: Seq<K>, n: int)
    requires
        0 <= n <= s.len(),
        n <= keys.len(),
    ensures
        deduped(s, keys, n).len() <= n,
        (exists|j: int| 0 <= j < n && !first_of_key(keys, j)) ==> deduped(s, keys, n).len() < n,
        (forall|j: int| 0 <= j < n ==> first_of_key(keys, j)) ==> deduped(s, keys, n) == s.take(n),
    decreases n,
{
    if n > 0 {
        lemma_deduped_len(s, keys, n - 1);
        if forall|j: int| 0 <= j < n ==> first_of_key(keys, j) {
            assert(s.take(n) =~= s.take(n - 1).push(s[n - 1]));
        }
        if exists|j: int| 0 <= j < n && !first_of_key(keys, j) {
            let j = choose|j: int| 0 <= j < n && !first_of_key(keys, j);
            if j < n - 1 {
            }
        }
    } else {
        assert(s.take(0) =~= Seq::<T>::empty());
    }
}

/// Rows that differ in their lowercased, trimmed name, in their lowercased
/// brand (an absent brand reading as empty) or in their price in cents are
/// different products: when every two rows differ so, all of them are kept,
/// in order.
pub proof fn lemma_distinct_rows_all_kept(s: Seq<ProductView>, cents: Seq<u64>)
    requires
        cents.len() == s.len(),
        forall|i: int, j: int|
            0 <= i < j < s.len() ==> unicode_lowercase(trim(#[trigger] s[i].name)) != unicode_lowercase(
                trim(#[trigger] s[j].name),
            ) || unicode_lowercase(brand_text(s[i])) != unicode_lowercase(brand_text(s[j]))
                || cents[i] != cents[j],
    ensures
        deduplicated(s, cents) == s,
{
    let keys = keys_of(s, cents);
    assert forall|j: int| 0 <= j < s.len() implies first_of_key(keys, j) by {
        assert forall|i: int| 0 <= i < j implies keys[i] != keys[j] by {
            assert(keys[i] == product_key(s[i], cents[i]));
            assert(keys[j] == product_key(s[j], cents[j]));
        }
    }
    lemma_deduped_len(s, keys, s.len() as int);
    assert(s.take(s.len() as int) =~= s);
}

/// A row with the same lowercased, trimmed name, lowercased brand and price
/// in cents as an earlier row is dropped: fewer rows come out.
pub proof fn lemma_repeated_row_dropped(s: Seq<ProductView>, cents: Seq<u64>, i: int, j: int)
    requires
        cents.len() == s.len(),
        0 <= i < j < s.len(),
        unicode_lowercase(trim(s[i].name)) == unicode_lowercase(trim(s[j].name)),
        unicode_lowercase(brand_text(s[i])) == unicode_lowercase(brand_text(s[j])),
        cents[i] == cents[j],
    ensures
        deduplicated(s, cents).len() < s.len(),
{
    let keys = keys_of(s, cents);
    assert(keys[i] == keys[j]);
    assert(!first_of_key(keys, j));
    lemma_deduped_len(s, keys, s.len() as int);
}

/// After removing the repeats, every key is listed once, and the keys listed
/// are exactly the keys of the input.
pub proof fn lemma_deduped_keys<K>(keys: Seq<K>, n: int)
    requires
        0 <= n <= keys.len(),
    ensures
        deduped(keys, keys, n).no_duplicates(),
        forall|k: K|
            deduped(keys, keys, n).contains(k) <==> exists|j: int| 0 <= j < n && keys[j] == k,
    decreases n,
{
    if n > 0 {
        lemma_deduped_keys(keys, n - 1);
        let prev = deduped(keys, keys, n - 1);
        let x = keys[n - 1];
        if first_of_key(keys, n - 1) {
            let cur = prev.push(x);
            assert(!prev.contains(x));
            assert forall|a: int, b: int| 0 <= a < cur.len() && 0 <= b < cur.len() && a != b implies cur[a] != cur[b] by {
                if a < prev.len() && b < prev.len() {
                    assert(cur[a] == prev[a] && cur[b] == prev[b]);
                } else if a < prev.len() {
                    assert(cur[a] == prev[a]);
                } else if b < prev.len() {
                    assert(cur[b] == prev[b]);
                }
            }
            assert forall|k: K| cur.contains(k) <==> exists|j: int| 0 <= j < n && keys[j] == k by {
                if cur.contains(k) {
                    let i = choose|i: int| 0 <= i < cur.len() && cur[i] == k;
                    if i < prev.len() {
                        assert(prev[i] == k);
                        assert(prev.contains(k));
                    } else {
                        assert(keys[n - 1] == k);
                    }
                }
                if exists|j: int| 0 <= j < n && keys[j] == k {
                    let j = choose|j: int| 0 <= j < n && keys[j] == k;
                    if j < n - 1 {
                        assert(prev.contains(k));
                        let i = choose|i: int| 0 <= i < prev.len() && prev[i] == k;
                        assert(cur[i] == k);
                    } else {
                        assert(cur[prev.len() as int] == k);
                    }
                }
            }
        } else {
            assert forall|k: K| prev.contains(k) <==> exists|j: int| 0 <= j < n && keys[j] == k by {
                if exists|j: int| 0 <= j < n && keys[j] == k {
                    let j = choose|j: int| 0 <= j < n && keys[j] == k;
                    if j == n - 1 {
                        let w = choose|w: int| 0 <= w < n - 1 && #[trigger] keys[w] == keys[n - 1];
                        assert(keys[w] == k);
                    }
                }
            }
        }
    }
}

} // verus!
