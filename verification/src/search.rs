//! Ranking of candidate products: semantic selection, brand blacklist, and
//! the cheapest-first ordering.
//!
//! Prices are carried as the bit pattern of an IEEE-754 binary64 value (what
//! `f64::to_bits` gives). Two non-NaN prices compare as `f64::partial_cmp`
//! compares them exactly when their `price_rank`s compare as integers: the
//! rank is the magnitude bits, negated for a set sign bit, so that `-0.0` and
//! `0.0` share rank 0.
use vstd::prelude::*;
use vstd::arithmetic::power2::{lemma_pow2_pos, lemma_pow2_strictly_increases, lemma_pow2_unfold, pow2};
use crate::gemini::{all_indices, answer_indices, filter_answer, json_index_list};
use crate::text::{chars_contains, chars_of, contains, to_lowercase, unicode_lowercase};

verus! {

/// The sign bit of a binary64 bit pattern.
pub const SIGN_BIT: u64 = 0x8000_0000_0000_0000;

/// The bit pattern of positive infinity; larger magnitudes are NaNs.
pub const INFINITY_BITS: u64 = 0x7FF0_0000_0000_0000;

/// A product row as stored in the catalogue.
#[derive(Clone, Debug)]
pub struct Product {
    pub name: String,
    pub brand: Option<String>,
    pub store: String,
    pub barcode: Option<String>,
    /// Shelf price in EUR, as binary64 bits.
    pub shelf_price: u64,
    /// Price per reference unit in EUR, as binary64 bits.
    pub unit_price: Option<u64>,
    pub unit: Option<String>,
    pub scraped_date: String,
}

/// The mathematical content of a `Product`.
pub struct ProductView {
    pub name: Seq<char>,
    pub brand: Option<Seq<char>>,
    pub store: Seq<char>,
    pub barcode: Option<Seq<char>>,
    pub shelf_price: u64,
    pub unit_price: Option<u64>,
    pub unit: Option<Seq<char>>,
    pub scraped_date: Seq<char>,
}

pub open spec fn opt_view(o: Option<String>) -> Option<Seq<char>> {
    match o {
        Some(s) => Some(s@),
        None => None,
    }
}

impl View for Product {
    type V = ProductView;

    open spec fn view(&self) -> ProductView {
        ProductView {
            name: self.name@,
            brand: opt_view(self.brand),
            store: self.store@,
            barcode: opt_view(self.barcode),
            shelf_price: self.shelf_price,
            unit_price: self.unit_price,
            unit: opt_view(self.unit),
            scraped_date: self.scraped_date@,
        }
    }
}

/// The views of a sequence of products.
pub open spec fn views(s: Seq<Product>) -> Seq<ProductView> {
    s.map_values(|p: Product| p@)
}

/// The magnitude bits (all but the sign bit).
pub open spec fn magnitude(bits: u64) -> int {
    if bits >= SIGN_BIT {
        bits - SIGN_BIT
    } else {
        bits as int
    }
}

/// The bit pattern encodes a NaN.
pub open spec fn is_nan(bits: u64) -> bool {
    magnitude(bits) > INFINITY_BITS
}

/// An integer that orders non-NaN binary64 values as `partial_cmp` does.
pub open spec fn price_rank(bits: u64) -> int {
    if bits >= SIGN_BIT {
        -magnitude(bits)
    } else {
        magnitude(bits)
    }
}

/// The price a product is compared by: its unit price where it has one,
/// else its shelf price.
pub open spec fn effective_price_of(p: ProductView) -> u64 {
    match p.unit_price {
        Some(u) => u,
        None => p.shelf_price,
    }
}

pub open spec fn product_rank(p: ProductView) -> int {
    price_rank(effective_price_of(p))
}

/// Ranks never decrease along `s`.
pub open spec fn sorted_by_price(s: Seq<ProductView>) -> bool {
    forall|i: int, j: int| 0 <= i < j < s.len() ==> product_rank(s[i]) <= product_rank(s[j])
}

pub open spec fn rank_is(k: int) -> spec_fn(ProductView) -> bool {
    |p: ProductView| product_rank(p) == k
}

/// The products of `s` whose rank is `k`, in their order in `s`.
pub open spec fn with_rank(s: Seq<ProductView>, k: int) -> Seq<ProductView> {
    s.filter(rank_is(k))
}

/// `r` is a stable cheapest-first ordering of `s`: ranks ascend, and the
/// products of each rank appear in `r` exactly as they appear in `s`.
pub open spec fn is_price_ordering(r: Seq<ProductView>, s: Seq<ProductView>) -> bool {
    &&& sorted_by_price(r)
    &&& forall|k: int| #[trigger] with_rank(r, k) == with_rank(s, k)
}

/// The stable cheapest-first ordering of `s` (there is exactly one, see
/// `lemma_price_ordering_unique`).
pub open spec fn price_order(s: Seq<ProductView>) -> Seq<ProductView> {
    choose|r: Seq<ProductView>| is_price_ordering(r, s)
}

/// Some product's effective price is a NaN.
pub open spec fn has_nan_price(s: Seq<ProductView>) -> bool {
    exists|i: int| 0 <= i < s.len() && is_nan(effective_price_of(#[trigger] s[i]))
}

/// A copy of `p` with the same content (a field-by-field clone).
pub fn copy_product(p: &Product) -> (r: Product)
    ensures
        r@ == p@,
{
    Product {
        name: p.name.clone(),
        brand: copy_opt(&p.brand),
        store: p.store.clone(),
        barcode: copy_opt(&p.barcode),
        shelf_price: p.shelf_price,
        unit_price: p.unit_price,
        unit: copy_opt(&p.unit),
        scraped_date: p.scraped_date.clone(),
    }
}

fn copy_opt(o: &Option<String>) -> (r: Option<String>)
    ensures
        opt_view(r) == opt_view(*o),
{
    match o {
        Some(s) => Some(s.clone()),
        None => None,
    }
}

/// The price a product is compared by (unit price when present, else shelf price).
pub fn effective_price(p: &Product) -> (r: u64)
    ensures
        r == effective_price_of(p@),
{
    match p.unit_price {
        Some(u) => u,
        None => p.shelf_price,
    }
}

/// `price_rank` of a bit pattern.
pub fn price_rank_of(bits: u64) -> (r: i64)
    ensures
        r == price_rank(bits),
{
    if bits >= SIGN_BIT {
        let m = bits - SIGN_BIT;
        -(m as i64)
    } else {
        bits as i64
    }
}

/// Does the bit pattern encode a NaN?
pub fn price_is_nan(bits: u64) -> (b: bool)
    ensures
        b == is_nan(bits),
{
    let m = if bits >= SIGN_BIT { bits - SIGN_BIT } else { bits };
    m > INFINITY_BITS
}

proof fn lemma_filter_none<A>(s: Seq<A>, pred: spec_fn(A) -> bool)
    requires
        forall|i: int| 0 <= i < s.len() ==> !pred(s[i]),
    ensures
        s.filter(pred) == Seq::<A>::empty(),
    decreases s.len(),
{
    reveal(Seq::filter);
    if s.len() > 0 {
        lemma_filter_none(s.drop_last(), pred);
    }
}

/// Inserting `x` at the end of the run of smaller ranks adds it to the front of
/// its own rank class and changes no other class.
proof fn lemma_with_rank_insert(r: Seq<ProductView>, pos: int, x: ProductView)
    requires
        0 <= pos <= r.len(),
        forall|j: int| 0 <= j < pos ==> product_rank(r[j]) < product_rank(x),
        forall|j: int| pos <= j < r.len() ==> product_rank(r[j]) >= product_rank(x),
    ensures
        forall|k: int|
            #[trigger] with_rank(r.insert(pos, x), k) == if k == product_rank(x) {
                seq![x] + with_rank(r, k)
            } else {
                with_rank(r, k)
            },
{
    let a = r.subrange(0, pos);
    let b = r.subrange(pos, r.len() as int);
    assert(r.insert(pos, x) =~= a + (seq![x] + b));
    assert(r =~= a + b);
    assert forall|k: int|
        #[trigger] with_rank(r.insert(pos, x), k) == if k == product_rank(x) {
            seq![x] + with_rank(r, k)
        } else {
            with_rank(r, k)
        } by {
        let pr = rank_is(k);
        Seq::filter_distributes_over_add(a, seq![x] + b, pr);
        Seq::filter_distributes_over_add(a, b, pr);
        b.lemma_filter_prepend(x, pr);
        if k == product_rank(x) {
            lemma_filter_none(a, pr);
            assert(a.filter(pr) + (seq![x] + b.filter(pr)) =~= seq![x] + (a.filter(pr) + b.filter(
                pr,
            )));
        } else {
            assert((Seq::<ProductView>::empty() + b.filter(pr)) =~= b.filter(pr));
        }
    }
}

/// A non-empty sequence has a non-empty rank class at the rank of its last element.
proof fn lemma_last_in_class(a: Seq<ProductView>)
    requires
        a.len() > 0,
    ensures
        with_rank(a, product_rank(a.last())) == with_rank(a.drop_last(), product_rank(a.last())).push(
            a.last(),
        ),
        forall|k: int|
            k != product_rank(a.last()) ==> #[trigger] with_rank(a, k) == with_rank(a.drop_last(), k),
{
    reveal(Seq::filter);
}

/// In a sorted sequence, every rank class is empty above the last element's rank.
proof fn lemma_sorted_class_bound(a: Seq<ProductView>, k: int)
    requires
        sorted_by_price(a),
        a.len() > 0,
        k > product_rank(a.last()),
    ensures
        with_rank(a, k) == Seq::<ProductView>::empty(),
{
    assert forall|i: int| 0 <= i < a.len() implies !rank_is(k)(a[i]) by {
        if i < a.len() - 1 {
            assert(product_rank(a[i]) <= product_rank(a[a.len() - 1]));
        }
    }
    lemma_filter_none(a, rank_is(k));
}

/// The empty sequence is the only one whose rank classes are all empty.
proof fn lemma_classes_empty(a: Seq<ProductView>)
    requires
        forall|k: int| #[trigger] with_rank(a, k) == Seq::<ProductView>::empty(),
    ensures
        a.len() == 0,
{
    if a.len() > 0 {
        lemma_last_in_class(a);
        let k = product_rank(a.last());
        assert(with_rank(a, k).len() > 0);
    }
}

/// Two stable price orderings of one sequence coincide.
pub proof fn lemma_price_ordering_unique(a: Seq<ProductView>, b: Seq<ProductView>)
    requires
        sorted_by_price(a),
        sorted_by_price(b),
        forall|k: int| #[trigger] with_rank(a, k) == with_rank(b, k),
    ensures
        a == b,
    decreases a.len() + b.len(),
{
    if a.len() == 0 {
        assert forall|k: int| #[trigger] with_rank(b, k) == Seq::<ProductView>::empty() by {
            lemma_filter_none(a, rank_is(k));
            assert(with_rank(a, k) == Seq::<ProductView>::empty());
        }
        lemma_classes_empty(b);
        assert(a =~= b);
    } else if b.len() == 0 {
        assert forall|k: int| #[trigger] with_rank(a, k) == Seq::<ProductView>::empty() by {
            lemma_filter_none(b, rank_is(k));
            assert(with_rank(b, k) == Seq::<ProductView>::empty());
        }
        lemma_classes_empty(a);
    } else {
        let ka = product_rank(a.last());
        let kb = product_rank(b.last());
        lemma_last_in_class(a);
        lemma_last_in_class(b);
        if ka < kb {
            lemma_sorted_class_bound(a, kb);
            assert(with_rank(b, kb).len() > 0);
        } else if kb < ka {
            lemma_sorted_class_bound(b, ka);
            assert(with_rank(a, ka).len() > 0);
        }
        assert(ka == kb);
        let wa = with_rank(a, ka);
        let wb = with_rank(b, ka);
        assert(wa.last() == a.last());
        assert(wb.last() == b.last());
        assert(wa.drop_last() =~= with_rank(a.drop_last(), ka));
        assert(wb.drop_last() =~= with_rank(b.drop_last(), ka));
        let a2 = a.drop_last();
        let b2 = b.drop_last();
        assert forall|k: int| #[trigger] with_rank(a2, k) == with_rank(b2, k) by {
            if k == ka {
                assert(with_rank(a2, k) == wa.drop_last());
            } else {
                assert(with_rank(a2, k) == with_rank(a, k));
            }
        }
        lemma_price_ordering_unique(a2, b2);
        assert(a =~= a2.push(a.last()));
        assert(b =~= b2.push(b.last()));
    }
}

/// A price ordering of `s` is `price_order(s)`.
pub proof fn lemma_price_order_is(r: Seq<ProductView>, s: Seq<ProductView>)
    requires
        is_price_ordering(r, s),
    ensures
        price_order(s) == r,
{
    let c = price_order(s);
    assert(is_price_ordering(c, s));
    assert forall|k: int| #[trigger] with_rank(c, k) == with_rank(r, k) by {
        assert(with_rank(c, k) == with_rank(s, k));
        assert(with_rank(r, k) == with_rank(s, k));
    }
    lemma_price_ordering_unique(c, r);
}

/// Orders products cheapest first, keeping the input order among products
/// of equal price (a stable sort by effective price).
pub fn sort_by_price(items: Vec<Product>) -> (r: Vec<Product>)
    ensures
        views(r@) == price_order(views(items@)),
        r@.len() == items@.len(),
{
    let ghost orig = views(items@);
    let mut rest = items;
    let mut r: Vec<Product> = Vec::new();
    assert(orig.subrange(orig.len() as int, orig.len() as int) =~= Seq::<ProductView>::empty());
    assert(views(r@) =~= Seq::<ProductView>::empty());
    while rest.len() > 0
        invariant
            rest@.len() <= orig.len(),
            views(rest@) == orig.subrange(0, rest@.len() as int),
            sorted_by_price(views(r@)),
            r@.len() + rest@.len() == orig.len(),
            forall|k: int|
                #[trigger] with_rank(views(r@), k) == with_rank(
                    orig.subrange(rest@.len() as int, orig.len() as int),
                    k,
                ),
        decreases rest.len(),
    {
        let ghost before = views(r@);
        let ghost m = rest@.len() as int;
        let ghost rest_before = rest@;
        let x = rest.pop().unwrap();
        assert(x@ == views(rest_before)[m - 1]);
        assert(x@ == orig[m - 1]);
        let kx = price_rank_of(effective_price(&x));
        let mut pos: usize = 0;
        while pos < r.len() && price_rank_of(effective_price(&r[pos])) < kx
            invariant
                views(r@) == before,
                pos <= r.len(),
                kx == product_rank(x@),
                forall|j: int| 0 <= j < pos ==> product_rank(before[j]) < kx,
            decreases r.len() - pos,
        {
            assert(before[pos as int] == r@[pos as int]@);
            pos = pos + 1;
        }
        assert forall|j: int| pos <= j < before.len() implies product_rank(before[j]) >= kx by {
            assert(before[pos as int] == r@[pos as int]@);
            assert(product_rank(before[pos as int]) <= product_rank(before[j]));
        }
        proof {
            lemma_with_rank_insert(before, pos as int, x@);
            let done = orig.subrange(m, orig.len() as int);
            let done2 = orig.subrange(m - 1, orig.len() as int);
            assert(done2 =~= seq![x@] + done);
            assert forall|k: int| #[trigger] with_rank(done2, k) == if k == product_rank(x@) {
                seq![x@] + with_rank(done, k)
            } else {
                with_rank(done, k)
            } by {
                done.lemma_filter_prepend(x@, rank_is(k));
                if k != product_rank(x@) {
                    assert((Seq::<ProductView>::empty() + done.filter(rank_is(k))) =~= done.filter(
                        rank_is(k),
                    ));
                }
            }
        }
        let ghost r_before = r@;
        r.insert(pos, x);
        assert(views(r@) =~= before.insert(pos as int, x@));
        assert(views(rest@) =~= orig.subrange(0, rest@.len() as int));
        assert forall|k: int|
            #[trigger] with_rank(views(r@), k) == with_rank(
                orig.subrange(rest@.len() as int, orig.len() as int),
                k,
            ) by {
            assert(with_rank(views(r@), k) == with_rank(before.insert(pos as int, x@), k));
        }
    }
    assert(orig.subrange(0, orig.len() as int) =~= orig);
    proof {
        lemma_price_order_is(views(r@), orig);
    }
    r
}

// ── Semantic selection ──────────────────────────────────────────────────────

/// The candidate at each index of `idx` that is in range, in the order of `idx`
/// (repeated indices repeat the candidate).
pub open spec fn select_views(c: Seq<ProductView>, idx: Seq<usize>) -> Seq<ProductView> {
    idx.filter_map(|i: usize| if i < c.len() { Some(c[i as int]) } else { None })
}

/// The semantic filter is consulted only for more than one candidate.
pub open spec fn wants_semantic_filter_spec(n: nat) -> bool {
    n > 1
}

/// Candidates after the semantic filter's reply: replaced by the selected
/// ones when the filter was consulted and answered with at least one index,
/// unchanged otherwise.
pub open spec fn after_semantic_reply(c: Seq<ProductView>, reply: Option<Seq<usize>>) -> Seq<
    ProductView,
> {
    match reply {
        Some(idx) => if wants_semantic_filter_spec(c.len()) && idx.len() > 0 {
            select_views(c, idx)
        } else {
            c
        },
        None => c,
    }
}

/// Is the semantic filter worth consulting for `n` candidates?
pub fn wants_semantic_filter(n: usize) -> (b: bool)
    ensures
        b == wants_semantic_filter_spec(n as nat),
{
    n > 1
}

/// The candidates at the in-range indices of `indices`, in that order.
pub fn select_by_indices(candidates: &Vec<Product>, indices: &Vec<usize>) -> (r: Vec<Product>)
    ensures
        views(r@) == select_views(views(candidates@), indices@),
{
    let ghost c = views(candidates@);
    let ghost f = |i: usize| if i < c.len() { Some(c[i as int]) } else { None };
    let mut r: Vec<Product> = Vec::new();
    let mut j: usize = 0;
    assert(indices@.take(0).filter_map(f) =~= Seq::<ProductView>::empty());
    while j < indices.len()
        invariant
            j <= indices.len(),
            c == views(candidates@),
            f == (|i: usize| if i < c.len() { Some(c[i as int]) } else { None }),
            views(r@) == indices@.take(j as int).filter_map(f),
        decreases indices.len() - j,
    {
        proof {
            indices@.lemma_filter_map_take_succ(f, j as int);
        }
        let i = indices[j];
        if i < candidates.len() {
            let ghost before = views(r@);
            let p = copy_product(&candidates[i]);
            r.push(p);
            assert(views(r@) =~= before + seq![c[i as int]]);
        }
        j = j + 1;
    }
    assert(indices@.take(indices@.len() as int) =~= indices@);
    r
}

/// Applies the semantic filter's reply (`None` when it was not consulted or
/// failed) to the candidates.
pub fn apply_semantic_reply(candidates: Vec<Product>, reply: Option<Vec<usize>>) -> (r: Vec<Product>)
    ensures
        views(r@) == after_semantic_reply(
            views(candidates@),
            match reply {
                Some(v) => Some(v@),
                None => None,
            },
        ),
{
    match reply {
        Some(idx) => {
            if wants_semantic_filter(candidates.len()) && idx.len() > 0 {
                select_by_indices(&candidates, &idx)
            } else {
                candidates
            }
        },
        None => candidates,
    }
}

// ── Brand blacklist ─────────────────────────────────────────────────────────

pub open spec fn string_views(s: Seq<String>) -> Seq<Seq<char>> {
    s.map_values(|b: String| b@)
}

/// The brand of a product, or the empty string.
pub open spec fn brand_text(p: ProductView) -> Seq<char> {
    match p.brand {
        Some(b) => b,
        None => Seq::empty(),
    }
}

/// The product's lowercased brand contains some lowercased blacklisted brand.
pub open spec fn is_blacklisted(p: ProductView, bl: Seq<Seq<char>>) -> bool {
    exists|i: int|
        0 <= i < bl.len() && contains(
            unicode_lowercase(brand_text(p)),
            unicode_lowercase(#[trigger] bl[i]),
        )
}

pub open spec fn not_blacklisted(bl: Seq<Seq<char>>) -> spec_fn(ProductView) -> bool {
    |p: ProductView| !is_blacklisted(p, bl)
}

/// The products of `s` that no blacklisted brand matches, in order.
pub open spec fn without_blacklisted(s: Seq<ProductView>, bl: Seq<Seq<char>>) -> Seq<ProductView> {
    s.filter(not_blacklisted(bl))
}

/// Does a blacklisted brand occur (case-insensitively) in the product's brand?
pub fn brand_is_blacklisted(p: &Product, blacklisted: &[String]) -> (b: bool)
    ensures
        b == is_blacklisted(p@, string_views(blacklisted@)),
{
    let brand = match &p.brand {
        Some(b) => to_lowercase(b.as_str()),
        None => {
            proof {
                reveal_strlit("");
            }
            assert(""@ =~= Seq::<char>::empty());
            to_lowercase("")
        },
    };
    assert(brand@ == unicode_lowercase(brand_text(p@)));
    let brand_chars = chars_of(brand.as_str());
    let ghost bl = string_views(blacklisted@);
    let mut i: usize = 0;
    while i < blacklisted.len()
        invariant
            i <= blacklisted.len(),
            bl == string_views(blacklisted@),
            brand_chars@ == unicode_lowercase(brand_text(p@)),
            forall|j: int|
                0 <= j < i ==> !contains(unicode_lowercase(brand_text(p@)), unicode_lowercase(
                    #[trigger] bl[j],
                )),
        decreases blacklisted.len() - i,
    {
        let lb = to_lowercase(blacklisted[i].as_str());
        let lb_chars = chars_of(lb.as_str());
        assert(bl[i as int] == blacklisted@[i as int]@);
        if chars_contains(&brand_chars, &lb_chars) {
            return true;
        }
        i = i + 1;
    }
    false
}

/// Drops every product whose brand contains a blacklisted brand (compared in
/// lowercase); the rest keep their order.
pub fn remove_blacklisted(candidates: Vec<Product>, blacklisted: &[String]) -> (r: Vec<Product>)
    ensures
        views(r@) == without_blacklisted(views(candidates@), string_views(blacklisted@)),
{
    let ghost orig = views(candidates@);
    let ghost bl = string_views(blacklisted@);
    let mut rest = candidates;
    let mut r: Vec<Product> = Vec::new();
    let ghost n = orig.len();
    assert(orig.take(0).filter(not_blacklisted(bl)) =~= Seq::<ProductView>::empty()) by {
        reveal(Seq::filter);
    }
    while rest.len() > 0
        invariant
            rest@.len() <= n,
            n == orig.len(),
            bl == string_views(blacklisted@),
            views(rest@) == orig.subrange(n - rest@.len(), n as int),
            views(r@) == orig.take(n - rest@.len()).filter(not_blacklisted(bl)),
        decreases rest.len(),
    {
        let ghost m = n - rest@.len();
        let ghost rest_before = rest@;
        let p = rest.remove(0);
        assert(p@ == views(rest_before)[0]);
        assert(p@ == orig[m]);
        assert(orig.take(m + 1).drop_last() =~= orig.take(m));
        assert(orig.take(m + 1).last() == orig[m]);
        let ghost before = views(r@);
        reveal(Seq::filter);
        if !brand_is_blacklisted(&p, blacklisted) {
            r.push(p);
            assert(views(r@) =~= before.push(orig[m]));
        }
        assert(rest@ =~= rest_before.subrange(1, rest_before.len() as int));
        assert(views(rest@) =~= views(rest_before).subrange(1, rest_before.len() as int));
        assert(views(rest@) =~= orig.subrange(n - rest@.len(), n as int));
    }
    assert(orig.take(n as int) =~= orig);
    r
}

// ── The ranking ─────────────────────────────────────────────────────────────

/// `s` cut to at most `n` elements.
pub open spec fn at_most(s: Seq<ProductView>, n: nat) -> Seq<ProductView> {
    if n < s.len() {
        s.take(n as int)
    } else {
        s
    }
}

/// The ordering step would compare a NaN price (`partial_cmp` has no answer
/// there, and the ordering cannot proceed).
pub open spec fn ordering_fails(s: Seq<ProductView>) -> bool {
    s.len() >= 2 && has_nan_price(s)
}

/// Search results: the semantic reply applied, blacklisted brands removed,
/// cheapest first, at most `limit` of them.
pub open spec fn search_results(
    c: Seq<ProductView>,
    reply: Option<Seq<usize>>,
    bl: Seq<Seq<char>>,
    limit: nat,
) -> Seq<ProductView> {
    at_most(price_order(without_blacklisted(after_semantic_reply(c, reply), bl)), limit)
}

/// Does some product's effective price encode a NaN?
pub fn any_nan_price(s: &Vec<Product>) -> (b: bool)
    ensures
        b == has_nan_price(views(s@)),
{
    let mut i: usize = 0;
    while i < s.len()
        invariant
            i <= s.len(),
            forall|j: int| 0 <= j < i ==> !is_nan(effective_price_of(#[trigger] views(s@)[j])),
        decreases s.len() - i,
    {
        if price_is_nan(effective_price(&s[i])) {
            assert(views(s@)[i as int] == s@[i as int]@);
            return true;
        }
        assert(views(s@)[i as int] == s@[i as int]@);
        i = i + 1;
    }
    false
}

/// Ranks search candidates: applies the semantic filter's reply, removes
/// blacklisted brands, orders cheapest first and keeps at most `limit`.
/// `None` exactly where the ordering would have to compare a NaN price.
pub fn rank_candidates(
    candidates: Vec<Product>,
    reply: Option<Vec<usize>>,
    blacklisted: &[String],
    limit: usize,
) -> (r: Option<Vec<Product>>)
    ensures
        ({
            let kept = without_blacklisted(
                after_semantic_reply(
                    views(candidates@),
                    match reply {
                        Some(v) => Some(v@),
                        None => None,
                    },
                ),
                string_views(blacklisted@),
            );
            &&& r is None <==> ordering_fails(kept)
            &&& r matches Some(v) ==> views(v@) == at_most(price_order(kept), limit as nat)
        }),
{
    let selected = apply_semantic_reply(candidates, reply);
    let kept = remove_blacklisted(selected, blacklisted);
    if kept.len() >= 2 && any_nan_price(&kept) {
        return None;
    }
    let mut sorted = sort_by_price(kept);
    sorted.truncate(limit);
    assert(views(sorted@) =~= at_most(price_order(views(kept@)), limit as nat));
    Some(sorted)
}

/// The cheapest of `results` (the first after ordering them), if any.
pub fn best_of(results: Vec<Product>) -> (r: Option<Product>)
    requires
        !ordering_fails(views(results@)),
    ensures
        r is None <==> results@.len() == 0,
        r matches Some(p) ==> p@ == price_order(views(results@))[0],
        r matches Some(p) ==> forall|i: int|
            0 <= i < results@.len() ==> product_rank(p@) <= product_rank(#[trigger] views(results@)[i]),
        r matches Some(p) ==> (forall|i: int|
            0 <= i < results@.len() ==> is_finite(effective_price_of(#[trigger] views(results@)[i])))
            ==> forall|i: int|
            0 <= i < results@.len() ==> binary64_value(effective_price_of(p@)) <= binary64_value(
                effective_price_of(#[trigger] views(results@)[i]),
            ),
{
    proof {
        if results@.len() > 0 {
            lemma_best_is_cheapest(views(results@));
            if forall|i: int|
                0 <= i < results@.len() ==> is_finite(effective_price_of(#[trigger] views(results@)[i])) {
                lemma_best_is_lowest_value(views(results@));
            }
        }
    }
    let mut sorted = sort_by_price(results);
    if sorted.len() == 0 {
        None
    } else {
        let p = sorted.remove(0);
        Some(p)
    }
}

// ── Laws ────────────────────────────────────────────────────────────────────

/// Ordering an already ordered list changes nothing.
pub proof fn lemma_price_order_of_sorted(s: Seq<ProductView>)
    requires
        sorted_by_price(s),
    ensures
        price_order(s) == s,
{
    lemma_price_order_is(s, s);
}

/// The number of leading elements of `r` ranked below `k`.
pub open spec fn leading_below(r: Seq<ProductView>, k: int) -> int
    decreases r.len(),
{
    if r.len() > 0 && product_rank(r[0]) < k {
        1 + leading_below(r.drop_first(), k)
    } else {
        0
    }
}

/// Insertion sort, as a definition: each element enters after the smaller ranks.
pub open spec fn insertion_ordered(s: Seq<ProductView>) -> Seq<ProductView>
    decreases s.len(),
{
    if s.len() == 0 {
        s
    } else {
        let t = insertion_ordered(s.drop_first());
        t.insert(leading_below(t, product_rank(s[0])), s[0])
    }
}

proof fn lemma_leading_below(r: Seq<ProductView>, k: int)
    requires
        sorted_by_price(r),
    ensures
        0 <= leading_below(r, k) <= r.len(),
        forall|j: int| 0 <= j < leading_below(r, k) ==> product_rank(r[j]) < k,
        forall|j: int| leading_below(r, k) <= j < r.len() ==> product_rank(r[j]) >= k,
    decreases r.len(),
{
    if r.len() > 0 && product_rank(r[0]) < k {
        let t = r.drop_first();
        assert(sorted_by_price(t)) by {
            assert forall|i: int, j: int| 0 <= i < j < t.len() implies product_rank(t[i])
                <= product_rank(t[j]) by {
                assert(t[i] == r[i + 1] && t[j] == r[j + 1]);
            }
        }
        lemma_leading_below(t, k);
        assert forall|j: int| 0 <= j < leading_below(r, k) implies product_rank(r[j]) < k by {
            if j > 0 {
                assert(r[j] == t[j - 1]);
            }
        }
        assert forall|j: int| leading_below(r, k) <= j < r.len() implies product_rank(r[j]) >= k by {
            assert(r[j] == t[j - 1]);
        }
    } else if r.len() > 0 {
        assert forall|j: int| 0 <= j < r.len() implies product_rank(r[j]) >= k by {
            if j > 0 {
                assert(product_rank(r[0]) <= product_rank(r[j]));
            }
        }
    }
}

/// The insertion sort is a stable price ordering with the same elements.
proof fn lemma_insertion_ordered(s: Seq<ProductView>)
    ensures
        is_price_ordering(insertion_ordered(s), s),
        insertion_ordered(s).to_multiset() == s.to_multiset(),
    decreases s.len(),
{
    if s.len() == 0 {
    } else {
        let x = s[0];
        let tail = s.drop_first();
        let t = insertion_ordered(tail);
        lemma_insertion_ordered(tail);
        let kx = product_rank(x);
        let pos = leading_below(t, kx);
        lemma_leading_below(t, kx);
        let r = t.insert(pos, x);
        assert(r == insertion_ordered(s));
        assert(sorted_by_price(r)) by {
            assert forall|i: int, j: int| 0 <= i < j < r.len() implies product_rank(r[i])
                <= product_rank(r[j]) by {
                if i < pos {
                    assert(r[i] == t[i]);
                    if j < pos {
                        assert(r[j] == t[j]);
                    } else if j > pos {
                        assert(r[j] == t[j - 1]);
                    }
                } else if i == pos {
                    assert(r[j] == t[j - 1]);
                } else {
                    assert(r[i] == t[i - 1]);
                    assert(r[j] == t[j - 1]);
                }
            }
        }
        lemma_with_rank_insert(t, pos, x);
        assert(s =~= seq![x] + tail);
        assert forall|k: int| #[trigger] with_rank(r, k) == with_rank(s, k) by {
            tail.lemma_filter_prepend(x, rank_is(k));
            if k != kx {
                assert((Seq::<ProductView>::empty() + tail.filter(rank_is(k))) =~= tail.filter(
                    rank_is(k),
                ));
            }
        }
        vstd::seq_lib::to_multiset_insert(t, pos, x);
        vstd::seq_lib::lemma_multiset_commutative(seq![x], tail);
        assert(seq![x].to_multiset() =~= vstd::multiset::Multiset::empty().insert(x)) by {
            broadcast use vstd::seq_lib::group_seq_properties;
            broadcast use vstd::multiset::group_multiset_axioms;
        }
        assert(s.to_multiset() =~= tail.to_multiset().insert(x)) by {
            broadcast use vstd::multiset::group_multiset_axioms;
        }
    }
}

/// The stable ordering holds the same products, cheapest first.
pub proof fn lemma_price_order_props(s: Seq<ProductView>)
    ensures
        is_price_ordering(price_order(s), s),
        sorted_by_price(price_order(s)),
        price_order(s).to_multiset() == s.to_multiset(),
        price_order(s).len() == s.len(),
{
    lemma_insertion_ordered(s);
    lemma_price_order_is(insertion_ordered(s), s);
    vstd::seq_lib::to_multiset_len(s);
    vstd::seq_lib::to_multiset_len(price_order(s));
}

/// Search results come cheapest first, are no more than `limit`, carry no
/// blacklisted brand, and are each a candidate that the semantic reply kept.
pub proof fn lemma_search_results_props(
    c: Seq<ProductView>,
    reply: Option<Seq<usize>>,
    bl: Seq<Seq<char>>,
    limit: nat,
)
    ensures
        sorted_by_price(search_results(c, reply, bl, limit)),
        search_results(c, reply, bl, limit).len() <= limit,
        forall|i: int|
            0 <= i < search_results(c, reply, bl, limit).len() ==> {
                let p = #[trigger] search_results(c, reply, bl, limit)[i];
                &&& !is_blacklisted(p, bl)
                &&& after_semantic_reply(c, reply).contains(p)
            },
{
    let sel = after_semantic_reply(c, reply);
    let kept = without_blacklisted(sel, bl);
    let o = price_order(kept);
    let r = search_results(c, reply, bl, limit);
    lemma_price_order_props(kept);
    assert forall|i: int| 0 <= i < r.len() implies {
        let p = #[trigger] r[i];
        &&& !is_blacklisted(p, bl)
        &&& sel.contains(p)
    } by {
        let p = r[i];
        assert(p == o[i]);
        assert(o.contains(p));
        vstd::seq_lib::to_multiset_contains(o, p);
        vstd::seq_lib::to_multiset_contains(kept, p);
        assert(kept.contains(p));
        let k = choose|k: int| 0 <= k < kept.len() && kept[k] == p;
        sel.lemma_filter_pred(not_blacklisted(bl), k);
        sel.lemma_filter_contains_rev(not_blacklisted(bl), p);
    }
    assert(sorted_by_price(r)) by {
        assert forall|i: int, j: int| 0 <= i < j < r.len() implies product_rank(r[i])
            <= product_rank(r[j]) by {
            assert(r[i] == o[i] && r[j] == o[j]);
        }
    }
}

/// The first of the ordering is a cheapest product: no product of `s` has a
/// lower effective price.
pub proof fn lemma_best_is_cheapest(s: Seq<ProductView>)
    requires
        s.len() > 0,
    ensures
        forall|i: int| 0 <= i < s.len() ==> product_rank(price_order(s)[0]) <= product_rank(#[trigger] s[i]),
{
    let o = price_order(s);
    lemma_price_order_props(s);
    assert forall|i: int| 0 <= i < s.len() implies product_rank(o[0]) <= product_rank(#[trigger] s[i]) by {
        let x = s[i];
        assert(s.contains(x));
        vstd::seq_lib::to_multiset_contains(s, x);
        vstd::seq_lib::to_multiset_contains(o, x);
        let j = choose|j: int| 0 <= j < o.len() && o[j] == x;
        if j > 0 {
            assert(product_rank(o[0]) <= product_rank(o[j]));
        }
    }
}

proof fn lemma_select_all_prefix(c: Seq<ProductView>, k: int)
    requires
        0 <= k <= c.len(),
        c.len() <= usize::MAX,
    ensures
        select_views(c, all_indices(c.len()).take(k)) == c.take(k),
    decreases k,
{
    let idx = all_indices(c.len());
    let f = |i: usize| if i < c.len() { Some(c[i as int]) } else { None };
    if k == 0 {
        assert(idx.take(0) =~= Seq::<usize>::empty());
        assert(idx.take(0).filter_map(f) =~= Seq::<ProductView>::empty());
        assert(c.take(0) =~= Seq::<ProductView>::empty());
    } else {
        lemma_select_all_prefix(c, k - 1);
        idx.lemma_filter_map_take_succ(f, k - 1);
        assert(idx[k - 1] == (k - 1) as usize);
        assert(((k - 1) as usize) as int == k - 1);
        assert(f(idx[k - 1]) == Some(c[k - 1]));
        assert(select_views(c, idx.take(k)) == idx.take(k).filter_map(f));
        assert(select_views(c, idx.take(k - 1)) == idx.take(k - 1).filter_map(f));
        assert(c.take(k) =~= c.take(k - 1) + seq![c[k - 1]]);
    }
}

/// Selecting every index, in order, selects every candidate.
proof fn lemma_select_all(c: Seq<ProductView>)
    requires
        c.len() <= usize::MAX,
    ensures
        select_views(c, all_indices(c.len())) == c,
{
    lemma_select_all_prefix(c, c.len() as int);
    assert(all_indices(c.len()).take(c.len() as int) =~= all_indices(c.len()));
    assert(c.take(c.len() as int) =~= c);
}

/// When the request fails, the model's answer is no JSON list of indices, or
/// it names no existing candidate, the semantic filter keeps every candidate.
pub proof fn lemma_unusable_answer_keeps_all(c: Seq<ProductView>, reply: Option<Seq<char>>)
    requires
        c.len() <= usize::MAX,
    ensures
        (reply matches Some(text) ==> json_index_list(text) is None) ==> after_semantic_reply(
            c,
            Some(filter_answer(reply, c.len())),
        ) == c,
        (reply matches Some(text) && json_index_list(text) matches Some(v) && forall|k: int|
            0 <= k < v.len() ==> v[k] >= c.len()) ==> after_semantic_reply(
            c,
            Some(filter_answer(reply, c.len())),
        ) == c,
{
    lemma_select_all(c);
    reveal(Seq::filter);
    if let Some(text) = reply {
        if let Some(v) = json_index_list(text) {
            let pred = |i: usize| i < c.len();
            if forall|k: int| 0 <= k < v.len() ==> v[k] >= c.len() {
                if v.filter(pred).len() > 0 {
                    v.lemma_filter_pred(pred, 0);
                    v.lemma_filter_contains_rev(pred, v.filter(pred)[0]);
                    let k = choose|k: int| 0 <= k < v.len() && v[k] == v.filter(pred)[0];
                    assert(v[k] >= c.len());
                }
            }
        }
    }
}

// ── Prices as binary64 values ───────────────────────────────────────────────

/// 2^52, the weight of a binary64 value's exponent field.
pub open spec fn mantissa_unit() -> int {
    0x10_0000_0000_0000
}

/// The value of a binary64 magnitude (sign bit clear, finite), in units of
/// 2^-1074, the smallest subnormal: with exponent field `e` and fraction `m`,
/// `m` for `e == 0`, else `(2^52 + m) * 2^(e - 1)`.
pub open spec fn magnitude_value(mag: int) -> int {
    let e = mag / mantissa_unit();
    let m = mag % mantissa_unit();
    if e == 0 {
        m
    } else {
        (mantissa_unit() + m) * pow2((e - 1) as nat)
    }
}

/// The bit pattern encodes a finite value (neither infinity nor NaN).
pub open spec fn is_finite(bits: u64) -> bool {
    magnitude(bits) < INFINITY_BITS
}

/// The binary64 value of a finite bit pattern, times 2^1074 (an integer).
pub open spec fn binary64_value(bits: u64) -> int {
    if bits >= SIGN_BIT {
        -magnitude_value(magnitude(bits))
    } else {
        magnitude_value(magnitude(bits))
    }
}

/// A larger magnitude encodes a strictly larger value.
proof fn lemma_magnitude_value_increases(a: int, b: int)
    requires
        0 <= a < b,
    ensures
        0 <= magnitude_value(a) < magnitude_value(b),
{
    let p = mantissa_unit();
    let ea = a / p;
    let ma = a % p;
    let eb = b / p;
    let mb = b % p;
    assert(a == p * ea + ma && 0 <= ma < p && ea >= 0);
    assert(b == p * eb + mb && 0 <= mb < p && eb >= 0);
    assert(ea <= eb) by (nonlinear_arith)
        requires
            a == p * ea + ma,
            b == p * eb + mb,
            0 <= ma < p,
            0 <= mb < p,
            a < b,
            p > 0,
    ;
    if ea == eb {
        assert(ma < mb);
        if ea > 0 {
            let q = pow2((ea - 1) as nat) as int;
            lemma_pow2_pos((ea - 1) as nat);
            assert((p + ma) * q < (p + mb) * q) by (nonlinear_arith)
                requires
                    ma < mb,
                    q > 0,
            ;
            assert(0 <= (p + ma) * q) by (nonlinear_arith)
                requires
                    ma >= 0,
                    p > 0,
                    q > 0,
            ;
        }
    } else {
        let qb = pow2((eb - 1) as nat) as int;
        lemma_pow2_pos((eb - 1) as nat);
        assert(p * qb <= (p + mb) * qb) by (nonlinear_arith)
            requires
                mb >= 0,
                qb > 0,
        ;
        if ea == 0 {
            assert(p <= p * qb) by (nonlinear_arith)
                requires
                    qb >= 1,
                    p > 0,
            ;
        } else {
            let qa = pow2((ea - 1) as nat) as int;
            lemma_pow2_pos((ea - 1) as nat);
            lemma_pow2_unfold(ea as nat);
            if ea < eb - 1 {
                lemma_pow2_strictly_increases(ea as nat, (eb - 1) as nat);
            }
            assert(pow2(ea as nat) <= qb);
            assert((p + ma) * qa < p * (2 * qa)) by (nonlinear_arith)
                requires
                    ma < p,
                    qa > 0,
            ;
            assert(p * (2 * qa) <= p * qb) by (nonlinear_arith)
                requires
                    2 * qa <= qb,
                    p > 0,
            ;
            assert(0 <= (p + ma) * qa) by (nonlinear_arith)
                requires
                    ma >= 0,
                    p > 0,
                    qa > 0,
            ;
        }
    }
}

/// For finite prices the rank compares as the binary64 values do (as
/// `f64::partial_cmp` does): a smaller value has a smaller rank, equal values
/// (`0.0` and `-0.0` among them) share a rank; positive infinity ranks above,
/// negative infinity below, every finite price.
pub proof fn lemma_rank_follows_value(x: u64, y: u64)
    requires
        is_finite(y),
    ensures
        is_finite(x) && binary64_value(x) < binary64_value(y) ==> price_rank(x) < price_rank(y),
        is_finite(x) && binary64_value(x) == binary64_value(y) ==> price_rank(x) == price_rank(y),
        x == INFINITY_BITS ==> price_rank(y) < price_rank(x),
        x == SIGN_BIT + INFINITY_BITS ==> price_rank(x) < price_rank(y),
{
    let mx = magnitude(x);
    let my = magnitude(y);
    assert(magnitude_value(0) == 0);
    if is_finite(x) {
        if mx < my {
            lemma_magnitude_value_increases(mx, my);
        } else if my < mx {
            lemma_magnitude_value_increases(my, mx);
        }
        if mx > 0 {
            lemma_magnitude_value_increases(0, mx);
        }
        if my > 0 {
            lemma_magnitude_value_increases(0, my);
        }
    }
}

/// With finite effective prices, no product of `s` has a lower binary64
/// value than the first of the ordering.
pub proof fn lemma_best_is_lowest_value(s: Seq<ProductView>)
    requires
        s.len() > 0,
        forall|i: int| 0 <= i < s.len() ==> is_finite(effective_price_of(#[trigger] s[i])),
    ensures
        forall|i: int|
            0 <= i < s.len() ==> binary64_value(effective_price_of(price_order(s)[0]))
                <= binary64_value(effective_price_of(#[trigger] s[i])),
{
    let o = price_order(s);
    lemma_price_order_props(s);
    lemma_best_is_cheapest(s);
    assert(o.len() > 0);
    let b = o[0];
    assert(o.contains(b));
    vstd::seq_lib::to_multiset_contains(o, b);
    vstd::seq_lib::to_multiset_contains(s, b);
    let k = choose|k: int| 0 <= k < s.len() && s[k] == b;
    assert(is_finite(effective_price_of(s[k])));
    assert forall|i: int| 0 <= i < s.len() implies binary64_value(effective_price_of(b))
        <= binary64_value(effective_price_of(#[trigger] s[i])) by {
        lemma_rank_follows_value(effective_price_of(s[i]), effective_price_of(b));
    }
}

} // verus!
