//! Character-sequence primitives shared by the rest of the library.
//!
//! Strings are modelled by their view, a `Seq<char>`. The Unicode
//! properties and case mappings of std are named, not restated: their
//! tables are Unicode's, and the names below stand for them.
use vstd::prelude::*;

verus! {

// ── Names for std's Unicode tables ──────────────────────────────────────────

/// The non-ASCII members of Unicode's `White_Space` (PropList.txt): U+0085,
/// U+00A0, U+1680, U+2000 to U+200A, U+2028, U+2029, U+202F, U+205F and U+3000.
pub open spec fn non_ascii_whitespace(c: char) -> bool {
    let n = c as u32;
    n == 0x85 || n == 0xA0 || n == 0x1680 || (0x2000 <= n <= 0x200A) || n == 0x2028 || n == 0x2029
        || n == 0x202F || n == 0x205F || n == 0x3000
}

/// The ASCII members of Unicode's `White_Space`: tab, line feed, vertical tab,
/// form feed, carriage return and space.
pub open spec fn ascii_whitespace(c: char) -> bool {
    c == '\t' || c == '\n' || c == '\x0B' || c == '\x0C' || c == '\r' || c == ' '
}

/// What `char::is_whitespace` answers (Unicode property `White_Space`).
pub open spec fn unicode_whitespace(c: char) -> bool {
    if (c as u32) < 128 {
        ascii_whitespace(c)
    } else {
        non_ascii_whitespace(c)
    }
}

/// What `char::is_alphanumeric` answers (`Alphabetic` or `Numeric`).
pub uninterp spec fn unicode_alphanumeric(c: char) -> bool;

/// Every character is ASCII.
pub open spec fn all_ascii(s: Seq<char>) -> bool {
    forall|i: int| 0 <= i < s.len() ==> (#[trigger] s[i] as u32) < 128
}

/// The ASCII letter in lowercase; other characters as they are.
pub open spec fn ascii_lower(c: char) -> char {
    if 'A' <= c <= 'Z' {
        ((c as u32) + 32) as char
    } else {
        c
    }
}

/// The ASCII letter in uppercase; other characters as they are.
pub open spec fn ascii_upper(c: char) -> char {
    if 'a' <= c <= 'z' {
        ((c as u32) - 32) as char
    } else {
        c
    }
}

/// What `str::to_lowercase` returns for a string that holds a non-ASCII character.
pub uninterp spec fn non_ascii_lowercase(s: Seq<char>) -> Seq<char>;

/// What `str::to_uppercase` returns for a string that holds a non-ASCII character.
pub uninterp spec fn non_ascii_uppercase(s: Seq<char>) -> Seq<char>;

/// What `str::to_lowercase` returns: for ASCII text, each letter A to Z
/// mapped to a to z (Unicode's lowercase mappings of ASCII); otherwise the
/// mapping of Unicode's tables, named `non_ascii_lowercase`.
pub open spec fn unicode_lowercase(s: Seq<char>) -> Seq<char> {
    if all_ascii(s) {
        s.map_values(|c: char| ascii_lower(c))
    } else {
        non_ascii_lowercase(s)
    }
}

/// What `str::to_uppercase` returns: for ASCII text, each letter a to z
/// mapped to A to Z; otherwise the mapping of Unicode's tables, named
/// `non_ascii_uppercase`.
pub open spec fn unicode_uppercase(s: Seq<char>) -> Seq<char> {
    if all_ascii(s) {
        s.map_values(|c: char| ascii_upper(c))
    } else {
        non_ascii_uppercase(s)
    }
}

/// Calls `char::is_whitespace`: whether `c` has Unicode's `White_Space`
/// property, listed in `ascii_whitespace` and `non_ascii_whitespace`.
#[verifier::external_body]
pub(crate) fn is_whitespace(c: char) -> (b: bool)
    ensures
        b == unicode_whitespace(c),
{
    c.is_whitespace()
}

/// Calls `char::is_alphanumeric`; the answer is named `unicode_alphanumeric`.
#[verifier::external_body]
pub(crate) fn is_alphanumeric(c: char) -> (b: bool)
    ensures
        b == unicode_alphanumeric(c),
{
    c.is_alphanumeric()
}

/// Calls `str::to_lowercase`: ASCII text with its letters in lowercase; for
/// other text the result is named `non_ascii_lowercase`.
#[verifier::external_body]
pub(crate) fn to_lowercase(s: &str) -> (r: String)
    ensures
        r@ == unicode_lowercase(s@),
        !all_ascii(s@) ==> r@ == non_ascii_lowercase(s@),
{
    s.to_lowercase()
}

/// Calls `str::to_uppercase`: ASCII text with its letters in uppercase; for
/// other text the result is named `non_ascii_uppercase`.
#[verifier::external_body]
pub(crate) fn to_uppercase(s: &str) -> (r: String)
    ensures
        r@ == unicode_uppercase(s@),
        !all_ascii(s@) ==> r@ == non_ascii_uppercase(s@),
{
    s.to_uppercase()
}

/// Calls `str::chars` and collects: the characters of `s`, in order.
#[verifier::external_body]
pub(crate) fn chars_of(s: &str) -> (v: Vec<char>)
    ensures
        v@ == s@,
{
    s.chars().collect()
}

/// Collects characters into a `String` (`FromIterator<&char>` for `String`):
/// the string whose characters are those of `v`, in order.
#[verifier::external_body]
pub(crate) fn string_of(v: &[char]) -> (s: String)
    ensures
        s@ == v@,
{
    v.iter().collect()
}

// ── Sequence searching ──────────────────────────────────────────────────────

/// `p` occurs in `s` starting at index `i`.
pub open spec fn occurs_at<T>(s: Seq<T>, p: Seq<T>, i: int) -> bool {
    0 <= i && i + p.len() <= s.len() && s.subrange(i, i + p.len()) == p
}

/// The first index at or after `i` where `p` occurs in `s`.
pub open spec fn find_from<T>(s: Seq<T>, p: Seq<T>, i: int) -> Option<int>
    decreases s.len() + 1 - i,
{
    if i < 0 || i + p.len() > s.len() {
        None
    } else if occurs_at(s, p, i) {
        Some(i)
    } else {
        find_from(s, p, i + 1)
    }
}

/// The first index where `p` occurs in `s` (what `str::find` answers, counted in
/// elements of `s`).
pub open spec fn first_index<T>(s: Seq<T>, p: Seq<T>) -> Option<int> {
    find_from(s, p, 0)
}

pub open spec fn contains<T>(s: Seq<T>, p: Seq<T>) -> bool {
    first_index(s, p) is Some
}

pub open spec fn starts_with<T>(s: Seq<T>, p: Seq<T>) -> bool {
    occurs_at(s, p, 0)
}

pub open spec fn ends_with<T>(s: Seq<T>, p: Seq<T>) -> bool {
    p.len() <= s.len() && occurs_at(s, p, s.len() - p.len())
}

/// `find_from` answers the first occurrence at or after `i`.
pub proof fn lemma_find_from<T>(s: Seq<T>, p: Seq<T>, i: int)
    requires
        0 <= i,
    ensures
        find_from(s, p, i) matches Some(k) ==> i <= k && occurs_at(s, p, k) && forall|j: int|
            i <= j < k ==> !occurs_at(s, p, j),
        find_from(s, p, i) is None ==> forall|j: int| i <= j ==> !occurs_at(s, p, j),
    decreases s.len() + 1 - i,
{
    if i + p.len() > s.len() {
    } else if occurs_at(s, p, i) {
    } else {
        lemma_find_from(s, p, i + 1);
        assert forall|j: int| i <= j && find_from(s, p, i) is None implies !occurs_at(s, p, j) by {
            if j > i {
            }
        }
    }
}

/// An occurrence exists at `k` and none before it: `find_from(s, p, i)` is `k`.
pub proof fn lemma_find_from_exact<T>(s: Seq<T>, p: Seq<T>, i: int, k: int)
    requires
        0 <= i <= k,
        occurs_at(s, p, k),
        forall|j: int| i <= j < k ==> !occurs_at(s, p, j),
    ensures
        find_from(s, p, i) == Some(k),
    decreases k - i,
{
    if i < k {
        lemma_find_from_exact(s, p, i + 1, k);
    }
}

/// Does `p` occur in `s` at index `i`?
pub fn chars_match_at(s: &[char], p: &[char], i: usize) -> (b: bool)
    ensures
        b == occurs_at(s@, p@, i as int),
{
    if i > s.len() || p.len() > s.len() - i {
        return false;
    }
    let mut k: usize = 0;
    while k < p.len()
        invariant
            i + p.len() <= s.len(),
            k <= p.len(),
            forall|j: int| 0 <= j < k ==> s@[i + j] == p@[j],
        decreases p.len() - k,
    {
        if s[i + k] != p[k] {
            assert(s@.subrange(i as int, i + p.len())[k as int] != p@[k as int]);
            return false;
        }
        k = k + 1;
    }
    assert(s@.subrange(i as int, i + p.len()) =~= p@);
    true
}

/// The first index at or after `from` where `p` occurs in `s`.
pub fn chars_find_from(s: &[char], p: &[char], from: usize) -> (r: Option<usize>)
    ensures
        r matches Some(k) ==> find_from(s@, p@, from as int) == Some(k as int),
        r is None ==> find_from(s@, p@, from as int) is None,
{
    let mut i = from;
    while i <= s.len() && p.len() <= s.len() - i
        invariant
            from <= i,
            find_from(s@, p@, from as int) == find_from(s@, p@, i as int),
        decreases s.len() + 1 - i,
    {
        if chars_match_at(s, p, i) {
            return Some(i);
        }
        assert(p@.len() > 0) by {
            if p@.len() == 0 {
                assert(s@.subrange(i as int, i as int) =~= p@);
            }
        }
        i = i + 1;
    }
    None
}

/// The first index where `p` occurs in `s`.
pub fn chars_find(s: &[char], p: &[char]) -> (r: Option<usize>)
    ensures
        r matches Some(k) ==> first_index(s@, p@) == Some(k as int),
        r is None ==> first_index(s@, p@) is None,
{
    chars_find_from(s, p, 0)
}

pub fn chars_contains(s: &[char], p: &[char]) -> (b: bool)
    ensures
        b == contains(s@, p@),
{
    chars_find(s, p).is_some()
}

pub fn chars_starts_with(s: &[char], p: &[char]) -> (b: bool)
    ensures
        b == starts_with(s@, p@),
{
    chars_match_at(s, p, 0)
}

pub fn chars_ends_with(s: &[char], p: &[char]) -> (b: bool)
    ensures
        b == ends_with(s@, p@),
{
    if p.len() > s.len() {
        false
    } else {
        chars_match_at(s, p, s.len() - p.len())
    }
}

pub fn chars_equal(a: &[char], b: &[char]) -> (r: bool)
    ensures
        r == (a@ == b@),
{
    if a.len() != b.len() {
        return false;
    }
    let r = chars_match_at(a, b, 0);
    assert(a@ =~= a@.subrange(0, b@.len() as int));
    r
}

/// The elements of `s` from `start` up to (not including) `end`.
pub fn chars_slice(s: &[char], start: usize, end: usize) -> (r: Vec<char>)
    requires
        start <= end <= s.len(),
    ensures
        r@ == s@.subrange(start as int, end as int),
{
    let mut r: Vec<char> = Vec::new();
    let mut i = start;
    while i < end
        invariant
            start <= i <= end <= s.len(),
            r@ == s@.subrange(start as int, i as int),
        decreases end - i,
    {
        r.push(s[i]);
        i = i + 1;
        assert(r@ =~= s@.subrange(start as int, i as int));
    }
    r
}

/// `a` followed by `b`.
pub fn chars_concat(a: &[char], b: &[char]) -> (r: Vec<char>)
    ensures
        r@ == a@ + b@,
{
    let mut r = chars_slice(a, 0, a.len());
    let mut i: usize = 0;
    while i < b.len()
        invariant
            i <= b.len(),
            r@ == a@ + b@.subrange(0, i as int),
        decreases b.len() - i,
    {
        r.push(b[i]);
        i = i + 1;
        assert(r@ =~= a@ + b@.subrange(0, i as int));
    }
    assert(b@.subrange(0, b.len() as int) =~= b@);
    r
}

// ── Whitespace trimming ─────────────────────────────────────────────────────

/// `s` without its leading whitespace (`str::trim_start`).
pub open spec fn trim_start(s: Seq<char>) -> Seq<char>
    decreases s.len(),
{
    if s.len() > 0 && unicode_whitespace(s[0]) {
        trim_start(s.drop_first())
    } else {
        s
    }
}

/// `s` without its trailing whitespace (`str::trim_end`).
pub open spec fn trim_end(s: Seq<char>) -> Seq<char>
    decreases s.len(),
{
    if s.len() > 0 && unicode_whitespace(s.last()) {
        trim_end(s.drop_last())
    } else {
        s
    }
}

/// `s` without leading and trailing whitespace (`str::trim`).
pub open spec fn trim(s: Seq<char>) -> Seq<char> {
    trim_end(trim_start(s))
}

/// `trim_start` keeps a suffix that starts with no whitespace.
pub proof fn lemma_trim_start_suffix(s: Seq<char>)
    ensures
        trim_start(s).len() <= s.len(),
        trim_start(s) == s.subrange(s.len() - trim_start(s).len(), s.len() as int),
        trim_start(s).len() > 0 ==> !unicode_whitespace(trim_start(s)[0]),
    decreases s.len(),
{
    if s.len() > 0 && unicode_whitespace(s[0]) {
        lemma_trim_start_suffix(s.drop_first());
        assert(s.drop_first().subrange(
            s.drop_first().len() - trim_start(s).len(),
            s.drop_first().len() as int,
        ) =~= s.subrange(s.len() - trim_start(s).len(), s.len() as int));
    } else {
        assert(s.subrange(0, s.len() as int) =~= s);
    }
}

/// `trim_end` keeps a prefix that ends with no whitespace.
pub proof fn lemma_trim_end_prefix(s: Seq<char>)
    ensures
        trim_end(s).len() <= s.len(),
        trim_end(s) == s.subrange(0, trim_end(s).len() as int),
        trim_end(s).len() > 0 ==> !unicode_whitespace(trim_end(s).last()),
    decreases s.len(),
{
    if s.len() > 0 && unicode_whitespace(s.last()) {
        lemma_trim_end_prefix(s.drop_last());
        assert(s.drop_last().subrange(0, trim_end(s).len() as int) =~= s.subrange(
            0,
            trim_end(s).len() as int,
        ));
    } else {
        assert(s.subrange(0, s.len() as int) =~= s);
    }
}

/// Trimming a trimmed text changes nothing.
pub proof fn lemma_trim_idempotent(s: Seq<char>)
    ensures
        trim(trim(s)) == trim(s),
{
    let ts = trim_start(s);
    let y = trim(s);
    lemma_trim_start_suffix(s);
    lemma_trim_end_prefix(ts);
    if y.len() > 0 {
        assert(y[0] == ts[0]);
        assert(trim_start(y) == y);
        assert(trim_end(y) == y);
    } else {
        assert(trim_start(y) == y);
        assert(trim_end(y) == y);
    }
}

/// The index of the first non-whitespace element of `s` (or its length).
pub fn trim_start_index(s: &[char]) -> (i: usize)
    ensures
        i <= s.len(),
        trim_start(s@) == s@.subrange(i as int, s.len() as int),
{
    let mut i: usize = 0;
    assert(s@.subrange(0, s.len() as int) =~= s@);
    while i < s.len() && is_whitespace(s[i])
        invariant
            i <= s.len(),
            trim_start(s@) == trim_start(s@.subrange(i as int, s.len() as int)),
        decreases s.len() - i,
    {
        assert(s@.subrange(i as int, s.len() as int).drop_first() =~= s@.subrange(
            i + 1,
            s.len() as int,
        ));
        i = i + 1;
    }
    i
}

/// The index just past the last non-whitespace element of `s[..end]`.
pub fn trim_end_index(s: &[char], end: usize) -> (j: usize)
    requires
        end <= s.len(),
    ensures
        j <= end,
        trim_end(s@.subrange(0, end as int)) == s@.subrange(0, j as int),
{
    let mut j = end;
    while j > 0 && is_whitespace(s[j - 1])
        invariant
            j <= end <= s.len(),
            trim_end(s@.subrange(0, end as int)) == trim_end(s@.subrange(0, j as int)),
        decreases j,
    {
        assert(s@.subrange(0, j as int).drop_last() =~= s@.subrange(0, j - 1));
        j = j - 1;
    }
    j
}

/// `s` with leading and trailing whitespace removed.
pub fn trim_chars(s: &[char]) -> (r: Vec<char>)
    ensures
        r@ == trim(s@),
{
    let i = trim_start_index(s);
    let rest = chars_slice(s, i, s.len());
    let j = trim_end_index(&rest, rest.len());
    assert(rest@.subrange(0, rest@.len() as int) =~= rest@);
    chars_slice(&rest, 0, j)
}

// ── Byte-level searching (for `str` byte offsets) ──────────────────────────

/// Does `p` occur in `s` at index `i`?
pub fn bytes_match_at(s: &[u8], p: &[u8], i: usize) -> (b: bool)
    ensures
        b == occurs_at(s@, p@, i as int),
{
    if i > s.len() || p.len() > s.len() - i {
        return false;
    }
    let mut k: usize = 0;
    while k < p.len()
        invariant
            i + p.len() <= s.len(),
            k <= p.len(),
            forall|j: int| 0 <= j < k ==> s@[i + j] == p@[j],
        decreases p.len() - k,
    {
        if s[i + k] != p[k] {
            assert(s@.subrange(i as int, i + p.len())[k as int] != p@[k as int]);
            return false;
        }
        k = k + 1;
    }
    assert(s@.subrange(i as int, i + p.len()) =~= p@);
    true
}

/// The first index at or after `from` where `p` occurs in `s`.
pub fn bytes_find_from(s: &[u8], p: &[u8], from: usize) -> (r: Option<usize>)
    ensures
        r matches Some(k) ==> find_from(s@, p@, from as int) == Some(k as int),
        r is None ==> find_from(s@, p@, from as int) is None,
{
    let mut i = from;
    while i <= s.len() && p.len() <= s.len() - i
        invariant
            from <= i,
            find_from(s@, p@, from as int) == find_from(s@, p@, i as int),
        decreases s.len() + 1 - i,
    {
        if bytes_match_at(s, p, i) {
            return Some(i);
        }
        assert(p@.len() > 0) by {
            if p@.len() == 0 {
                assert(s@.subrange(i as int, i as int) =~= p@);
            }
        }
        i = i + 1;
    }
    None
}

/// An ASCII byte of a valid UTF-8 sequence starts a character.
pub proof fn lemma_ascii_byte_is_boundary(bytes: Seq<u8>, i: int)
    requires
        vstd::utf8::valid_utf8(bytes),
        0 <= i < bytes.len(),
        bytes[i] < 0x80,
    ensures
        vstd::utf8::is_char_boundary(bytes, i),
    decreases bytes.len(),
{
    if i > 0 {
        let w = vstd::utf8::length_of_first_scalar(bytes);
        assert(1 <= w <= 4);
        assert(i >= w) by {
            if i < w {
                assert(vstd::utf8::is_continuation_byte(bytes[i]));
            }
        }
        let tail = vstd::utf8::pop_first_scalar(bytes);
        assert(tail[i - w] == bytes[i]);
        lemma_ascii_byte_is_boundary(tail, i - w);
    }
}

/// A character boundary before a cut point stays one in the part before the cut.
pub proof fn lemma_boundary_in_prefix(bytes: Seq<u8>, i: int, j: int)
    requires
        vstd::utf8::valid_utf8(bytes),
        0 <= i <= j,
        vstd::utf8::is_char_boundary(bytes, i),
        vstd::utf8::is_char_boundary(bytes, j),
    ensures
        vstd::utf8::valid_utf8(bytes.subrange(0, j)),
        vstd::utf8::is_char_boundary(bytes.subrange(0, j), i),
    decreases bytes.len(),
{
    vstd::utf8::valid_utf8_split(bytes, j);
    if i > 0 {
        let pre = bytes.subrange(0, j);
        let w = vstd::utf8::length_of_first_scalar(bytes);
        let tail = vstd::utf8::pop_first_scalar(bytes);
        assert(j >= w && i >= w) by {
            reveal_with_fuel(vstd::utf8::is_char_boundary, 2);
        }
        assert(pre.subrange(0, w) =~= bytes.subrange(0, w));
        assert(pre[0] == bytes[0]);
        assert(w <= 1 || pre[1] == bytes[1]);
        assert(w <= 2 || pre[2] == bytes[2]);
        assert(w <= 3 || pre[3] == bytes[3]);
        assert(vstd::utf8::length_of_first_scalar(pre) == w);
        assert(vstd::utf8::pop_first_scalar(pre) =~= tail.subrange(0, j - w));
        lemma_boundary_in_prefix(tail, i - w, j - w);
    }
}

/// The index just past an ASCII byte of a valid UTF-8 sequence starts a character
/// (or is the end).
pub proof fn lemma_after_ascii_is_boundary(bytes: Seq<u8>, i: int)
    requires
        vstd::utf8::valid_utf8(bytes),
        0 <= i < bytes.len(),
        bytes[i] < 0x80,
    ensures
        vstd::utf8::is_char_boundary(bytes, i + 1),
    decreases bytes.len(),
{
    let w = vstd::utf8::length_of_first_scalar(bytes);
    let tail = vstd::utf8::pop_first_scalar(bytes);
    reveal_with_fuel(vstd::utf8::is_char_boundary, 2);
    if i == 0 {
        assert(w == 1);
    } else {
        lemma_ascii_byte_is_boundary(bytes, i);
        assert(i >= w) by {
            reveal_with_fuel(vstd::utf8::is_char_boundary, 2);
        }
        assert(tail[i - w] == bytes[i]);
        lemma_after_ascii_is_boundary(tail, i - w);
    }
}

} // verus!
