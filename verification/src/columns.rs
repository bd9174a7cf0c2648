//! Cells of the retailers' price lists: reference units, decimal numbers, and
//! finding columns by their (loosely written) header names.
use vstd::prelude::*;
use crate::text::{
    all_ascii, ascii_lower, ascii_upper, lemma_trim_end_prefix, lemma_trim_start_suffix, trim_end,
    trim_start, unicode_whitespace,
    chars_equal, chars_of, chars_slice, chars_starts_with, starts_with, string_of, to_lowercase,
    to_uppercase, trim, trim_chars, unicode_lowercase, unicode_uppercase,
};

verus! {

// ── Reference units ─────────────────────────────────────────────────────────

pub open spec fn is_ascii_letter(c: char) -> bool {
    ('a' <= c && c <= 'z') || ('A' <= c && c <= 'Z')
}

/// `s` from its first ASCII letter on (empty when it has none).
pub open spec fn from_first_letter(s: Seq<char>) -> Seq<char>
    decreases s.len(),
{
    if s.len() == 0 || is_ascii_letter(s[0]) {
        s
    } else {
        from_first_letter(s.drop_first())
    }
}

/// The unit word of a raw unit cell: from the first ASCII letter, trimmed, uppercased.
pub open spec fn unit_word(raw: Seq<char>) -> Seq<char> {
    unicode_uppercase(trim(from_first_letter(raw)))
}

/// The reference unit ("l", "kg" or "kom") a unit word stands for.
pub open spec fn unit_of_word(w: Seq<char>) -> Option<Seq<char>> {
    if w == "ML"@ || w == "CL"@ || w == "DL"@ || w == "L"@ || w == "LI"@ || w == "LIT"@ || w
        == "LT"@ {
        Some("l"@)
    } else if w == "G"@ || w == "GR"@ || w == "GRM"@ || w == "DAG"@ || w == "KG"@ {
        Some("kg"@)
    } else if w == "KOM"@ || w == "KO"@ || w == "KOS"@ || w == "KS"@ || w == "KOMAD"@ || w
        == "PAK"@ {
        Some("kom"@)
    } else {
        None
    }
}

pub fn is_ascii_letter_exec(c: char) -> (b: bool)
    ensures
        b == is_ascii_letter(c),
{
    ('a' <= c && c <= 'z') || ('A' <= c && c <= 'Z')
}

/// The index of the first ASCII letter of `s` (its length when none).
pub fn first_letter_index(s: &[char]) -> (i: usize)
    ensures
        i <= s.len(),
        from_first_letter(s@) == s@.subrange(i as int, s.len() as int),
{
    let mut i: usize = 0;
    assert(s@.subrange(0, s.len() as int) =~= s@);
    while i < s.len() && !is_ascii_letter_exec(s[i])
        invariant
            i <= s.len(),
            from_first_letter(s@) == from_first_letter(s@.subrange(i as int, s.len() as int)),
        decreases s.len() - i,
    {
        assert(s@.subrange(i as int, s.len() as int).drop_first() =~= s@.subrange(
            i + 1,
            s.len() as int,
        ));
        i = i + 1;
    }
    i
}

/// Is `w` exactly one of `options`?
pub fn equals_any(w: &[char], options: &[&str]) -> (b: bool)
    ensures
        b == exists|i: int| 0 <= i < options@.len() && w@ == (#[trigger] options@[i])@,
{
    let mut i: usize = 0;
    while i < options.len()
        invariant
            i <= options.len(),
            forall|j: int| 0 <= j < i ==> w@ != (#[trigger] options@[j])@,
        decreases options.len() - i,
    {
        let o = chars_of(options[i]);
        if chars_equal(w, &o) {
            return true;
        }
        i = i + 1;
    }
    false
}

/// Normalises a raw unit cell to "l", "kg" or "kom": leading digits and
/// punctuation are skipped ("1,5l", "30komad"), the rest is trimmed and
/// compared in uppercase with the known unit words.
pub fn normalize_unit(raw: &str) -> (r: Option<&'static str>)
    ensures
        r matches Some(u) ==> unit_of_word(unit_word(raw@)) == Some(u@),
        r is None ==> unit_of_word(unit_word(raw@)) is None,
{
    let rc = chars_of(raw);
    let start = first_letter_index(&rc);
    let part = chars_slice(&rc, start, rc.len());
    let trimmed = trim_chars(&part);
    let t = string_of(&trimmed);
    let up = to_uppercase(t.as_str());
    let w = chars_of(up.as_str());
    let litres: [&str; 7] = ["ML", "CL", "DL", "L", "LI", "LIT", "LT"];
    let kilos: [&str; 5] = ["G", "GR", "GRM", "DAG", "KG"];
    let pieces: [&str; 6] = ["KOM", "KO", "KOS", "KS", "KOMAD", "PAK"];
    let is_l = equals_any(&w, &litres);
    let is_kg = equals_any(&w, &kilos);
    let is_kom = equals_any(&w, &pieces);
    proof {
        assert(litres@ =~= seq!["ML", "CL", "DL", "L", "LI", "LIT", "LT"]);
        assert(kilos@ =~= seq!["G", "GR", "GRM", "DAG", "KG"]);
        assert(pieces@ =~= seq!["KOM", "KO", "KOS", "KS", "KOMAD", "PAK"]);
        let wv = w@;
        if wv == "ML"@ { assert(wv == litres@[0]@); }
        if wv == "CL"@ { assert(wv == litres@[1]@); }
        if wv == "DL"@ { assert(wv == litres@[2]@); }
        if wv == "L"@ { assert(wv == litres@[3]@); }
        if wv == "LI"@ { assert(wv == litres@[4]@); }
        if wv == "LIT"@ { assert(wv == litres@[5]@); }
        if wv == "LT"@ { assert(wv == litres@[6]@); }
        if wv == "G"@ { assert(wv == kilos@[0]@); }
        if wv == "GR"@ { assert(wv == kilos@[1]@); }
        if wv == "GRM"@ { assert(wv == kilos@[2]@); }
        if wv == "DAG"@ { assert(wv == kilos@[3]@); }
        if wv == "KG"@ { assert(wv == kilos@[4]@); }
        if wv == "KOM"@ { assert(wv == pieces@[0]@); }
        if wv == "KO"@ { assert(wv == pieces@[1]@); }
        if wv == "KOS"@ { assert(wv == pieces@[2]@); }
        if wv == "KS"@ { assert(wv == pieces@[3]@); }
        if wv == "KOMAD"@ { assert(wv == pieces@[4]@); }
        if wv == "PAK"@ { assert(wv == pieces@[5]@); }
    }
    if is_l {
        Some("l")
    } else if is_kg {
        Some("kg")
    } else if is_kom {
        Some("kom")
    } else {
        None
    }
}

// ── Cells ───────────────────────────────────────────────────────────────────

/// The trimmed cell `idx` of a row, absent when out of range or blank.
pub open spec fn field_spec(row: Seq<Seq<char>>, idx: int) -> Option<Seq<char>> {
    if 0 <= idx < row.len() && trim(row[idx]).len() > 0 {
        Some(trim(row[idx]))
    } else {
        None
    }
}

pub open spec fn string_views(s: Seq<String>) -> Seq<Seq<char>> {
    s.map_values(|x: String| x@)
}

/// The trimmed cell at `idx`, or `None` when the row is shorter or the cell blank.
pub fn field(row: &Vec<String>, idx: usize) -> (r: Option<String>)
    ensures
        r matches Some(s) ==> field_spec(string_views(row@), idx as int) == Some(s@),
        r is None ==> field_spec(string_views(row@), idx as int) is None,
{
    if idx >= row.len() {
        return None;
    }
    let t = trim_chars(&chars_of(row[idx].as_str()));
    assert(string_views(row@)[idx as int] == row@[idx as int]@);
    if t.len() == 0 {
        None
    } else {
        Some(string_of(&t))
    }
}

/// `s` with each `,` replaced by `.`.
pub open spec fn comma_to_dot(s: Seq<char>) -> Seq<char> {
    s.map_values(|c: char| if c == ',' { '.' } else { c })
}

/// The text of a decimal cell as a number parser reads it: trimmed, with
/// `,` as well as `.` accepted as the decimal separator.
pub fn decimal_text(s: &str) -> (r: String)
    ensures
        r@ == comma_to_dot(trim(s@)),
{
    let t = trim_chars(&chars_of(s));
    let mut out: Vec<char> = Vec::new();
    let mut i: usize = 0;
    while i < t.len()
        invariant
            i <= t.len(),
            out@ == comma_to_dot(t@.subrange(0, i as int)),
        decreases t.len() - i,
    {
        let c = t[i];
        out.push(if c == ',' { '.' } else { c });
        i = i + 1;
        assert(out@ =~= comma_to_dot(t@.subrange(0, i as int)));
    }
    assert(t@.subrange(0, t@.len() as int) =~= t@);
    string_of(&out)
}

// ── Column lookup by header name ────────────────────────────────────────────

/// `s` without the leading run of `c`.
pub open spec fn strip_start(s: Seq<char>, c: char) -> Seq<char>
    decreases s.len(),
{
    if s.len() > 0 && s[0] == c {
        strip_start(s.drop_first(), c)
    } else {
        s
    }
}

/// `s` without the trailing run of `c`.
pub open spec fn strip_end(s: Seq<char>, c: char) -> Seq<char>
    decreases s.len(),
{
    if s.len() > 0 && s.last() == c {
        strip_end(s.drop_last(), c)
    } else {
        s
    }
}

/// `s` with spaces and hyphens turned into underscores.
pub open spec fn underscored(s: Seq<char>) -> Seq<char> {
    s.map_values(|c: char| if c == ' ' || c == '-' { '_' } else { c })
}

/// A header name as compared: trimmed, without surrounding quotes, lowercased,
/// with spaces and hyphens as underscores.
pub open spec fn header_key(s: Seq<char>) -> Seq<char> {
    underscored(unicode_lowercase(strip_end(strip_start(trim(s), '"'), '"')))
}

/// `h` is `needle` followed by optional underscores and then `(` (a unit or
/// currency suffix such as "mpc_(eur)").
pub open spec fn prefix_match(h: Seq<char>, needle: Seq<char>) -> bool {
    starts_with(h, needle) && starts_with(
        strip_start(h.subrange(needle.len() as int, h.len() as int), '_'),
        "("@,
    )
}

/// The first index at or after `i` whose key `pred` accepts.
pub open spec fn first_where(keys: Seq<Seq<char>>, pred: spec_fn(Seq<char>) -> bool, i: int) -> Option<int>
    decreases keys.len() - i,
{
    if i < 0 || i >= keys.len() {
        None
    } else if pred(keys[i]) {
        Some(i)
    } else {
        first_where(keys, pred, i + 1)
    }
}

/// What `first_where` finds is in range and accepted, and nothing before it is.
pub proof fn lemma_first_where(keys: Seq<Seq<char>>, pred: spec_fn(Seq<char>) -> bool, i: int)
    requires
        0 <= i,
    ensures
        first_where(keys, pred, i) matches Some(k) ==> i <= k < keys.len() && pred(keys[k])
            && forall|j: int| i <= j < k ==> !pred(#[trigger] keys[j]),
        first_where(keys, pred, i) is None ==> forall|j: int|
            i <= j < keys.len() ==> !pred(#[trigger] keys[j]),
    decreases keys.len() - i,
{
    if i < keys.len() && !pred(keys[i]) {
        lemma_first_where(keys, pred, i + 1);
        assert forall|j: int| i <= j < keys.len() && first_where(keys, pred, i) is None implies !pred(
            #[trigger] keys[j],
        ) by {
            if j > i {
            }
        }
    }
}

pub open spec fn equals_key(needle: Seq<char>) -> spec_fn(Seq<char>) -> bool {
    |h: Seq<char>| h == needle
}

pub open spec fn prefixed_by(needle: Seq<char>) -> spec_fn(Seq<char>) -> bool {
    |h: Seq<char>| prefix_match(h, needle)
}

/// The column for the first candidate name that some header matches, exactly
/// or else as a prefix before a parenthesised suffix; `keys` are the headers'
/// keys.
pub open spec fn column_of(keys: Seq<Seq<char>>, cands: Seq<Seq<char>>) -> Option<int>
    decreases cands.len(),
{
    if cands.len() == 0 {
        None
    } else {
        let n = header_key(cands[0]);
        match first_where(keys, equals_key(n), 0) {
            Some(i) => Some(i),
            None => match first_where(keys, prefixed_by(n), 0) {
                Some(i) => Some(i),
                None => column_of(keys, cands.drop_first()),
            },
        }
    }
}

pub open spec fn str_views(s: Seq<&str>) -> Seq<Seq<char>> {
    s.map_values(|x: &str| x@)
}

/// The keys of a row of headers.
pub open spec fn header_keys(headers: Seq<Seq<char>>) -> Seq<Seq<char>> {
    headers.map_values(|h: Seq<char>| header_key(h))
}

/// The key of one header name.
pub fn header_key_of(s: &str) -> (r: Vec<char>)
    ensures
        r@ == header_key(s@),
{
    let t = trim_chars(&chars_of(s));
    let mut i: usize = 0;
    assert(t@.subrange(0, t@.len() as int) =~= t@);
    while i < t.len() && t[i] == '"'
        invariant
            i <= t.len(),
            strip_start(t@, '"') == strip_start(t@.subrange(i as int, t@.len() as int), '"'),
        decreases t.len() - i,
    {
        assert(t@.subrange(i as int, t@.len() as int).drop_first() =~= t@.subrange(
            i + 1,
            t@.len() as int,
        ));
        i = i + 1;
    }
    let mut j: usize = t.len();
    let ghost u = t@.subrange(i as int, t@.len() as int);
    assert(u.subrange(0, u.len() as int) =~= u);
    while j > i && t[j - 1] == '"'
        invariant
            i <= j <= t.len(),
            u == t@.subrange(i as int, t@.len() as int),
            strip_end(u, '"') == strip_end(t@.subrange(i as int, j as int), '"'),
        decreases j,
    {
        assert(t@.subrange(i as int, j as int).drop_last() =~= t@.subrange(i as int, j - 1));
        j = j - 1;
    }
    let core = chars_slice(&t, i, j);
    let lower = to_lowercase(string_of(&core).as_str());
    let lc = chars_of(lower.as_str());
    let mut out: Vec<char> = Vec::new();
    let mut k: usize = 0;
    while k < lc.len()
        invariant
            k <= lc.len(),
            out@ == underscored(lc@.subrange(0, k as int)),
        decreases lc.len() - k,
    {
        let c = lc[k];
        out.push(if c == ' ' || c == '-' { '_' } else { c });
        k = k + 1;
        assert(out@ =~= underscored(lc@.subrange(0, k as int)));
    }
    assert(lc@.subrange(0, lc@.len() as int) =~= lc@);
    out
}

/// Does the header key `h` start with `needle` followed by `_`s and `(`?
pub fn prefix_match_exec(h: &[char], needle: &[char]) -> (b: bool)
    ensures
        b == prefix_match(h@, needle@),
{
    if !chars_starts_with(h, needle) {
        return false;
    }
    let mut i = needle.len();
    let ghost rest = h@.subrange(needle@.len() as int, h@.len() as int);
    assert(rest.subrange(0, rest.len() as int) =~= rest);
    while i < h.len() && h[i] == '_'
        invariant
            needle@.len() <= i <= h.len(),
            rest == h@.subrange(needle@.len() as int, h@.len() as int),
            strip_start(rest, '_') == strip_start(h@.subrange(i as int, h@.len() as int), '_'),
        decreases h.len() - i,
    {
        assert(h@.subrange(i as int, h@.len() as int).drop_first() =~= h@.subrange(
            i + 1,
            h@.len() as int,
        ));
        i = i + 1;
    }
    let ghost tail = h@.subrange(i as int, h@.len() as int);
    assert(strip_start(tail, '_') == tail);
    proof {
        reveal_strlit("(");
        assert("("@ =~= seq!['(']);
        if i < h.len() {
            assert(tail.subrange(0, 1) =~= seq![h@[i as int]]);
            if h@[i as int] == '(' {
                assert(tail.subrange(0, 1) =~= "("@);
            }
            if tail.subrange(0, 1) == "("@ {
                assert(tail.subrange(0, 1)[0] == h@[i as int]);
            }
        }
    }
    let b = i < h.len() && h[i] == '(';
    assert(strip_start(rest, '_') == tail);
    assert(b == starts_with(tail, "("@));
    b
}

/// Finds a column by trying candidate names in order. Header names and
/// candidates are compared trimmed, unquoted, lowercased, with spaces and
/// hyphens as underscores; a header also matches a candidate it starts with
/// when what follows is optional underscores and a `(` ("MPC (EUR)" matches
/// "mpc").
pub fn col(headers: &Vec<String>, candidates: &[&str]) -> (r: Option<usize>)
    ensures
        r matches Some(i) ==> column_of(header_keys(string_views(headers@)), str_views(candidates@))
            == Some(i as int),
        r is None ==> column_of(header_keys(string_views(headers@)), str_views(candidates@)) is None,
{
    let ghost keys = header_keys(string_views(headers@));
    let mut lower: Vec<Vec<char>> = Vec::new();
    let mut i: usize = 0;
    while i < headers.len()
        invariant
            i <= headers.len(),
            lower@.len() == i,
            keys == header_keys(string_views(headers@)),
            forall|j: int| 0 <= j < i ==> (#[trigger] lower@[j])@ == keys[j],
        decreases headers.len() - i,
    {
        lower.push(header_key_of(headers[i].as_str()));
        i = i + 1;
    }
    let ghost cs = str_views(candidates@);
    let mut c: usize = 0;
    assert(cs.subrange(0, cs.len() as int) =~= cs);
    while c < candidates.len()
        invariant
            c <= candidates.len(),
            lower@.len() == headers@.len(),
            keys == header_keys(string_views(headers@)),
            keys.len() == headers@.len(),
            forall|j: int| 0 <= j < lower@.len() ==> (#[trigger] lower@[j])@ == keys[j],
            cs == str_views(candidates@),
            column_of(keys, cs) == column_of(keys, cs.subrange(c as int, cs.len() as int)),
        decreases candidates.len() - c,
    {
        let ghost sub = cs.subrange(c as int, cs.len() as int);
        assert(sub[0] == candidates@[c as int]@);
        assert(sub.drop_first() =~= cs.subrange(c + 1, cs.len() as int));
        let needle = header_key_of(candidates[c]);
        assert(needle@ == header_key(sub[0]));
        let mut k: usize = 0;
        while k < lower.len()
            invariant
                k <= lower@.len(),
                lower@.len() == keys.len(),
                forall|j: int| 0 <= j < lower@.len() ==> (#[trigger] lower@[j])@ == keys[j],
                first_where(keys, equals_key(needle@), 0) == first_where(
                    keys,
                    equals_key(needle@),
                    k as int,
                ),
                sub.len() > 0,
                needle@ == header_key(sub[0]),
                keys == header_keys(string_views(headers@)),
                cs == str_views(candidates@),
                column_of(keys, cs) == column_of(keys, sub),
            decreases lower@.len() - k,
        {
            if chars_equal(&lower[k], &needle) {
                assert(first_where(keys, equals_key(needle@), k as int) == Some(k as int));
                assert(header_key(sub[0]) == needle@);
                assert(first_where(keys, equals_key(header_key(sub[0])), 0) == Some(k as int));
                assert(column_of(keys, sub) == Some(k as int));
                return Some(k);
            }
            k = k + 1;
        }
        assert(first_where(keys, equals_key(needle@), lower@.len() as int) is None);
        let mut k: usize = 0;
        while k < lower.len()
            invariant
                k <= lower@.len(),
                lower@.len() == keys.len(),
                forall|j: int| 0 <= j < lower@.len() ==> (#[trigger] lower@[j])@ == keys[j],
                first_where(keys, prefixed_by(needle@), 0) == first_where(
                    keys,
                    prefixed_by(needle@),
                    k as int,
                ),
                first_where(keys, equals_key(needle@), 0) is None,
                sub.len() > 0,
                needle@ == header_key(sub[0]),
                keys == header_keys(string_views(headers@)),
                cs == str_views(candidates@),
                column_of(keys, cs) == column_of(keys, sub),
            decreases lower@.len() - k,
        {
            if prefix_match_exec(&lower[k], &needle) {
                assert(first_where(keys, prefixed_by(needle@), k as int) == Some(k as int));
                assert(header_key(sub[0]) == needle@);
                assert(column_of(keys, sub) == Some(k as int));
                return Some(k);
            }
            k = k + 1;
        }
        assert(first_where(keys, prefixed_by(needle@), lower@.len() as int) is None);
        assert(column_of(keys, sub) == column_of(keys, sub.drop_first()));
        c = c + 1;
    }
    None
}

// ── Laws ────────────────────────────────────────────────────────────────────

proof fn lemma_from_first_letter_prefix(prefix: Seq<char>, raw: Seq<char>)
    requires
        raw.len() > 0,
        is_ascii_letter(raw[0]),
        forall|i: int| 0 <= i < prefix.len() ==> !is_ascii_letter(#[trigger] prefix[i]),
    ensures
        from_first_letter(prefix + raw) == raw,
    decreases prefix.len(),
{
    if prefix.len() == 0 {
        assert(prefix + raw =~= raw);
    } else {
        assert((prefix + raw)[0] == prefix[0]);
        assert((prefix + raw).drop_first() =~= prefix.drop_first() + raw);
        assert forall|i: int| 0 <= i < prefix.drop_first().len() implies !is_ascii_letter(
            #[trigger] prefix.drop_first()[i],
        ) by {
            assert(prefix.drop_first()[i] == prefix[i + 1]);
        }
        lemma_from_first_letter_prefix(prefix.drop_first(), raw);
    }
}

/// Digits and punctuation in front of a unit word change nothing: a cell
/// reads as the same reference unit with them as without; and the reference
/// unit is "l", "kg", "kom" or none.
pub proof fn lemma_unit_prefix(prefix: Seq<char>, raw: Seq<char>)
    requires
        raw.len() > 0,
        is_ascii_letter(raw[0]),
        forall|i: int| 0 <= i < prefix.len() ==> !is_ascii_letter(#[trigger] prefix[i]),
    ensures
        unit_of_word(unit_word(prefix + raw)) == unit_of_word(unit_word(raw)),
        unit_of_word(unit_word(raw)) is None || unit_of_word(unit_word(raw)) == Some("l"@)
            || unit_of_word(unit_word(raw)) == Some("kg"@) || unit_of_word(unit_word(raw)) == Some(
            "kom"@,
        ),
{
    lemma_from_first_letter_prefix(prefix, raw);
    assert(from_first_letter(raw) == raw);
}

pub open spec fn lowered(s: Seq<char>) -> Seq<char> {
    s.map_values(|c: char| ascii_lower(c))
}

proof fn lemma_first_letter_lowered(x: Seq<char>)
    ensures
        from_first_letter(lowered(x)) == lowered(from_first_letter(x)),
        all_ascii(x) ==> all_ascii(from_first_letter(x)),
    decreases x.len(),
{
    if x.len() > 0 {
        assert(lowered(x)[0] == ascii_lower(x[0]));
        if !is_ascii_letter(x[0]) {
            assert(lowered(x).drop_first() =~= lowered(x.drop_first()));
            lemma_first_letter_lowered(x.drop_first());
            if all_ascii(x) {
                assert forall|i: int| 0 <= i < x.drop_first().len() implies (
                #[trigger] x.drop_first()[i] as u32) < 128 by {
                    assert(x.drop_first()[i] == x[i + 1]);
                }
            }
        }
    } else {
        assert(lowered(x) =~= x);
    }
}

proof fn lemma_trim_start_lowered(x: Seq<char>)
    ensures
        trim_start(lowered(x)) == lowered(trim_start(x)),
    decreases x.len(),
{
    if x.len() > 0 {
        assert(lowered(x)[0] == ascii_lower(x[0]));
        assert(unicode_whitespace(ascii_lower(x[0])) == unicode_whitespace(x[0]));
        if unicode_whitespace(x[0]) {
            assert(lowered(x).drop_first() =~= lowered(x.drop_first()));
            lemma_trim_start_lowered(x.drop_first());
        }
    } else {
        assert(lowered(x) =~= x);
    }
}

proof fn lemma_trim_end_lowered(x: Seq<char>)
    ensures
        trim_end(lowered(x)) == lowered(trim_end(x)),
    decreases x.len(),
{
    if x.len() > 0 {
        assert(lowered(x).last() == ascii_lower(x.last()));
        assert(unicode_whitespace(ascii_lower(x.last())) == unicode_whitespace(x.last()));
        if unicode_whitespace(x.last()) {
            assert(lowered(x).drop_last() =~= lowered(x.drop_last()));
            lemma_trim_end_lowered(x.drop_last());
        }
    } else {
        assert(lowered(x) =~= x);
    }
}

/// The letter case of an ASCII cell does not change its unit word, nor so the
/// reference unit it reads as.
pub proof fn lemma_unit_case(raw: Seq<char>)
    requires
        all_ascii(raw),
    ensures
        unit_word(lowered(raw)) == unit_word(raw),
        unit_of_word(unit_word(lowered(raw))) == unit_of_word(unit_word(raw)),
{
    let f = from_first_letter(raw);
    lemma_first_letter_lowered(raw);
    lemma_trim_start_lowered(f);
    lemma_trim_end_lowered(trim_start(f));
    let t = trim(f);
    assert(trim(lowered(f)) == lowered(t));
    lemma_trim_start_suffix(f);
    lemma_trim_end_prefix(trim_start(f));
    assert(all_ascii(t)) by {
        assert forall|i: int| 0 <= i < t.len() implies (#[trigger] t[i] as u32) < 128 by {
            let k = f.len() - trim_start(f).len();
            assert(t[i] == trim_start(f)[i]);
            assert(trim_start(f)[i] == f[k + i]);
        }
    }
    let lt = lowered(t);
    assert(all_ascii(lt)) by {
        assert forall|i: int| 0 <= i < lt.len() implies (#[trigger] lt[i] as u32) < 128 by {
            assert(lt[i] == ascii_lower(t[i]));
            assert((t[i] as u32) < 128);
        }
    }
    assert(lt.map_values(|c: char| ascii_upper(c)) =~= t.map_values(|c: char| ascii_upper(c))) by {
        assert forall|i: int| 0 <= i < t.len() implies ascii_upper(lt[i]) == ascii_upper(t[i]) by {
            assert(lt[i] == ascii_lower(t[i]));
        }
    }
}

} // verus!
