//! The semantic filter's exchange with the language model: the question asked
//! about a list of candidates, and the reading of its answer.
use vstd::prelude::*;
use crate::text::{chars_concat, chars_of, string_of};

verus! {

// ── Numbers as text ─────────────────────────────────────────────────────────

pub open spec fn digit_char(d: nat) -> char {
    (('0' as u32) + d) as char
}

/// The decimal digits of `n`, most significant first.
pub open spec fn decimal(n: nat) -> Seq<char>
    decreases n,
{
    if n < 10 {
        seq![digit_char(n)]
    } else {
        decimal(n / 10) + seq![digit_char(n % 10)]
    }
}

/// The decimal digits of `n`.
pub fn decimal_chars(n: usize) -> (r: Vec<char>)
    ensures
        r@ == decimal(n as nat),
    decreases n,
{
    let d = n % 10;
    let c = char_for_digit(d);
    if n < 10 {
        let mut v: Vec<char> = Vec::new();
        v.push(c);
        assert(v@ =~= seq![digit_char(n as nat)]);
        v
    } else {
        let mut v = decimal_chars(n / 10);
        v.push(c);
        v
    }
}

fn char_for_digit(d: usize) -> (c: char)
    requires
        d < 10,
    ensures
        c == digit_char(d as nat),
{
    if d == 0 { '0' } else if d == 1 { '1' } else if d == 2 { '2' } else if d == 3 { '3' }
    else if d == 4 { '4' } else if d == 5 { '5' } else if d == 6 { '6' } else if d == 7 { '7' }
    else if d == 8 { '8' } else { '9' }
}

// ── The question ────────────────────────────────────────────────────────────

pub open spec fn candidate_views(c: Seq<(&str, Option<&str>)>) -> Seq<(Seq<char>, Option<Seq<char>>)> {
    c.map_values(|x: (&str, Option<&str>)| (x.0@, match x.1 {
        Some(b) => Some(b@),
        None => None,
    }))
}

/// One candidate's line: its index, its name, and its brand in brackets.
pub open spec fn candidate_line(i: nat, name: Seq<char>, brand: Option<Seq<char>>) -> Seq<char> {
    match brand {
        Some(b) => decimal(i) + ": "@ + name + " ("@ + b + ")"@,
        None => decimal(i) + ": "@ + name,
    }
}

/// The candidates' lines joined by line feeds.
pub open spec fn candidate_list(c: Seq<(Seq<char>, Option<Seq<char>>)>) -> Seq<char>
    decreases c.len(),
{
    if c.len() == 0 {
        Seq::empty()
    } else if c.len() == 1 {
        candidate_line(0, c[0].0, c[0].1)
    } else {
        candidate_list(c.drop_last()) + "\n"@ + candidate_line(
            (c.len() - 1) as nat,
            c.last().0,
            c.last().1,
        )
    }
}

/// The closing instructions of the question.
pub open spec fn prompt_tail() -> Seq<char> {
    "\n\nWhich product indices (0-based) are a good semantic match? Reply with ONLY a JSON array of integers, e.g. [0,3,7]. Return [] if none match."@
}

/// The question about the candidates for a query.
pub open spec fn prompt_text(query: Seq<char>, c: Seq<(Seq<char>, Option<Seq<char>>)>) -> Seq<char> {
    "User is looking for: \""@ + query + "\"\n\nProducts:\n"@ + candidate_list(c) + prompt_tail()
}

/// The question asking which candidates match the query; `None` when there
/// are no candidates (nothing to ask).
pub fn build_prompt(query: &str, candidates: &[(&str, Option<&str>)]) -> (r: Option<String>)
    ensures
        candidates@.len() == 0 ==> r is None,
        candidates@.len() > 0 ==> (r matches Some(p) && p@ == prompt_text(
            query@,
            candidate_views(candidates@),
        )),
{
    if candidates.len() == 0 {
        return None;
    }
    let ghost cv = candidate_views(candidates@);
    let nl = chars_of("\n");
    let mut list: Vec<char> = Vec::new();
    let mut i: usize = 0;
    assert(cv.take(0) =~= Seq::<(Seq<char>, Option<Seq<char>>)>::empty());
    while i < candidates.len()
        invariant
            i <= candidates@.len(),
            cv == candidate_views(candidates@),
            nl@ == "\n"@,
            list@ == candidate_list(cv.take(i as int)),
        decreases candidates@.len() - i,
    {
        let (name, brand) = candidates[i];
        let mut line = chars_concat(&decimal_chars(i), &chars_of(": "));
        line = chars_concat(&line, &chars_of(name));
        match brand {
            Some(b) => {
                line = chars_concat(&line, &chars_of(" ("));
                line = chars_concat(&line, &chars_of(b));
                line = chars_concat(&line, &chars_of(")"));
            },
            None => {},
        }
        assert(line@ == candidate_line(i as nat, cv[i as int].0, cv[i as int].1));
        let ghost t = cv.take(i + 1);
        assert(t.drop_last() =~= cv.take(i as int));
        if i == 0 {
            list = line;
        } else {
            list = chars_concat(&chars_concat(&list, &nl), &line);
        }
        i = i + 1;
    }
    assert(cv.take(cv.len() as int) =~= cv);
    let mut p = chars_concat(&chars_of("User is looking for: \""), &chars_of(query));
    p = chars_concat(&p, &chars_of("\"\n\nProducts:\n"));
    p = chars_concat(&p, &list);
    p = chars_concat(
        &p,
        &chars_of(
            "\n\nWhich product indices (0-based) are a good semantic match? Reply with ONLY a JSON array of integers, e.g. [0,3,7]. Return [] if none match.",
        ),
    );
    Some(string_of(&p))
}

// ── The answer ──────────────────────────────────────────────────────────────

/// What `serde_json::from_str::<Vec<usize>>` gives for the text (`None`: an error).
pub uninterp spec fn json_index_list(text: Seq<char>) -> Option<Seq<usize>>;

/// Parses a JSON array of indices with `serde_json`; the contract claims only
/// that the outcome is `json_index_list(text)`.
#[verifier::external_body]
fn parse_index_list(text: &str) -> (r: Option<Vec<usize>>)
    ensures
        match r {
            Some(v) => json_index_list(text@) == Some(v@),
            None => json_index_list(text@) is None,
        },
{
    serde_json::from_str::<Vec<usize>>(text).ok()
}

/// Every index below `count`, in order: the filter's answer when it has no
/// usable answer from the model.
pub open spec fn all_indices(count: nat) -> Seq<usize> {
    Seq::new(count, |i: int| i as usize)
}

/// The indices in the answer that are below `count`, in order; every index
/// below `count` when the answer is not a JSON array of indices.
pub open spec fn answer_indices(text: Seq<char>, count: nat) -> Seq<usize> {
    match json_index_list(text) {
        Some(v) => v.filter(|i: usize| i < count),
        None => all_indices(count),
    }
}

/// Every index below `count`.
fn every_index(count: usize) -> (r: Vec<usize>)
    ensures
        r@ == all_indices(count as nat),
{
    let mut out: Vec<usize> = Vec::new();
    let mut i: usize = 0;
    while i < count
        invariant
            i <= count,
            out@ == all_indices(i as nat),
        decreases count - i,
    {
        out.push(i);
        i = i + 1;
        assert(out@ =~= all_indices(i as nat));
    }
    out
}

/// Reads the model's answer: the candidate indices it names that exist, or
/// every candidate's index when the answer is not a JSON list of indices.
pub fn semantic_indices(text: &str, count: usize) -> (r: Vec<usize>)
    ensures
        r@ == answer_indices(text@, count as nat),
{
    let parsed = match parse_index_list(text) {
        Some(v) => v,
        None => return every_index(count),
    };
    let ghost pred = |i: usize| i < count;
    let mut out: Vec<usize> = Vec::new();
    let mut k: usize = 0;
    assert(parsed@.take(0).filter(pred) =~= Seq::<usize>::empty()) by {
        reveal(Seq::filter);
    }
    while k < parsed.len()
        invariant
            k <= parsed@.len(),
            pred == (|i: usize| i < count),
            out@ == parsed@.take(k as int).filter(pred),
        decreases parsed@.len() - k,
    {
        assert(parsed@.take(k + 1).drop_last() =~= parsed@.take(k as int));
        reveal(Seq::filter);
        if parsed[k] < count {
            out.push(parsed[k]);
        }
        k = k + 1;
    }
    assert(parsed@.take(parsed@.len() as int) =~= parsed@);
    out
}

/// What the filter answers for `count` candidates, given the model's text
/// (`None`: the request or its reply failed): every index on a failure or an
/// unusable answer, else the existing indices the answer names.
pub open spec fn filter_answer(reply: Option<Seq<char>>, count: nat) -> Seq<usize> {
    match reply {
        None => all_indices(count),
        Some(t) => answer_indices(t, count),
    }
}

/// The filter's answer from the outcome of the request: every index when it
/// failed (`None`), else the reading of the model's text.
pub fn filter_outcome(reply: Option<&str>, count: usize) -> (r: Vec<usize>)
    ensures
        r@ == filter_answer(
            match reply {
                Some(t) => Some(t@),
                None => None,
            },
            count as nat,
        ),
{
    match reply {
        None => every_index(count),
        Some(t) => semantic_indices(t, count),
    }
}

/// The text of the first part of the first candidate reply (empty when there
/// is none); `replies` holds each reply's parts' texts.
pub fn first_reply_text(replies: &Vec<Vec<String>>) -> (r: String)
    ensures
        r@ == if replies@.len() > 0 && replies@[0]@.len() > 0 {
            replies@[0]@[0]@
        } else {
            Seq::<char>::empty()
        },
{
    if replies.len() > 0 && replies[0].len() > 0 {
        replies[0][0].clone()
    } else {
        String::new()
    }
}

} // verus!
