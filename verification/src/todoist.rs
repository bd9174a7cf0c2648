//! Shopping-list tasks and the metadata block embedded in their descriptions.
//!
//! The service keeps its state for a task as a JSON block at the end of the
//! task's description, after a sentinel, so that it stays out of the way in
//! the task list:
//!
//! ```text
//! Proizvod: ...
//! <!-- fetchly:{"priority":"immediate","blacklisted_brands":["brand"]} -->
//! ```
//!
//! Here the block is found and framed; (de)serialising the JSON is the
//! caller's part.
use vstd::prelude::*;
use crate::text::{
    chars_concat, chars_find, chars_find_from, chars_of, chars_slice, contains, first_index,
    find_from, lemma_find_from, lemma_find_from_exact, occurs_at, string_of, trim_end,
    trim_end_index,
};

verus! {

/// What opens the metadata block.
pub open spec fn meta_prefix() -> Seq<char> {
    "<!-- fetchly:"@
}

/// What closes the metadata block.
pub open spec fn meta_suffix() -> Seq<char> {
    " -->"@
}

/// The service's state for one task.
#[derive(Clone, Debug)]
pub struct TaskMeta {
    pub priority: String,
    pub blacklisted_brands: Vec<String>,
}

pub open spec fn string_views(s: Seq<String>) -> Seq<Seq<char>> {
    s.map_values(|x: String| x@)
}

impl TaskMeta {
    pub fn new(priority: &str, blacklisted_brands: Vec<String>) -> (r: Self)
        ensures
            r.priority@ == priority@,
            r.blacklisted_brands@ == blacklisted_brands@,
    {
        TaskMeta { priority: priority.to_owned(), blacklisted_brands }
    }
}

/// The metadata with its blacklisted brands replaced.
pub fn with_blacklist(meta: TaskMeta, brands: Vec<String>) -> (r: TaskMeta)
    ensures
        r.priority@ == meta.priority@,
        r.blacklisted_brands@ == brands@,
{
    TaskMeta { priority: meta.priority, blacklisted_brands: brands }
}

/// The metadata with its priority replaced.
pub fn with_priority(meta: TaskMeta, priority: &str) -> (r: TaskMeta)
    ensures
        r.priority@ == priority@,
        r.blacklisted_brands@ == meta.blacklisted_brands@,
{
    TaskMeta { priority: priority.to_owned(), blacklisted_brands: meta.blacklisted_brands }
}

impl Default for TaskMeta {
    /// No priority and no blacklisted brands.
    fn default() -> (r: Self)
        ensures
            r.priority@ == Seq::<char>::empty(),
            r.blacklisted_brands@ == Seq::<String>::empty(),
    {
        TaskMeta { priority: String::new(), blacklisted_brands: Vec::new() }
    }
}

/// A section of the shopping-list project.
#[derive(Clone, Debug)]
pub struct Section {
    pub id: String,
    pub name: String,
}

/// A task of the shopping-list project.
#[derive(Clone, Debug)]
pub struct Task {
    pub id: String,
    pub content: String,
    pub description: String,
    pub section_id: Option<String>,
}

/// The human-visible part (trailing whitespace removed) and the JSON text of
/// the metadata block of a description: the block starts at the first
/// `<!-- fetchly:` and its JSON ends at the first ` -->` after it.
pub open spec fn split_spec(d: Seq<char>) -> Option<(Seq<char>, Seq<char>)> {
    match first_index(d, meta_prefix()) {
        None => None,
        Some(i) => {
            let rest = d.subrange(i + meta_prefix().len(), d.len() as int);
            match first_index(rest, meta_suffix()) {
                None => None,
                Some(e) => Some((trim_end(d.subrange(0, i)), rest.subrange(0, e))),
            }
        },
    }
}

/// Finds the metadata block of a description: the human-visible text before
/// it (trailing whitespace removed) and the block's JSON text.
pub fn split_description(description: &str) -> (r: Option<(String, String)>)
    ensures
        match r {
            Some((h, j)) => split_spec(description@) == Some((h@, j@)),
            None => split_spec(description@) is None,
        },
{
    let d = chars_of(description);
    let prefix = chars_of("<!-- fetchly:");
    let suffix = chars_of(" -->");
    let i = match chars_find(&d, &prefix) {
        Some(i) => i,
        None => return None,
    };
    proof {
        lemma_find_from(d@, meta_prefix(), 0);
    }
    assert(prefix@ == meta_prefix());
    assert(i + prefix@.len() <= d@.len());
    assert(d@.len() == d.len());
    let start = i + prefix.len();
    let rest = chars_slice(&d, start, d.len());
    let e = match chars_find(&rest, &suffix) {
        Some(e) => e,
        None => return None,
    };
    proof {
        lemma_find_from(rest@, meta_suffix(), 0);
    }
    let json = chars_slice(&rest, 0, e);
    let end = trim_end_index(&d, i);
    let human = chars_slice(&d, 0, end);
    Some((string_of(&human), string_of(&json)))
}

/// The description with the given human-visible text and metadata JSON.
pub open spec fn framed(human: Seq<char>, json: Seq<char>) -> Seq<char> {
    human + "\n"@ + meta_prefix() + json + meta_suffix()
}

/// Builds a description from its human-visible text and the JSON of its
/// metadata: the text, a line break, then the metadata block.
pub fn build_description(human: &str, meta_json: &str) -> (r: String)
    ensures
        r@ == framed(human@, meta_json@),
{
    let a = chars_concat(&chars_of(human), &chars_of("\n"));
    let b = chars_concat(&a, &chars_of("<!-- fetchly:"));
    let c = chars_concat(&b, &chars_of(meta_json));
    let d = chars_concat(&c, &chars_of(" -->"));
    string_of(&d)
}

/// The human-visible text and metadata of a description, given what the
/// metadata block's JSON decodes to (`None`: no block, or undecodable JSON):
/// the whole description and default metadata when there is none.
pub fn resolve_description(description: &str, decoded: Option<TaskMeta>) -> (r: (String, TaskMeta))
    ensures
        match (split_spec(description@), decoded) {
            (Some((h, _)), Some(m)) => r.0@ == h && r.1 == m,
            _ => r.0@ == description@ && r.1.priority@ == Seq::<char>::empty()
                && r.1.blacklisted_brands@ == Seq::<String>::empty(),
        },
{
    match (split_description(description), decoded) {
        (Some((h, _)), Some(m)) => (h, m),
        _ => (description.to_owned(), TaskMeta::default()),
    }
}

/// The JSON text of a description's metadata block, if it has one.
pub fn meta_json(description: &str) -> (r: Option<String>)
    ensures
        match r {
            Some(j) => split_spec(description@) matches Some((_, j2)) && j2 == j@,
            None => split_spec(description@) is None,
        },
{
    match split_description(description) {
        Some((_, j)) => Some(j),
        None => None,
    }
}

// ── Tasks under management ──────────────────────────────────────────────────

/// The task carries a metadata block opening.
pub open spec fn is_managed(t: Task) -> bool {
    contains(t.description@, meta_prefix())
}

/// Keeps the tasks whose description carries the metadata sentinel (the ones
/// this service manages), in order.
pub fn managed_tasks(tasks: Vec<Task>) -> (r: Vec<Task>)
    ensures
        r@ == tasks@.filter(|t: Task| is_managed(t)),
{
    let ghost orig = tasks@;
    let ghost pred = |t: Task| is_managed(t);
    let prefix = chars_of("<!-- fetchly:");
    let mut rest = tasks;
    let mut r: Vec<Task> = Vec::new();
    let ghost n = orig.len();
    assert(orig.take(0).filter(pred) =~= Seq::<Task>::empty()) by {
        reveal(Seq::filter);
    }
    while rest.len() > 0
        invariant
            rest@.len() <= n,
            n == orig.len(),
            prefix@ == meta_prefix(),
            pred == (|t: Task| is_managed(t)),
            rest@ == orig.subrange(n - rest@.len(), n as int),
            r@ == orig.take(n - rest@.len()).filter(pred),
        decreases rest.len(),
    {
        let ghost m = n - rest@.len();
        let t = rest.remove(0);
        assert(orig.take(m + 1).drop_last() =~= orig.take(m));
        reveal(Seq::filter);
        let dc = chars_of(t.description.as_str());
        if crate::text::chars_contains(&dc, &prefix) {
            r.push(t);
        }
        assert(rest@ =~= orig.subrange(n - rest@.len(), n as int));
    }
    assert(orig.take(n as int) =~= orig);
    r
}

// ── Laws ────────────────────────────────────────────────────────────────────

/// A description built from a text and a metadata JSON gives them back: the
/// text without its trailing whitespace, and the JSON, provided the text does
/// not itself open a metadata block and the JSON does not close one early.
pub proof fn lemma_split_framed(human: Seq<char>, json: Seq<char>)
    requires
        !contains(human, meta_prefix()),
        first_index(json + meta_suffix(), meta_suffix()) == Some(json.len() as int),
    ensures
        split_spec(framed(human, json)) == Some((trim_end(human), json)),
{
    reveal_strlit("<!-- fetchly:");
    reveal_strlit(" -->");
    reveal_strlit("\n");
    let d = framed(human, json);
    let p = meta_prefix();
    let i: int = human.len() as int + 1;
    assert(d =~= human + "\n"@ + p + (json + meta_suffix()));
    assert(occurs_at(d, p, i)) by {
        assert(d.subrange(i, i + p.len()) =~= p);
    }
    assert forall|j: int| 0 <= j < i implies !occurs_at(d, p, j) by {
        if occurs_at(d, p, j) {
            if j + p.len() <= human.len() {
                assert(human.subrange(j, j + p.len()) =~= d.subrange(j, j + p.len()));
                lemma_find_from(human, p, 0);
                assert(occurs_at(human, p, j));
            } else {
                let k = human.len() - j;
                assert(0 <= k <= human.len());
                assert(d[human.len() as int] == '\n');
                assert(d.subrange(j, j + p.len())[k] == '\n');
                assert(p[k] != '\n');
            }
        }
    }
    lemma_find_from_exact(d, p, 0, i);
    let rest = d.subrange(i + p.len(), d.len() as int);
    assert(rest =~= json + meta_suffix());
    assert(d.subrange(0, i) =~= human + "\n"@);
    assert(trim_end(human + "\n"@) == trim_end(human)) by {
        assert((human + "\n"@).drop_last() =~= human);
        assert(('\n' as u32) < 128);
    }
    assert(rest.subrange(0, json.len() as int) =~= json);
}

/// Every description this service builds marks its task as one it manages.
pub proof fn lemma_built_is_managed(human: Seq<char>, json: Seq<char>)
    ensures
        contains(framed(human, json), meta_prefix()),
{
    reveal_strlit("<!-- fetchly:");
    reveal_strlit("\n");
    let d = framed(human, json);
    let p = meta_prefix();
    let i: int = human.len() as int + 1;
    assert(d =~= human + "\n"@ + p + (json + meta_suffix()));
    assert(d.subrange(i, i + p.len()) =~= p);
    assert(occurs_at(d, p, i));
    lemma_find_from(d, p, 0);
}

} // verus!
