//! Keeping a task in step with its best product: display names, the
//! description text, the section it belongs in, and the cache of sections.
use vstd::prelude::*;
use crate::search::{opt_view, Product};
use crate::text::{chars_concat, chars_equal, chars_of, string_of};
use crate::api::{due_today, immediate};
use crate::todoist::{build_description, framed, Section};

verus! {

// ── Display names and description text ──────────────────────────────────────

/// The display name of a chain code; unknown codes are shown as they are.
pub open spec fn display_name(code: Seq<char>) -> Seq<char> {
    if code == "lidl"@ {
        "Lidl"@
    } else if code == "kaufland"@ {
        "Kaufland"@
    } else if code == "konzum"@ {
        "Konzum"@
    } else if code == "spar"@ {
        "Spar"@
    } else if code == "ktc"@ {
        "KTC"@
    } else if code == "eurospin"@ {
        "Eurospin"@
    } else {
        code
    }
}

/// The display name of a chain code ("lidl" is "Lidl", "ktc" is "KTC", ...);
/// an unknown code is its own display name.
pub fn chain_display_name(code: &str) -> (r: &str)
    ensures
        r@ == display_name(code@),
{
    let c = chars_of(code);
    if chars_equal(&c, &chars_of("lidl")) {
        "Lidl"
    } else if chars_equal(&c, &chars_of("kaufland")) {
        "Kaufland"
    } else if chars_equal(&c, &chars_of("konzum")) {
        "Konzum"
    } else if chars_equal(&c, &chars_of("spar")) {
        "Spar"
    } else if chars_equal(&c, &chars_of("ktc")) {
        "KTC"
    } else if chars_equal(&c, &chars_of("eurospin")) {
        "Eurospin"
    } else {
        code
    }
}

/// The reference units whose unit price a description shows.
pub open spec fn shows_unit_price(unit: Option<Seq<char>>) -> bool {
    match unit {
        Some(u) => u == "l"@ || u == "kg"@,
        None => false,
    }
}

/// The human-visible description of a task's best product, given the price and
/// unit price already rendered with two decimals.
pub open spec fn human_description(p: crate::search::ProductView, price: Seq<char>, unit_price: Option<Seq<char>>) -> Seq<char> {
    let brand = match p.brand {
        Some(b) => b,
        None => "-"@,
    };
    let base = "Proizvod: "@ + p.name + "\nBrand: "@ + brand + "\nCijena: "@ + price + " EUR\nLanac: "@
        + display_name(p.store);
    match unit_price {
        Some(up) => if shows_unit_price(p.unit) {
            base + "\nCijena/"@ + p.unit->0 + ": "@ + up + " EUR"@
        } else {
            base
        },
        None => base,
    }
}

/// The description text for a product: name, brand ("-" when none), shelf
/// price, chain, and for litre or kilogram units the unit price.
/// `price` and `unit_price` are the product's prices rendered with two
/// decimals (the latter present exactly when the product has a unit price).
pub fn format_human_description(p: &Product, price: &str, unit_price: Option<&str>) -> (r: String)
    ensures
        r@ == human_description(p@, price@, match unit_price {
            Some(u) => Some(u@),
            None => None,
        }),
{
    let brand = match &p.brand {
        Some(b) => chars_of(b.as_str()),
        None => chars_of("-"),
    };
    let mut s = chars_concat(&chars_of("Proizvod: "), &chars_of(p.name.as_str()));
    s = chars_concat(&s, &chars_of("\nBrand: "));
    s = chars_concat(&s, &brand);
    s = chars_concat(&s, &chars_of("\nCijena: "));
    s = chars_concat(&s, &chars_of(price));
    s = chars_concat(&s, &chars_of(" EUR\nLanac: "));
    s = chars_concat(&s, &chars_of(chain_display_name(p.store.as_str())));
    if let (Some(up), Some(unit)) = (unit_price, &p.unit) {
        let u = chars_of(unit.as_str());
        if chars_equal(&u, &chars_of("l")) || chars_equal(&u, &chars_of("kg")) {
            s = chars_concat(&s, &chars_of("\nCijena/"));
            s = chars_concat(&s, &u);
            s = chars_concat(&s, &chars_of(": "));
            s = chars_concat(&s, &chars_of(up));
            s = chars_concat(&s, &chars_of(" EUR"));
        }
    }
    string_of(&s)
}

/// A task is moved when it is not already in the section.
pub fn needs_move(current: &Option<String>, section_id: &str) -> (b: bool)
    ensures
        b == (opt_view(*current) != Some(section_id@)),
{
    match current {
        Some(c) => !chars_equal(&chars_of(c.as_str()), &chars_of(section_id)),
        None => true,
    }
}

// ── The section cache ───────────────────────────────────────────────────────

pub open spec fn entry_key(e: (String, String)) -> Seq<char> {
    e.0@
}

/// The map that the entries stand for.
pub open spec fn map_of(e: Seq<(String, String)>) -> Map<Seq<char>, Seq<char>>
    decreases e.len(),
{
    if e.len() == 0 {
        Map::empty()
    } else {
        map_of(e.drop_last()).insert(entry_key(e.last()), e.last().1@)
    }
}

/// No name occurs twice.
pub open spec fn distinct_names(e: Seq<(String, String)>) -> bool {
    forall|i: int, j: int| 0 <= i < j < e.len() ==> entry_key(e[i]) != entry_key(e[j])
}

/// Section names and ids of the project, as learnt so far.
pub struct SectionCache {
    entries: Vec<(String, String)>,
}

impl SectionCache {
    #[verifier::type_invariant]
    spec fn inv(self) -> bool {
        distinct_names(self.entries@)
    }

    /// The section id of each known section name.
    pub closed spec fn map(self) -> Map<Seq<char>, Seq<char>> {
        map_of(self.entries@)
    }
}

proof fn lemma_map_of(e: Seq<(String, String)>)
    requires
        distinct_names(e),
    ensures
        forall|k: Seq<char>|
            #[trigger] map_of(e).dom().contains(k) <==> exists|i: int|
                0 <= i < e.len() && entry_key(e[i]) == k,
        forall|i: int| 0 <= i < e.len() ==> map_of(e)[#[trigger] entry_key(e[i])] == e[i].1@,
    decreases e.len(),
{
    if e.len() > 0 {
        let d = e.drop_last();
        lemma_map_of(d);
        assert forall|k: Seq<char>|
            #[trigger] map_of(e).dom().contains(k) <==> exists|i: int|
                0 <= i < e.len() && entry_key(e[i]) == k by {
            if map_of(e).dom().contains(k) {
                if k == entry_key(e.last()) {
                    assert(entry_key(e[e.len() - 1]) == k);
                } else {
                    assert(map_of(d).dom().contains(k));
                    let i = choose|i: int| 0 <= i < d.len() && entry_key(d[i]) == k;
                    assert(d[i] == e[i]);
                    assert(entry_key(e[i]) == k);
                }
            }
            if exists|i: int| 0 <= i < e.len() && entry_key(e[i]) == k {
                let i = choose|i: int| 0 <= i < e.len() && entry_key(e[i]) == k;
                if i < e.len() - 1 {
                    assert(entry_key(d[i]) == k);
                }
            }
        }
        assert forall|i: int| 0 <= i < e.len() implies map_of(e)[#[trigger] entry_key(e[i])]
            == e[i].1@ by {
            if i < e.len() - 1 {
                assert(d[i] == e[i]);
                assert(entry_key(e[i]) != entry_key(e.last()));
            }
        }
    }
}

impl SectionCache {
    /// An empty cache.
    pub fn new() -> (r: Self)
        ensures
            r.map() == Map::<Seq<char>, Seq<char>>::empty(),
    {
        SectionCache { entries: Vec::new() }
    }

    fn position(&self, name: &str) -> (r: Option<usize>)
        ensures
            r matches Some(i) ==> i < self.entries@.len() && entry_key(self.entries@[i as int])
                == name@,
            r is None ==> forall|i: int|
                0 <= i < self.entries@.len() ==> entry_key(self.entries@[i]) != name@,
    {
        let n = chars_of(name);
        let mut i: usize = 0;
        while i < self.entries.len()
            invariant
                i <= self.entries@.len(),
                n@ == name@,
                forall|j: int| 0 <= j < i ==> entry_key(self.entries@[j]) != name@,
            decreases self.entries@.len() - i,
        {
            if chars_equal(&chars_of(self.entries[i].0.as_str()), &n) {
                return Some(i);
            }
            i = i + 1;
        }
        None
    }

    /// The id of the section with this name, if known.
    pub fn get(&self, name: &str) -> (r: Option<String>)
        ensures
            match r {
                Some(id) => self.map().dom().contains(name@) && self.map()[name@] == id@,
                None => !self.map().dom().contains(name@),
            },
    {
        proof {
            use_type_invariant(self);
            lemma_map_of(self.entries@);
        }
        match self.position(name) {
            Some(i) => Some(self.entries[i].1.clone()),
            None => None,
        }
    }

    /// Records (or replaces) the id of the section with this name.
    pub fn insert(&mut self, name: &str, id: &str)
        ensures
            final(self).map() == old(self).map().insert(name@, id@),
    {
        proof {
            use_type_invariant(&*self);
        }
        let ghost before = self.entries@;
        let entry = (name.to_owned(), id.to_owned());
        match self.position(name) {
            Some(i) => {
                let mut entries: Vec<(String, String)> = Vec::new();
                std::mem::swap(&mut entries, &mut self.entries);
                entries.set(i, entry);
                let ghost after = entries@;
                assert(distinct_names(after)) by {
                    assert forall|a: int, b: int| 0 <= a < b < after.len() implies entry_key(after[a])
                        != entry_key(after[b]) by {
                        if a != i as int && b != i as int {
                            assert(after[a] == before[a] && after[b] == before[b]);
                        }
                    }
                }
                proof {
                    lemma_map_of(before);
                    lemma_map_of(after);
                    assert(map_of(after) =~= map_of(before).insert(name@, id@)) by {
                        assert forall|k: Seq<char>| #[trigger] map_of(after).dom().contains(k) <==> map_of(before).insert(name@, id@).dom().contains(k) by {
                            if map_of(after).dom().contains(k) {
                                let j = choose|j: int| 0 <= j < after.len() && entry_key(after[j]) == k;
                                if j != i as int {
                                    assert(entry_key(before[j]) == k);
                                }
                            }
                            if map_of(before).dom().contains(k) {
                                let j = choose|j: int| 0 <= j < before.len() && entry_key(before[j]) == k;
                                if j != i as int {
                                    assert(entry_key(after[j]) == k);
                                } else {
                                    assert(entry_key(after[j]) == k);
                                }
                            }
                            if k == name@ {
                                assert(entry_key(after[i as int]) == k);
                            }
                        }
                        assert forall|k: Seq<char>| #[trigger] map_of(after).dom().contains(k) implies map_of(after)[k] == map_of(before).insert(name@, id@)[k] by {
                            let j = choose|j: int| 0 <= j < after.len() && entry_key(after[j]) == k;
                            if j != i as int {
                                assert(entry_key(before[j]) == k);
                                assert(after[j] == before[j]);
                            }
                        }
                    }
                }
                self.entries = entries;
            },
            None => {
                let mut entries: Vec<(String, String)> = Vec::new();
                std::mem::swap(&mut entries, &mut self.entries);
                entries.push(entry);
                let ghost after = entries@;
                assert(after.drop_last() =~= before);
                assert(distinct_names(after)) by {
                    assert forall|a: int, b: int| 0 <= a < b < after.len() implies entry_key(after[a])
                        != entry_key(after[b]) by {
                        if b < before.len() {
                            assert(after[a] == before[a] && after[b] == before[b]);
                        } else {
                            assert(after[a] == before[a]);
                        }
                    }
                }
                self.entries = entries;
            },
        }
    }

    /// Records the name and id of each section, later ones replacing earlier ones.
    pub fn absorb(&mut self, sections: &Vec<Section>)
        ensures
            final(self).map() == absorbed(old(self).map(), sections@),
    {
        let mut i: usize = 0;
        let ghost start = self.map();
        assert(sections@.take(0) =~= Seq::<Section>::empty());
        while i < sections.len()
            invariant
                i <= sections.len(),
                self.map() == absorbed(start, sections@.take(i as int)),
            decreases sections.len() - i,
        {
            self.insert(sections[i].name.as_str(), sections[i].id.as_str());
            assert(sections@.take(i + 1).drop_last() =~= sections@.take(i as int));
            i = i + 1;
        }
        assert(sections@.take(sections@.len() as int) =~= sections@);
    }
}

/// `m` with each section's name mapped to its id, in order.
pub open spec fn absorbed(m: Map<Seq<char>, Seq<char>>, s: Seq<Section>) -> Map<Seq<char>, Seq<char>>
    decreases s.len(),
{
    if s.len() == 0 {
        m
    } else {
        absorbed(m, s.drop_last()).insert(s.last().name@, s.last().id@)
    }
}

// ── Steps of a sync ─────────────────────────────────────────────────────────

/// What to do next to find the id of a section.
#[derive(Debug)]
pub enum SectionAction {
    /// The section has this id.
    Use(String),
    /// The cache does not know the name: list the project's sections.
    List,
    /// No listed section has the name: create it.
    Create,
}

/// One step of finding a section's id by name: the cache first takes in the
/// sections listed (when a listing was made), then answers the id it knows;
/// when it knows none, the next step is a listing, or, after one, creating
/// the section.
pub fn section_step(cache: &mut SectionCache, name: &str, listed: Option<&Vec<Section>>) -> (r: SectionAction)
    ensures
        match listed {
            None => final(cache).map() == old(cache).map(),
            Some(s) => final(cache).map() == absorbed(old(cache).map(), s@),
        },
        match r {
            SectionAction::Use(id) => final(cache).map().dom().contains(name@) && final(cache).map()[name@]
                == id@,
            SectionAction::List => listed is None && !final(cache).map().dom().contains(name@),
            SectionAction::Create => listed is Some && !final(cache).map().dom().contains(name@),
        },
{
    match listed {
        Some(sections) => cache.absorb(sections),
        None => {},
    }
    match cache.get(name) {
        Some(id) => SectionAction::Use(id),
        None => match listed {
            None => SectionAction::List,
            Some(_) => SectionAction::Create,
        },
    }
}

/// How a task is updated for its best product.
pub struct SyncUpdate {
    /// The section the task belongs in: the chain's display name.
    pub section_name: String,
    /// The new description: the product's text, then the task's metadata.
    pub description: String,
    /// Whether the task is due today.
    pub due_today: bool,
}

/// The update of a task for its best product, given the product's prices
/// rendered with two decimals, the JSON of the task's metadata and its
/// priority.
pub fn sync_update(best: &Product, price: &str, unit_price: Option<&str>, meta_json: &str, priority: &str) -> (r: SyncUpdate)
    ensures
        r.section_name@ == display_name(best@.store),
        r.description@ == framed(
            human_description(
                best@,
                price@,
                match unit_price {
                    Some(u) => Some(u@),
                    None => None,
                },
            ),
            meta_json@,
        ),
        r.due_today == (priority@ == immediate()),
{
    let section_name = string_of(&chars_of(chain_display_name(best.store.as_str())));
    let human = format_human_description(best, price, unit_price);
    let description = build_description(human.as_str(), meta_json);
    SyncUpdate { section_name, description, due_today: due_today(priority) }
}

/// What a cache gives back for a name right after it was told the name's id.
pub proof fn lemma_cache_read_after_write(m: Map<Seq<char>, Seq<char>>, name: Seq<char>, id: Seq<char>, other: Seq<char>)
    ensures
        m.insert(name, id).dom().contains(name),
        m.insert(name, id)[name] == id,
        other != name ==> m.insert(name, id).dom().contains(other) == m.dom().contains(other),
        other != name && m.dom().contains(other) ==> m.insert(name, id)[other] == m[other],
{
}

} // verus!
