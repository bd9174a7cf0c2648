//! Pack sizes: splitting a quantity such as "750 ml" into number and unit,
//! and the base unit (millilitres or grams) each unit word stands for.
use vstd::prelude::*;
use crate::columns::{equals_any, is_ascii_letter, is_ascii_letter_exec};
use crate::text::{chars_concat, chars_of, chars_slice, string_of, to_uppercase, trim, trim_chars, unicode_uppercase};

verus! {

/// Label for the denominator used in unit price display.
pub fn unit_label(is_volume: bool) -> (r: &'static str)
    ensures
        r@ == (if is_volume { "l"@ } else { "kg"@ }),
{
    if is_volume {
        "l"
    } else {
        "kg"
    }
}

/// The length of the run of ASCII letters that ends `s`.
pub open spec fn letter_suffix_len(s: Seq<char>) -> nat
    decreases s.len(),
{
    if s.len() > 0 && is_ascii_letter(s.last()) {
        1 + letter_suffix_len(s.drop_last())
    } else {
        0
    }
}

/// The number part (before the final run of letters, trimmed) and the unit
/// part (that run, trimmed; absent when empty) of a quantity.
pub open spec fn split_spec(s: Seq<char>) -> (Seq<char>, Option<Seq<char>>) {
    let end = s.len() - letter_suffix_len(s);
    let unit = trim(s.subrange(end, s.len() as int));
    (trim(s.subrange(0, end)), if unit.len() == 0 {
        None
    } else {
        Some(unit)
    })
}

/// Splits "68 G" into ("68", "G") and "1,000" into ("1,000", none).
pub fn split_number_unit(s: &str) -> (r: (String, Option<String>))
    ensures
        r.0@ == split_spec(s@).0,
        match r.1 {
            Some(u) => split_spec(s@).1 == Some(u@),
            None => split_spec(s@).1 is None,
        },
{
    let cs = chars_of(s);
    let mut end = cs.len();
    assert(cs@.subrange(0, cs@.len() as int) =~= cs@);
    while end > 0 && is_ascii_letter_exec(cs[end - 1])
        invariant
            end <= cs@.len(),
            letter_suffix_len(cs@) == letter_suffix_len(cs@.subrange(0, end as int)) + (cs@.len()
                - end),
        decreases end,
    {
        assert(cs@.subrange(0, end as int).drop_last() =~= cs@.subrange(0, end - 1));
        end = end - 1;
    }
    let num = trim_chars(&chars_slice(&cs, 0, end));
    let unit = trim_chars(&chars_slice(&cs, end, cs.len()));
    (string_of(&num), if unit.len() == 0 {
        None
    } else {
        Some(string_of(&unit))
    })
}

/// The base-unit factor of a unit word (in uppercase) and whether it measures
/// volume (millilitres) rather than mass (grams); `None` for counts and
/// unknown words.
pub open spec fn base_factor(w: Seq<char>) -> Option<(u32, bool)> {
    if w == "ML"@ {
        Some((1, true))
    } else if w == "CL"@ {
        Some((10, true))
    } else if w == "DL"@ {
        Some((100, true))
    } else if w == "L"@ || w == "LI"@ || w == "LIT"@ || w == "LT"@ {
        Some((1000, true))
    } else if w == "G"@ || w == "GR"@ || w == "GRM"@ {
        Some((1, false))
    } else if w == "DAG"@ {
        Some((10, false))
    } else if w == "KG"@ {
        Some((1000, false))
    } else {
        None
    }
}

/// How many millilitres or grams one unit of `unit` is, and whether it is a
/// volume; `None` for dimensionless units such as KOM or PAK.
pub fn to_base(unit: &str) -> (r: Option<(u32, bool)>)
    ensures
        r == base_factor(unit@),
{
    let w = chars_of(unit);
    let ml: [&str; 1] = ["ML"];
    let cl: [&str; 1] = ["CL"];
    let dl: [&str; 1] = ["DL"];
    let l: [&str; 4] = ["L", "LI", "LIT", "LT"];
    let g: [&str; 3] = ["G", "GR", "GRM"];
    let dag: [&str; 1] = ["DAG"];
    let kg: [&str; 1] = ["KG"];
    proof {
        assert(ml@ =~= seq!["ML"]);
        assert(cl@ =~= seq!["CL"]);
        assert(dl@ =~= seq!["DL"]);
        assert(l@ =~= seq!["L", "LI", "LIT", "LT"]);
        assert(g@ =~= seq!["G", "GR", "GRM"]);
        assert(dag@ =~= seq!["DAG"]);
        assert(kg@ =~= seq!["KG"]);
        let wv = w@;
        if wv == "ML"@ { assert(wv == ml@[0]@); }
        if wv == "CL"@ { assert(wv == cl@[0]@); }
        if wv == "DL"@ { assert(wv == dl@[0]@); }
        if wv == "L"@ { assert(wv == l@[0]@); }
        if wv == "LI"@ { assert(wv == l@[1]@); }
        if wv == "LIT"@ { assert(wv == l@[2]@); }
        if wv == "LT"@ { assert(wv == l@[3]@); }
        if wv == "G"@ { assert(wv == g@[0]@); }
        if wv == "GR"@ { assert(wv == g@[1]@); }
        if wv == "GRM"@ { assert(wv == g@[2]@); }
        if wv == "DAG"@ { assert(wv == dag@[0]@); }
        if wv == "KG"@ { assert(wv == kg@[0]@); }
    }
    if equals_any(&w, &ml) {
        Some((1, true))
    } else if equals_any(&w, &cl) {
        Some((10, true))
    } else if equals_any(&w, &dl) {
        Some((100, true))
    } else if equals_any(&w, &l) {
        Some((1000, true))
    } else if equals_any(&w, &g) {
        Some((1, false))
    } else if equals_any(&w, &dag) {
        Some((10, false))
    } else if equals_any(&w, &kg) {
        Some((1000, false))
    } else {
        None
    }
}

/// The text of a pack-size number as a number parser reads it: trimmed, a
/// comma as decimal point, a leading point given a zero; absent when blank.
pub open spec fn number_text_spec(s: Seq<char>) -> Option<Seq<char>> {
    let t = crate::columns::comma_to_dot(trim(s));
    if trim(s).len() == 0 {
        None
    } else if t[0] == '.' {
        Some("0"@ + t)
    } else {
        Some(t)
    }
}

/// The text of a pack-size number, ready for a number parser.
pub fn number_text(s: &str) -> (r: Option<String>)
    ensures
        match r {
            Some(t) => number_text_spec(s@) == Some(t@),
            None => number_text_spec(s@) is None,
        },
{
    let t = crate::columns::decimal_text(s);
    let tc = chars_of(t.as_str());
    if tc.len() == 0 {
        return None;
    }
    if tc[0] == '.' {
        Some(string_of(&chars_concat(&chars_of("0"), &tc)))
    } else {
        Some(t)
    }
}

/// A pack size read from text: the number's text and the unit word it is in.
#[derive(Clone, Debug)]
pub struct QuantityParts {
    pub number: Option<String>,
    pub unit: String,
}

/// The parts of a quantity cell: number and unit split off its trimmed text;
/// a unit embedded in it wins over the separate unit cell (trimmed); the unit
/// word is uppercased.
pub open spec fn quantity_spec(quantity: Seq<char>, unit: Option<Seq<char>>) -> (Option<Seq<char>>, Seq<char>) {
    let (num, embedded) = split_spec(trim(quantity));
    let u = match embedded {
        Some(e) => e,
        None => match unit {
            Some(x) => trim(x),
            None => Seq::empty(),
        },
    };
    (number_text_spec(num), unicode_uppercase(u))
}

/// Splits a quantity cell into its number text and unit word.
pub fn quantity_parts(quantity: &str, unit: Option<&str>) -> (r: QuantityParts)
    ensures
        quantity_spec(quantity@, match unit {
            Some(u) => Some(u@),
            None => None,
        }) == (match r.number {
            Some(t) => Some(t@),
            None => None,
        }, r.unit@),
{
    let q = string_of(&trim_chars(&chars_of(quantity)));
    let (num, embedded) = split_number_unit(q.as_str());
    let u = match embedded {
        Some(e) => e,
        None => match unit {
            Some(x) => string_of(&trim_chars(&chars_of(x))),
            None => {
                proof {
                    reveal_strlit("");
                }
                assert(""@ =~= Seq::<char>::empty());
                "".to_owned()
            },
        },
    };
    QuantityParts { number: number_text(num.as_str()), unit: to_uppercase(u.as_str()) }
}

/// The parts of a unit cell that carries the pack size itself ("1l", "68g").
pub fn inline_parts(s: &str) -> (r: QuantityParts)
    ensures
        quantity_spec(s@, None) == (match r.number {
            Some(t) => Some(t@),
            None => None,
        }, r.unit@),
{
    quantity_parts(s, None)
}

// ── Laws ────────────────────────────────────────────────────────────────────

/// How many base units (ml or g) one unit of `w` is; 0 for counts and
/// unknown words.
pub open spec fn factor_of(w: Seq<char>) -> int {
    match base_factor(w) {
        Some((f, _)) => f as int,
        None => 0,
    }
}

/// `w` measures volume.
pub open spec fn measures_volume(w: Seq<char>) -> bool {
    base_factor(w) matches Some((_, v)) && v
}

/// `w` measures mass.
pub open spec fn measures_mass(w: Seq<char>) -> bool {
    base_factor(w) matches Some((_, v)) && !v
}

/// The units are metric: a millilitre and a gram are the base units; a
/// centilitre is 10 ml, a decilitre 10 cl, a litre 10 dl (every spelling of
/// it alike); a decagram is 10 g and a kilogram 1000 g (every spelling of the
/// gram alike); litres measure volume, grams mass; counts have no base amount.
pub proof fn lemma_metric_units()
    ensures
        base_factor("ML"@) == Some((1u32, true)),
        base_factor("G"@) == Some((1u32, false)),
        factor_of("CL"@) == 10 * factor_of("ML"@) && measures_volume("CL"@),
        factor_of("DL"@) == 10 * factor_of("CL"@) && measures_volume("DL"@),
        factor_of("L"@) == 10 * factor_of("DL"@) && measures_volume("L"@),
        base_factor("LI"@) == base_factor("L"@),
        base_factor("LIT"@) == base_factor("L"@),
        base_factor("LT"@) == base_factor("L"@),
        base_factor("GR"@) == base_factor("G"@),
        base_factor("GRM"@) == base_factor("G"@),
        factor_of("DAG"@) == 10 * factor_of("G"@) && measures_mass("DAG"@),
        factor_of("KG"@) == 1000 * factor_of("G"@) && measures_mass("KG"@),
        base_factor("KOM"@) is None,
        base_factor("PAK"@) is None,
{
    reveal_strlit("ML");
    assert("ML"@.len() == 2);
    assert("ML"@[0] == 'M');
    assert("ML"@[1] == 'L');
    reveal_strlit("CL");
    assert("CL"@.len() == 2);
    assert("CL"@[0] == 'C');
    assert("CL"@[1] == 'L');
    reveal_strlit("DL");
    assert("DL"@.len() == 2);
    assert("DL"@[0] == 'D');
    assert("DL"@[1] == 'L');
    reveal_strlit("L");
    assert("L"@.len() == 1);
    assert("L"@[0] == 'L');
    reveal_strlit("LI");
    assert("LI"@.len() == 2);
    assert("LI"@[0] == 'L');
    assert("LI"@[1] == 'I');
    reveal_strlit("LIT");
    assert("LIT"@.len() == 3);
    assert("LIT"@[0] == 'L');
    assert("LIT"@[1] == 'I');
    assert("LIT"@[2] == 'T');
    reveal_strlit("LT");
    assert("LT"@.len() == 2);
    assert("LT"@[0] == 'L');
    assert("LT"@[1] == 'T');
    reveal_strlit("G");
    assert("G"@.len() == 1);
    assert("G"@[0] == 'G');
    reveal_strlit("GR");
    assert("GR"@.len() == 2);
    assert("GR"@[0] == 'G');
    assert("GR"@[1] == 'R');
    reveal_strlit("GRM");
    assert("GRM"@.len() == 3);
    assert("GRM"@[0] == 'G');
    assert("GRM"@[1] == 'R');
    assert("GRM"@[2] == 'M');
    reveal_strlit("DAG");
    assert("DAG"@.len() == 3);
    assert("DAG"@[0] == 'D');
    assert("DAG"@[1] == 'A');
    assert("DAG"@[2] == 'G');
    reveal_strlit("KG");
    assert("KG"@.len() == 2);
    assert("KG"@[0] == 'K');
    assert("KG"@[1] == 'G');
    reveal_strlit("KOM");
    assert("KOM"@.len() == 3);
    assert("KOM"@[0] == 'K');
    assert("KOM"@[1] == 'O');
    assert("KOM"@[2] == 'M');
    reveal_strlit("PAK");
    assert("PAK"@.len() == 3);
    assert("PAK"@[0] == 'P');
    assert("PAK"@[1] == 'A');
    assert("PAK"@[2] == 'K');
}

} // verus!
