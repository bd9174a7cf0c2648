use fetchly::gemini::{build_prompt, decimal_chars, filter_outcome, first_reply_text, semantic_indices};

#[test]
fn prompt_text() {
    let p = build_prompt("mlijeko", &[("Mlijeko 1L", Some("Dukat")), ("Jogurt", None)]).unwrap();
    assert_eq!(
        p,
        "User is looking for: \"mlijeko\"\n\nProducts:\n0: Mlijeko 1L (Dukat)\n1: Jogurt\n\n\
         Which product indices (0-based) are a good semantic match? \
         Reply with ONLY a JSON array of integers, e.g. [0,3,7]. \
         Return [] if none match."
    );
    assert!(build_prompt("x", &[]).is_none());
}

#[test]
fn prompt_numbers_many_candidates() {
    let c: Vec<(&str, Option<&str>)> = (0..12).map(|_| ("p", None)).collect();
    let p = build_prompt("q", &c).unwrap();
    assert!(p.contains("\n10: p\n11: p\n\n"));
}

#[test]
fn decimal_digits() {
    assert_eq!(decimal_chars(0), vec!['0']);
    assert_eq!(decimal_chars(407), vec!['4', '0', '7']);
}

#[test]
fn answer_indices_in_range() {
    assert_eq!(semantic_indices("[0,3,7]", 5), vec![0, 3]);
    assert_eq!(semantic_indices(" [ 2 , 2 ] ", 3), vec![2, 2]);
    assert_eq!(semantic_indices("[]", 5), Vec::<usize>::new());
    assert_eq!(semantic_indices("[9]", 5), Vec::<usize>::new());
}

#[test]
fn unusable_answers_fall_back_to_every_index() {
    assert_eq!(semantic_indices("not json", 5), vec![0, 1, 2, 3, 4]);
    assert_eq!(semantic_indices("[-1, 1]", 3), vec![0, 1, 2]);
    assert_eq!(semantic_indices("", 2), vec![0, 1]);
    assert_eq!(semantic_indices("{}", 0), Vec::<usize>::new());
}

#[test]
fn filter_outcome_of_a_request() {
    assert_eq!(filter_outcome(None, 3), vec![0, 1, 2]);
    assert_eq!(filter_outcome(Some("[2, 0, 8]"), 3), vec![2, 0]);
    assert_eq!(filter_outcome(Some("oops"), 2), vec![0, 1]);
    assert_eq!(filter_outcome(Some("[]"), 2), Vec::<usize>::new());
}

#[test]
fn first_reply() {
    let r = vec![vec!["[1]".to_string(), "x".to_string()], vec!["[2]".to_string()]];
    assert_eq!(first_reply_text(&r), "[1]");
    assert_eq!(first_reply_text(&vec![]), "");
    assert_eq!(first_reply_text(&vec![vec![]]), "");
}
