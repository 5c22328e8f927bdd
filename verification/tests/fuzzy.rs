use herdr_ferry::fuzzy::score;

#[test]
fn matches_subsequences_and_rejects_missing_characters() {
    assert!(score("hfy", "Herdr Ferry").is_some());
    assert!(score("xyz", "Herdr Ferry").is_none());
}

#[test]
fn ranks_exact_and_boundary_matches_above_scattered_matches() {
    let exact = score("api", "api server").unwrap();
    let boundary = score("api", "workspace / api").unwrap();
    let scattered = score("api", "alpha pane idle").unwrap();

    assert!(exact > scattered);
    assert!(boundary > scattered);
}

#[test]
fn empty_queries_preserve_input_order_with_equal_scores() {
    assert_eq!(score("", "anything"), Some(0));
    assert_eq!(score("   ", "anything"), Some(0));
}

#[test]
fn exact_prefix_match_scores_its_bonuses() {
    // word start at 0, two adjacent characters, a contiguous run, 7 characters beyond the query
    assert_eq!(score("api", "api server"), Some(233));
}

#[test]
fn scattered_match_pays_for_its_gaps() {
    // matched at 0, 2 and 11 of "alpha pane idle": word starts at 0 and 11, gaps of 1 and 8,
    // no contiguous run, 12 characters beyond the query
    assert_eq!(score("api", "alpha pane idle"), Some(100 + 24 - 1 + 24 - 8 - 12));
}

#[test]
fn matching_ignores_case_and_surrounding_space() {
    assert_eq!(score("  API ", "api server"), score("api", "api server"));
    assert!(score("HF", "herdr ferry").is_some());
}

#[test]
fn characters_must_occur_in_order() {
    assert!(score("ba", "ab").is_none());
    assert!(score("ab", "ab").is_some());
    assert!(score("aa", "a").is_none());
}

#[test]
fn lowered_queries_score_directly() {
    assert_eq!(herdr_ferry::fuzzy::score_lowered("api", "api server"), Some(233));
    assert_eq!(herdr_ferry::fuzzy::score_lowered("", "anything"), Some(0));
    assert_eq!(herdr_ferry::fuzzy::score_lowered("API", "api server"), None);
}
