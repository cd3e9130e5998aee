use code_terminal::palette::fuzzy::{fuzzy_match, fuzzy_match_multi};

#[test]
fn test_exact_match() {
    let result = fuzzy_match("save", "Save File").unwrap();
    assert!(result.score > 0);
    assert_eq!(result.matched_indices, vec![0, 1, 2, 3]);
}

#[test]
fn test_fuzzy_match() {
    let result = fuzzy_match("sf", "Save File").unwrap();
    assert!(result.score > 0);
    assert_eq!(result.matched_indices, vec![0, 5]);
}

#[test]
fn test_no_match() {
    assert!(fuzzy_match("xyz", "Save File").is_none());
}

#[test]
fn test_empty_pattern() {
    let result = fuzzy_match("", "Save File").unwrap();
    assert_eq!(result.score, 0);
    assert!(result.matched_indices.is_empty());
}

#[test]
fn test_camel_case() {
    let result = fuzzy_match("gc", "gitCommit").unwrap();
    assert!(result.score > 0);
}

#[test]
fn exact_match_score_value() {
    // 's' at 0: 10 + 15 + 20 + 5 ('S' upper); 'a','v','e': 10 each.
    let result = fuzzy_match("save", "Save File").unwrap();
    assert_eq!(result.score, 80);
}

#[test]
fn camel_case_boundary_is_preferred() {
    // 'g' at 0: 10 + 15 + 20; 'c' at the boundary 'tC': 10 + 15 + 5.
    let result = fuzzy_match("gc", "gitCommit").unwrap();
    assert_eq!(result.matched_indices, vec![0, 3]);
    assert_eq!(result.score, 75);
}

#[test]
fn word_start_is_preferred() {
    let result = fuzzy_match("f", "a_file f").unwrap();
    assert_eq!(result.matched_indices, vec![2]);
    assert_eq!(result.score, 30);
}

#[test]
fn lower_case_pattern_matches_upper_case_text() {
    let result = fuzzy_match("ABC", "abc").unwrap();
    assert_eq!(result.matched_indices, vec![0, 1, 2]);
}

#[test]
fn pattern_longer_than_text_does_not_match() {
    assert!(fuzzy_match("saves", "save").is_none());
}

#[test]
fn multi_prefers_label() {
    let m = fuzzy_match_multi("save", "Save File", Some("writes"), "File").unwrap();
    assert_eq!(m.score, 180);
    assert_eq!(m.matched_indices, vec![0, 1, 2, 3]);
}

#[test]
fn multi_falls_back_to_category() {
    let m = fuzzy_match_multi("fs", "Save", None, "File").unwrap();
    let plain = fuzzy_match("fs", "File: Save").unwrap();
    assert_eq!(m.score, plain.score + 50);
    assert_eq!(m.matched_indices, plain.matched_indices);
}

#[test]
fn multi_falls_back_to_description_without_indices() {
    let m = fuzzy_match_multi("disk", "Save", Some("write to disk"), "File").unwrap();
    let plain = fuzzy_match("disk", "write to disk").unwrap();
    assert_eq!(m.score, plain.score + 25);
    assert!(m.matched_indices.is_empty());
}

#[test]
fn multi_without_any_match() {
    assert!(fuzzy_match_multi("zzz", "Save", Some("write"), "File").is_none());
}
