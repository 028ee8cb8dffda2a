use codevault::errors::VaultError;
use codevault::filter::view_snippets;
use codevault::snippet::Snippet;

fn entry(id: u32, tag: &str, description: Option<&str>, code: &str, language: Option<&str>) -> Snippet {
    Snippet {
        tag: tag.to_string(),
        description: description.map(|d| d.to_string()),
        code: code.to_string(),
        timestamp: "2024-01-01 00:00:00".to_string(),
        language: language.map(|l| l.to_string()),
        id,
    }
}

#[test]
fn tag_filter_matches_by_substring() {
    let snippets = vec![entry(1, "a", None, "", None), entry(2, "ab", None, "", None)];
    let result = view_snippets(&snippets, &None, &Some("a".to_string()), &None, &None, false)
        .unwrap();
    assert_eq!(result.len(), 2);
    assert_eq!(result[0].id, 1);
    assert_eq!(result[1].id, 2);
}

#[test]
fn id_narrows_the_tag_filter() {
    let snippets = vec![entry(1, "a", None, "", None), entry(2, "ab", None, "", None)];
    let result = view_snippets(&snippets, &Some(2), &Some("a".to_string()), &None, &None, false)
        .unwrap();
    assert_eq!(result.len(), 1);
    assert_eq!(result[0].id, 2);
}

#[test]
fn id_outside_the_filtered_set_is_an_error() {
    let snippets = vec![entry(1, "a", None, "", None), entry(2, "ab", None, "", None)];
    let result = view_snippets(&snippets, &Some(5), &Some("a".to_string()), &None, &None, false);
    assert_eq!(result, Err(VaultError::IdNotFound(5)));
}

#[test]
fn keyword_terms_match_any_field() {
    let by_code = entry(1, "t1", None, "let foo = 1;", None);
    let by_description = entry(2, "t2", Some("about BAR"), "", None);
    let by_tag = entry(3, "foo-things", None, "", None);
    let neither = entry(4, "t4", Some("plain"), "nothing here", None);
    let snippets = vec![by_code, by_description, by_tag, neither];
    let result = view_snippets(&snippets, &None, &None, &None, &Some("foo,bar".to_string()), false)
        .unwrap();
    let ids: Vec<u32> = result.iter().map(|s| s.id).collect();
    assert_eq!(ids, vec![1, 2, 3]);
}

#[test]
fn absent_language_never_matches_a_language_filter() {
    let snippets = vec![
        entry(1, "a", None, "", None),
        entry(2, "b", None, "", Some("Rust")),
    ];
    let result = view_snippets(&snippets, &None, &None, &Some("rust".to_string()), &None, false)
        .unwrap();
    assert_eq!(result.len(), 1);
    assert_eq!(result[0].id, 2);
}

#[test]
fn dimensions_combine_with_and() {
    let snippets = vec![
        entry(1, "web", None, "", Some("Python")),
        entry(2, "web", None, "", Some("Rust")),
        entry(3, "cli", None, "", Some("Rust")),
    ];
    let result = view_snippets(
        &snippets,
        &None,
        &Some("web".to_string()),
        &Some("rust".to_string()),
        &None,
        false,
    )
    .unwrap();
    assert_eq!(result.len(), 1);
    assert_eq!(result[0].id, 2);
}

#[test]
fn matching_is_case_insensitive() {
    let snippets = vec![entry(1, "RUST tricks", None, "", None)];
    let result = view_snippets(&snippets, &None, &Some("rust".to_string()), &None, &None, false)
        .unwrap();
    assert_eq!(result.len(), 1);
}

#[test]
fn no_filters_keep_everything_in_order() {
    let snippets = vec![entry(2, "b", None, "", None), entry(1, "a", None, "", None)];
    let result = view_snippets(&snippets, &None, &None, &None, &None, false).unwrap();
    let ids: Vec<u32> = result.iter().map(|s| s.id).collect();
    assert_eq!(ids, vec![2, 1]);
}

#[test]
fn filtering_by_two_dimensions_equals_filtering_in_turn() {
    let snippets = vec![
        entry(1, "a", None, "", Some("b")),
        entry(2, "a", None, "", Some("c")),
        entry(3, "x", None, "", Some("b")),
        entry(4, "ab", None, "", Some("bc")),
    ];
    let both = view_snippets(
        &snippets,
        &None,
        &Some("a".to_string()),
        &Some("b".to_string()),
        &None,
        false,
    )
    .unwrap();
    let by_language = view_snippets(&snippets, &None, &None, &Some("b".to_string()), &None, false)
        .unwrap();
    let in_turn = view_snippets(
        &by_language,
        &None,
        &Some("a".to_string()),
        &None,
        &None,
        false,
    )
    .unwrap();
    assert_eq!(both, in_turn);
    let ids: Vec<u32> = both.iter().map(|s| s.id).collect();
    assert_eq!(ids, vec![1, 4]);
}

#[test]
fn comma_terms_are_or_within_a_dimension() {
    let snippets = vec![
        entry(1, "alpha", None, "", None),
        entry(2, "beta", None, "", None),
        entry(3, "gamma", None, "", None),
    ];
    let result = view_snippets(
        &snippets,
        &None,
        &Some("alpha, beta".to_string()),
        &None,
        &None,
        false,
    )
    .unwrap();
    let ids: Vec<u32> = result.iter().map(|s| s.id).collect();
    assert_eq!(ids, vec![1, 2]);
}
