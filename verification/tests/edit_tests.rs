use codevault::edit::{edited_snippet, resolve_choice, resolve_for_edit, EditResolution};
use codevault::errors::VaultError;
use codevault::snippet::Snippet;

fn tagged(id: u32, tag: &str) -> Snippet {
    Snippet {
        tag: tag.to_string(),
        description: Some("d".to_string()),
        code: "c".to_string(),
        timestamp: "2024-01-01 00:00:00".to_string(),
        language: None,
        id,
    }
}

#[test]
fn resolving_by_id_removes_that_snippet() {
    let snippets = vec![tagged(1, "a"), tagged(2, "b")];
    match resolve_for_edit(&snippets, &Some(1), &None).unwrap() {
        EditResolution::Resolved { snippet, remaining } => {
            assert_eq!(snippet.id, 1);
            assert_eq!(remaining, vec![tagged(2, "b")]);
        },
        EditResolution::NeedsChoice { .. } => panic!("expected a resolution"),
    }
}

#[test]
fn resolving_an_unknown_id_fails() {
    let snippets = vec![tagged(1, "a")];
    assert!(matches!(
        resolve_for_edit(&snippets, &Some(9), &None),
        Err(VaultError::IdNotFound(9))
    ));
}

#[test]
fn a_unique_tag_match_resolves() {
    let snippets = vec![tagged(1, "web"), tagged(2, "cli")];
    match resolve_for_edit(&snippets, &None, &Some("CLI".to_string())).unwrap() {
        EditResolution::Resolved { snippet, remaining } => {
            assert_eq!(snippet.id, 2);
            assert_eq!(remaining, vec![tagged(1, "web")]);
        },
        EditResolution::NeedsChoice { .. } => panic!("expected a resolution"),
    }
}

#[test]
fn an_unmatched_tag_fails() {
    let snippets = vec![tagged(1, "web")];
    assert!(matches!(
        resolve_for_edit(&snippets, &None, &Some("nope".to_string())),
        Err(VaultError::TagNotFound(_))
    ));
}

#[test]
fn an_ambiguous_tag_offers_the_candidates() {
    let snippets = vec![tagged(1, "web"), tagged(2, "webapp"), tagged(3, "cli")];
    match resolve_for_edit(&snippets, &None, &Some("web".to_string())).unwrap() {
        EditResolution::NeedsChoice { candidate_ids } => {
            assert_eq!(candidate_ids, vec![1, 2]);
        },
        EditResolution::Resolved { .. } => panic!("expected a choice"),
    }
}

#[test]
fn with_no_selector_the_edit_fails() {
    let snippets = vec![tagged(1, "a")];
    assert_eq!(
        match resolve_for_edit(&snippets, &None, &None) {
            Err(e) => e,
            Ok(_) => panic!("expected an error"),
        },
        VaultError::MissingSelector
    );
}

#[test]
fn a_valid_choice_finishes_the_resolution() {
    let snippets = vec![tagged(1, "web"), tagged(2, "webapp")];
    let (snippet, remaining) = resolve_choice(&snippets, &vec![1, 2], " 2 ").unwrap();
    assert_eq!(snippet.id, 2);
    assert_eq!(remaining, vec![tagged(1, "web")]);
}

#[test]
fn a_non_numeric_choice_fails() {
    let snippets = vec![tagged(1, "web")];
    assert!(matches!(
        resolve_choice(&snippets, &vec![1], "abc"),
        Err(VaultError::InvalidChoice(_))
    ));
}

#[test]
fn a_choice_outside_the_candidates_fails() {
    let snippets = vec![tagged(1, "web"), tagged(2, "webapp"), tagged(3, "cli")];
    assert_eq!(
        resolve_choice(&snippets, &vec![1, 2], "3"),
        Err(VaultError::ChoiceNotInList(3))
    );
}

#[test]
fn editing_replaces_fields_and_assigns_the_new_id() {
    let original = Snippet {
        tag: "old-tag".to_string(),
        description: Some("old description".to_string()),
        code: "old code".to_string(),
        timestamp: "2024-01-01 00:00:00".to_string(),
        language: Some("Rust".to_string()),
        id: 3,
    };
    let edited = edited_snippet(&original, "new-tag ", " new description ", "Python", "new code".to_string(), 9);
    assert_eq!(edited.tag, "new-tag");
    assert_eq!(edited.description, Some("new description".to_string()));
    assert_eq!(edited.language, Some("Python".to_string()));
    assert_eq!(edited.code, "new code");
    assert_eq!(edited.timestamp, original.timestamp);
    assert_eq!(edited.id, 9);
}

#[test]
fn blank_answers_keep_the_tag_and_clear_the_rest() {
    let original = Snippet {
        tag: "keep-me".to_string(),
        description: Some("gone".to_string()),
        code: "old".to_string(),
        timestamp: "2024-01-01 00:00:00".to_string(),
        language: Some("Rust".to_string()),
        id: 3,
    };
    let edited = edited_snippet(&original, "  ", "", " \t ", "new".to_string(), 4);
    assert_eq!(edited.tag, "keep-me");
    assert_eq!(edited.description, None);
    assert_eq!(edited.language, None);
    assert_eq!(edited.code, "new");
    assert_eq!(edited.id, 4);
}
