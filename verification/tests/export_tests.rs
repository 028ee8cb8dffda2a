use codevault::errors::VaultError;
use codevault::export::{export_file_name, extension_for, select_for_export};
use codevault::snippet::Snippet;

fn item(id: u32, tag: &str, language: Option<&str>) -> Snippet {
    Snippet {
        tag: tag.to_string(),
        description: None,
        code: "body".to_string(),
        timestamp: "2024-01-01 00:00:00".to_string(),
        language: language.map(|l| l.to_string()),
        id,
    }
}

#[test]
fn known_languages_map_to_their_extensions() {
    assert_eq!(extension_for(&Some("Python".to_string())), "py");
    assert_eq!(extension_for(&Some("Rust".to_string())), "rs");
    assert_eq!(extension_for(&Some("Makefile".to_string())), "mak");
    assert_eq!(extension_for(&Some("Bourne Again Shell (bash)".to_string())), "sh");
}

#[test]
fn unknown_or_absent_languages_fall_back_to_txt() {
    assert_eq!(extension_for(&Some("Klingon".to_string())), "txt");
    assert_eq!(extension_for(&Some("python".to_string())), "txt");
    assert_eq!(extension_for(&None), "txt");
}

#[test]
fn export_file_name_joins_id_and_extension() {
    assert_eq!(export_file_name(7, &Some("Python".to_string())), "7.py");
    assert_eq!(export_file_name(42, &None), "42.txt");
    assert_eq!(export_file_name(305, &Some("HTML".to_string())), "305.html");
}

#[test]
fn selection_by_id_keeps_only_that_snippet() {
    let snippets = vec![item(1, "a", None), item(2, "b", None)];
    let selected = select_for_export(&snippets, &Some(2), &None, &None).unwrap();
    assert_eq!(selected.len(), 1);
    assert_eq!(selected[0].id, 2);
}

#[test]
fn selection_by_unknown_id_fails() {
    let snippets = vec![item(1, "a", None)];
    assert_eq!(
        select_for_export(&snippets, &Some(9), &None, &None),
        Err(VaultError::IdNotFound(9))
    );
}

#[test]
fn selection_by_tag_and_language_narrows_in_turn() {
    let snippets = vec![
        item(1, "web", Some("Python")),
        item(2, "web", Some("Rust")),
        item(3, "cli", Some("Rust")),
    ];
    let selected =
        select_for_export(&snippets, &None, &Some("web".to_string()), &Some("rust".to_string()))
            .unwrap();
    assert_eq!(selected.len(), 1);
    assert_eq!(selected[0].id, 2);
}

#[test]
fn empty_tag_selection_names_the_tags() {
    let snippets = vec![item(1, "web", None)];
    assert_eq!(
        select_for_export(&snippets, &None, &Some("x, y".to_string()), &None),
        Err(VaultError::ExportTagNotFound(vec!["x".to_string(), "y".to_string()]))
    );
}

#[test]
fn empty_language_selection_names_the_languages() {
    let snippets = vec![item(1, "web", Some("Rust"))];
    assert_eq!(
        select_for_export(&snippets, &None, &None, &Some("cobol".to_string())),
        Err(VaultError::ExportLanguageNotFound(vec!["cobol".to_string()]))
    );
}

#[test]
fn tag_and_language_that_never_meet_report_both() {
    let snippets = vec![item(1, "web", Some("Python")), item(2, "cli", Some("Rust"))];
    assert_eq!(
        select_for_export(&snippets, &None, &Some("web".to_string()), &Some("rust".to_string())),
        Err(VaultError::ExportTagLanguageMismatch(
            vec!["web".to_string()],
            vec!["rust".to_string()]
        ))
    );
}

#[test]
fn no_criteria_on_an_empty_collection_is_not_an_error() {
    let snippets: Vec<Snippet> = Vec::new();
    assert_eq!(select_for_export(&snippets, &None, &None, &None), Ok(Vec::new()));
}
