use codevault::errors::VaultError;
use codevault::snippet::Snippet;
use codevault::store::{
    append_snippet, contains_id, copy_code, delete_snippet, generate_unique_id, parse_id_list,
};

fn snip(id: u32, tag: &str) -> Snippet {
    Snippet {
        tag: tag.to_string(),
        description: None,
        code: String::new(),
        timestamp: "2024-01-01 00:00:00".to_string(),
        language: None,
        id,
    }
}

#[test]
fn next_id_of_empty_collection_is_one() {
    let snippets: Vec<Snippet> = Vec::new();
    assert_eq!(generate_unique_id(&snippets), 1);
}

#[test]
fn next_id_is_strictly_greater_than_every_id() {
    let snippets = vec![snip(5, "a"), snip(2, "b"), snip(9, "c")];
    let id = generate_unique_id(&snippets);
    assert_eq!(id, 10);
    for s in &snippets {
        assert!(id > s.id);
    }
}

#[test]
fn next_id_never_refills_deleted_gaps() {
    let snippets = vec![snip(1, "a"), snip(7, "b")];
    let (remaining, _) = delete_snippet(&snippets, &vec![1]).unwrap();
    assert_eq!(generate_unique_id(&remaining), 8);
}

#[test]
fn append_adds_exactly_one_and_keeps_the_rest() {
    let mut snippets = vec![snip(1, "a"), snip(2, "b")];
    let before = snippets.clone();
    append_snippet(&mut snippets, snip(3, "c"));
    assert_eq!(snippets.len(), before.len() + 1);
    for i in 0..before.len() {
        assert_eq!(snippets[i], before[i]);
    }
    assert_eq!(snippets[2], snip(3, "c"));
}

#[test]
fn copy_code_finds_by_id() {
    let snippets = vec![snip(1, "a"), snip(2, "b")];
    let found = copy_code(&snippets, &Some(2)).unwrap();
    assert_eq!(found, snip(2, "b"));
}

#[test]
fn copy_code_without_id_is_rejected() {
    let snippets = vec![snip(1, "a")];
    assert_eq!(copy_code(&snippets, &None), Err(VaultError::MissingId));
}

#[test]
fn copy_code_reports_an_unknown_id() {
    let snippets = vec![snip(1, "a")];
    assert_eq!(copy_code(&snippets, &Some(9)), Err(VaultError::IdNotFound(9)));
}

#[test]
fn delete_removes_all_requested_ids() {
    let snippets = vec![snip(1, "a"), snip(2, "b"), snip(3, "c")];
    let (remaining, count) = delete_snippet(&snippets, &vec![1, 3]).unwrap();
    assert_eq!(count, 2);
    assert_eq!(remaining, vec![snip(2, "b")]);
}

#[test]
fn delete_with_a_missing_id_changes_nothing() {
    let snippets = vec![snip(1, "a"), snip(2, "b"), snip(3, "c")];
    let before = snippets.clone();
    let result = delete_snippet(&snippets, &vec![3, 99]);
    assert_eq!(result, Err(VaultError::IdsNotFound(vec![99])));
    // nothing was deleted: id 3 is still present and the collection is intact
    assert_eq!(snippets, before);
    assert!(contains_id(&snippets, 3));
}

#[test]
fn parse_id_list_accepts_spaced_numbers() {
    assert_eq!(parse_id_list("3, 99").unwrap(), vec![3, 99]);
    assert_eq!(parse_id_list("7").unwrap(), vec![7]);
    assert_eq!(parse_id_list("+7").unwrap(), vec![7]);
    assert_eq!(parse_id_list("4294967295").unwrap(), vec![u32::MAX]);
}

#[test]
fn parse_id_list_rejects_bad_pieces() {
    assert_eq!(
        parse_id_list("a,b"),
        Err(VaultError::InvalidIdList("a".to_string()))
    );
    assert_eq!(
        parse_id_list("1,,2"),
        Err(VaultError::InvalidIdList(String::new()))
    );
    assert_eq!(
        parse_id_list("4294967296"),
        Err(VaultError::InvalidIdList("4294967296".to_string()))
    );
    assert_eq!(
        parse_id_list("1, -2"),
        Err(VaultError::InvalidIdList("-2".to_string()))
    );
}
