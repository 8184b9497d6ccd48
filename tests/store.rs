use std::collections::HashMap;

use dav_contacts::card::Contact;
use dav_contacts::store::{
    change_outcome, collect_contacts, file_name, file_stem, get_outcome, list_outcome,
    plan_create, plan_delete, plan_update, skipped_entries, FileChange, ListedFile, Operation, StoreError,
};
use dav_contacts::validate::{check_identifier, check_same_identifier, same_text};

fn contact(id: &str, name: &str, email: &str, phone: &str) -> Contact {
    Contact {
        id: id.to_string(),
        name: name.to_string(),
        email: email.to_string(),
        phone: phone.to_string(),
    }
}

type Dir = HashMap<String, String>;

fn apply(dir: &mut Dir, change: FileChange) {
    match change {
        FileChange::Write { name, text } => {
            dir.insert(name, text);
        }
        FileChange::Remove { name } => {
            dir.remove(&name);
        }
    }
}

fn get(dir: &Dir, id: &str) -> Result<Contact, StoreError> {
    get_outcome(id, dir.get(&file_name(id)).cloned())
}

fn create(dir: &mut Dir, c: &Contact) -> Result<(), StoreError> {
    let change = plan_create(c)?;
    apply(dir, change);
    Ok(())
}

fn update(dir: &mut Dir, id: &str, c: &Contact) -> Result<(), StoreError> {
    let exists = dir.contains_key(&file_name(id));
    let change = plan_update(id, exists, c)?;
    apply(dir, change);
    Ok(())
}

fn delete(dir: &mut Dir, id: &str) -> Result<(), StoreError> {
    let exists = dir.contains_key(&file_name(id));
    let change = plan_delete(id, exists)?;
    apply(dir, change);
    Ok(())
}

#[test]
fn create_get_delete_scenario() {
    let mut dir = Dir::new();
    let c = contact("c1", "Alice", "a@x.com", "555");
    assert_eq!(create(&mut dir, &c), Ok(()));
    assert_eq!(
        dir.get("c1.vcf").map(String::as_str),
        Some("BEGIN:VCARD\nVERSION:4.0\nID:c1\nFN:Alice\nEMAIL:a@x.com\nTEL:555\nEND:VCARD\n")
    );
    assert_eq!(get(&dir, "c1"), Ok(c));
    assert_eq!(delete(&mut dir, "c1"), Ok(()));
    assert_eq!(get(&dir, "c1"), Err(StoreError::NotFound));
}

#[test]
fn get_twice_gives_same_result() {
    let mut dir = Dir::new();
    create(&mut dir, &contact("g", "Gail", "g@x", "7")).unwrap();
    assert_eq!(get(&dir, "g"), get(&dir, "g"));
    assert_eq!(get(&dir, "missing"), get(&dir, "missing"));
}

#[test]
fn create_overwrites_existing_contact() {
    let mut dir = Dir::new();
    create(&mut dir, &contact("o", "Old", "", "")).unwrap();
    create(&mut dir, &contact("o", "New", "", "")).unwrap();
    assert_eq!(get(&dir, "o"), Ok(contact("o", "New", "", "")));
}

#[test]
fn create_rejects_unsafe_identifier() {
    let mut dir = Dir::new();
    assert_eq!(create(&mut dir, &contact("../x", "", "", "")), Err(StoreError::InvalidIdentifier));
    assert_eq!(create(&mut dir, &contact("", "n", "", "")), Err(StoreError::InvalidIdentifier));
    assert!(dir.is_empty());
}

#[test]
fn update_missing_is_not_found_and_creates_nothing() {
    let mut dir = Dir::new();
    assert_eq!(update(&mut dir, "nobody", &contact("nobody", "N", "", "")), Err(StoreError::NotFound));
    assert!(dir.is_empty());
}

#[test]
fn update_conflict_leaves_file_unchanged() {
    let mut dir = Dir::new();
    create(&mut dir, &contact("a", "Ann", "", "")).unwrap();
    let before = dir.get("a.vcf").cloned();
    assert_eq!(update(&mut dir, "a", &contact("b", "Bea", "", "")), Err(StoreError::IdentifierConflict));
    assert_eq!(dir.get("a.vcf").cloned(), before);
    assert!(!dir.contains_key("b.vcf"));
}

#[test]
fn update_replaces_whole_record() {
    let mut dir = Dir::new();
    create(&mut dir, &contact("u", "Uma", "u@x", "1")).unwrap();
    assert_eq!(update(&mut dir, "u", &contact("u", "Una", "", "")), Ok(()));
    assert_eq!(get(&dir, "u"), Ok(contact("u", "Una", "", "")));
}

#[test]
fn delete_missing_is_not_found() {
    let mut dir = Dir::new();
    assert_eq!(delete(&mut dir, "ghost"), Err(StoreError::NotFound));
}

#[test]
fn get_of_unparsable_file_is_not_found() {
    let mut dir = Dir::new();
    dir.insert("bad.vcf".to_string(), "garbage".to_string());
    assert_eq!(get(&dir, "bad"), Err(StoreError::NotFound));
}

#[test]
fn get_uses_file_name_as_identifier() {
    let mut dir = Dir::new();
    dir.insert("k.vcf".to_string(), "FN:Kim\n".to_string());
    assert_eq!(get(&dir, "k"), Ok(contact("k", "Kim", "", "")));
}

#[test]
fn list_skips_unparsable_file() {
    let good = contact("c1", "Alice", "a@x.com", "555");
    let entries = vec![
        ListedFile { name: "c1.vcf".to_string(), content: Some(good.encode()) },
        ListedFile { name: "junk.vcf".to_string(), content: Some("not a card".to_string()) },
    ];
    assert_eq!(list_outcome(Some(entries)), Ok(vec![good]));
}

#[test]
fn list_skips_unreadable_and_keeps_order() {
    let entries = vec![
        ListedFile { name: "b.vcf".to_string(), content: Some("FN:B\n".to_string()) },
        ListedFile { name: "x.vcf".to_string(), content: None },
        ListedFile { name: "a.vcf".to_string(), content: Some("FN:A\n".to_string()) },
    ];
    assert_eq!(
        collect_contacts(&entries),
        vec![contact("b", "B", "", ""), contact("a", "A", "", "")]
    );
}

#[test]
fn list_of_unreadable_directory_fails() {
    assert_eq!(list_outcome(None), Err(StoreError::IoFailure(Operation::List)));
}

#[test]
fn list_of_empty_directory_is_empty() {
    assert_eq!(list_outcome(Some(Vec::new())), Ok(Vec::new()));
}

#[test]
fn file_name_appends_extension() {
    assert_eq!(file_name("c1"), "c1.vcf");
    assert_eq!(file_name("a.b"), "a.b.vcf");
}

#[test]
fn file_stem_drops_last_extension() {
    assert_eq!(file_stem("c1.vcf"), "c1");
    assert_eq!(file_stem("a.b.vcf"), "a.b");
    assert_eq!(file_stem("plain"), "plain");
    assert_eq!(file_stem(".hidden"), ".hidden");
    assert_eq!(file_stem("trail."), "trail");
}

#[test]
fn identifier_checks() {
    assert_eq!(check_identifier("c1"), Ok(()));
    assert_eq!(check_identifier(""), Err(StoreError::InvalidIdentifier));
    assert_eq!(check_identifier("a/b"), Err(StoreError::InvalidIdentifier));
    assert_eq!(check_identifier("a\\b"), Err(StoreError::InvalidIdentifier));
    assert_eq!(check_identifier("."), Err(StoreError::InvalidIdentifier));
    assert_eq!(check_identifier(".."), Err(StoreError::InvalidIdentifier));
    assert_eq!(check_identifier("..."), Ok(()));
    assert_eq!(check_identifier(".a"), Ok(()));
    assert_eq!(check_same_identifier("a", &contact("a", "", "", "")), Ok(()));
    assert_eq!(
        check_same_identifier("a", &contact("b", "", "", "")),
        Err(StoreError::IdentifierConflict)
    );
    assert!(same_text("äb", "äb"));
    assert!(!same_text("ab", "abc"));
}

#[test]
fn change_outcomes() {
    let w = FileChange::Write { name: "a.vcf".to_string(), text: String::new() };
    let r = FileChange::Remove { name: "a.vcf".to_string() };
    assert_eq!(change_outcome(&w, true), Ok(()));
    assert_eq!(change_outcome(&w, false), Err(StoreError::IoFailure(Operation::Write)));
    assert_eq!(change_outcome(&r, false), Err(StoreError::IoFailure(Operation::Delete)));
}

#[test]
fn create_rejects_reserved_names() {
    let mut dir = Dir::new();
    assert_eq!(create(&mut dir, &contact("..", "", "", "")), Err(StoreError::InvalidIdentifier));
    assert_eq!(create(&mut dir, &contact(".", "", "", "")), Err(StoreError::InvalidIdentifier));
    assert!(dir.is_empty());
}

#[test]
fn update_of_reserved_name_is_refused_and_creates_nothing() {
    let mut dir = Dir::new();
    assert_eq!(update(&mut dir, "..", &contact("..", "", "", "")), Err(StoreError::InvalidIdentifier));
    assert!(dir.is_empty());
}

#[test]
fn skipped_entries_counts_unreadable_and_unparsable() {
    let entries = vec![
        ListedFile { name: "a.vcf".to_string(), content: Some("FN:A\n".to_string()) },
        ListedFile { name: "x.vcf".to_string(), content: None },
        ListedFile { name: "junk.vcf".to_string(), content: Some("junk".to_string()) },
    ];
    assert_eq!(skipped_entries(&entries), 2);
    assert_eq!(skipped_entries(&Vec::new()), 0);
}
