use obsidian_parser::note::note_in_memory::NoteInMemory;
use obsidian_parser::note::note_on_disk::{NoteOnDisk, SourceError};
use obsidian_parser::note::Note;
use obsidian_parser::order::{duplicates_by_key, rank, Rank};
use obsidian_parser::vault::vault_open::options::VaultOptions;
use obsidian_parser::vault::Vault;
use obsidian_parser::yaml::default_properties;
use sha2::{Digest, Sha256};

fn note(text: &str, path: &str) -> NoteInMemory {
    NoteInMemory::from_text(text, Some(path.to_string())).unwrap()
}

fn sha256(bytes: &[u8]) -> Vec<u8> {
    Sha256::digest(bytes).to_vec()
}

fn create_vault_with_diplicates_files() -> Vault<NoteInMemory> {
    let options = VaultOptions::new("/tmp/vault");
    let notes = vec![
        note("same text", "/tmp/vault/file.md"),
        note("same text", "/tmp/vault/folder/file.md"),
    ];

    Vault::build_vault(notes, &options, true).unwrap()
}

fn create_vault_without_diplicates_files() -> Vault<NoteInMemory> {
    let options = VaultOptions::new("/tmp/vault");
    let notes = vec![note("", "/tmp/vault/file.md")];

    Vault::build_vault(notes, &options, true).unwrap()
}

#[test]
fn with_duplicates_notes_by_name() {
    let vault = create_vault_with_diplicates_files();

    let duplicated_notes: Vec<_> = vault
        .get_duplicates_notes_by_name()
        .into_iter()
        .map(|note| note.note_name().unwrap())
        .collect();

    assert_eq!(duplicated_notes, ["file".to_string(), "file".to_string()]);
    assert!(vault.have_duplicates_notes_by_name());
}

#[test]
fn without_duplicates_notes_by_name() {
    let vault = create_vault_without_diplicates_files();

    let duplicated_notes: Vec<_> = vault
        .get_duplicates_notes_by_name()
        .into_iter()
        .map(|note| note.note_name().unwrap())
        .collect();

    assert_eq!(duplicated_notes.is_empty(), true);
    assert!(!vault.have_duplicates_notes_by_name());
}

#[test]
fn with_duplicates_notes_by_content() {
    let vault = create_vault_with_diplicates_files();

    let duplicated_notes: Vec<_> = vault
        .get_duplicates_notes_by_content(sha256)
        .unwrap()
        .into_iter()
        .map(|note| note.note_name().unwrap())
        .collect();

    assert_eq!(duplicated_notes, ["file".to_string(), "file".to_string()]);

    assert!(vault.have_duplicates_notes_by_content(sha256).unwrap());
}

#[test]
fn without_duplicates_notes_by_content() {
    let vault = create_vault_without_diplicates_files();

    let duplicated_notes: Vec<_> = vault
        .get_duplicates_notes_by_content(sha256)
        .unwrap()
        .into_iter()
        .map(|note| note.note_name().unwrap())
        .collect();

    assert_eq!(duplicated_notes.is_empty(), true);
    assert!(!vault.have_duplicates_notes_by_content(sha256).unwrap());
}

#[test]
fn duplicates_by_name_come_in_the_order_of_the_names() {
    let options = VaultOptions::new("v");
    let notes = vec![
        note("1", "v/zeta.md"),
        note("2", "v/b/alpha.md"),
        note("3", "v/a/zeta.md"),
        note("4", "v/single.md"),
        note("5", "v/alpha.md"),
        note("6", "v/c/zeta.txt"),
        NoteInMemory::from_text("7", None).unwrap(),
    ];
    let vault = Vault::build_vault(notes, &options, true).unwrap();

    assert_eq!(vault.duplicate_positions_by_name(), vec![1, 4, 0, 2, 5]);

    let contents: Vec<String> = vault
        .get_duplicates_notes_by_name()
        .into_iter()
        .map(|note| note.content().unwrap().to_string())
        .collect();
    assert_eq!(contents, ["2", "5", "1", "3", "6"]);
}

#[test]
fn duplicates_by_content_have_different_names() {
    let options = VaultOptions::new("v");
    let notes = vec![
        note("---\na: 1\n---\nbody", "v/one.md"),
        note("other", "v/two.md"),
        note("body", "v/three.md"),
    ];
    let vault = Vault::build_vault(notes, &options, true).unwrap();

    let found: Vec<String> = vault
        .get_duplicates_notes_by_content(sha256)
        .unwrap()
        .into_iter()
        .map(|note| note.note_name().unwrap())
        .collect();

    assert_eq!(found, ["one".to_string(), "three".to_string()]);
    assert!(!vault.have_duplicates_notes_by_name());
}

#[test]
fn a_shorter_key_comes_first() {
    assert_eq!(rank(&vec![1, 2], &vec![1, 2, 0]), Rank::Before);
    assert_eq!(rank(&vec![1, 3], &vec![1, 2, 9]), Rank::After);
    assert_eq!(rank(&vec![], &vec![]), Rank::Same);

    let keys = vec![
        Some(vec![2]),
        None,
        Some(vec![1, 0]),
        Some(vec![2]),
        Some(vec![1]),
        Some(vec![1, 0]),
        None,
        Some(vec![2]),
    ];
    assert_eq!(duplicates_by_key(&keys), vec![2, 5, 0, 3, 7]);
}

#[test]
fn duplicates_by_content_stop_at_the_first_note_that_cannot_be_read() {
    let read = |path: &str| -> Result<String, String> {
        if path == "v/a.md" {
            Ok("same".to_string())
        } else {
            Err(format!("cannot read {}", path))
        }
    };
    let notes = vec![
        NoteOnDisk::from_file("v/a.md", true, read, default_properties).unwrap(),
        NoteOnDisk::from_file("v/b.md", true, read, default_properties).unwrap(),
        NoteOnDisk::from_file("v/c.md", true, read, default_properties).unwrap(),
    ];
    let vault = Vault::build_vault(notes, &VaultOptions::new("v"), true).unwrap();

    let found = vault.get_duplicates_notes_by_content(sha256);
    assert!(matches!(found, Err(SourceError::IO(e)) if e == "cannot read v/b.md"));

    let any = vault.have_duplicates_notes_by_content(sha256);
    assert!(matches!(any, Err(SourceError::IO(e)) if e == "cannot read v/b.md"));
    assert_eq!(vault.count_notes(), 3);
}
