use obsidian_parser::note::note_in_memory::{NoteError, NoteInMemory};
use obsidian_parser::note::{Note, NoteFromString};
use obsidian_parser::parser::ParseError;
use std::cell::Cell;
use std::collections::HashMap;

const TEST_DATA: &str = "---\n\
topic: life\n\
created: 2025-03-16\n\
---\n\
Test data\n\
---\n\
Two test data";

const BROKEN_DATA: &str = "---\n\
    asdfv:--fs\n\
    sfsf\n\
    ---\n\
    TestData";

const UNICODE_DATA: &str = "---\ndata: 💩\n---\nSuper data 💩💩💩";

const SPACE_DATA: &str = "  ---\ntest: test-data\n---\n";

#[test]
fn impl_from_string() {
    let note: NoteInMemory = NoteInMemory::from_string(TEST_DATA).unwrap();
    let properties = note.properties().unwrap().unwrap();

    assert_eq!(properties["topic"], serde_yml::Value::from("life"));
    assert_eq!(properties["created"], serde_yml::Value::from("2025-03-16"));
    assert_eq!(note.content().unwrap(), "Test data\n---\nTwo test data");
    assert_eq!(note.path(), None);
}

#[test]
fn impl_from_string_without_properties() {
    let test_data = "TEST_DATA";
    let note: NoteInMemory = NoteInMemory::from_string(test_data).unwrap();

    assert_eq!(note.properties().unwrap(), None);
    assert_eq!(note.content().unwrap(), test_data);
}

#[test]
fn impl_from_string_with_invalid_yaml() {
    let result: Result<NoteInMemory, NoteError> = NoteInMemory::from_string(BROKEN_DATA);

    assert!(matches!(result, Err(NoteError::Yaml(_))));
}

#[test]
fn impl_from_string_invalid_format() {
    let broken_data = "---\n";
    let result: Result<NoteInMemory, NoteError> = NoteInMemory::from_string(broken_data);

    assert!(matches!(
        result,
        Err(NoteError::InvalidFormat(ParseError::NotFoundCloser))
    ));
}

#[test]
fn impl_from_string_with_unicode() {
    let note: NoteInMemory = NoteInMemory::from_string(UNICODE_DATA).unwrap();
    let properties = note.properties().unwrap().unwrap();

    assert_eq!(properties["data"], serde_yml::Value::from("💩"));
    assert_eq!(note.content().unwrap(), "Super data 💩💩💩");
}

#[test]
fn impl_from_string_space_with_properties() {
    let note: NoteInMemory = NoteInMemory::from_string(SPACE_DATA).unwrap();

    assert_eq!(note.content().unwrap(), SPACE_DATA);
    assert_eq!(note.properties().unwrap(), None);
}

#[test]
fn a_note_is_made_of_its_parts() {
    let note = NoteInMemory::new("body".to_string(), Some(7), Some("dir/name.md".to_string()));

    assert_eq!(note.content().unwrap(), "body");
    assert_eq!(note.properties().unwrap().map(|p| *p), Some(7));
    assert_eq!(note.path().unwrap(), "dir/name.md");
    assert_eq!(note.note_name(), Some("name".to_string()));
}

#[test]
fn the_default_note_is_empty() {
    let note: NoteInMemory = NoteInMemory::default();

    assert_eq!(note.content().unwrap(), "");
    assert_eq!(note.properties().unwrap(), None);
    assert_eq!(note.path(), None);
    assert_eq!(note.note_name(), None);
}

#[test]
fn a_note_from_a_file_keeps_its_location() {
    let note = NoteInMemory::from_text(TEST_DATA, Some("/tmp/vault/note.md".to_string())).unwrap();

    assert_eq!(note.path().unwrap(), "/tmp/vault/note.md");
    assert_eq!(note.note_name(), Some("note".to_string()));
    assert_eq!(note.content().unwrap(), "Test data\n---\nTwo test data");
}

#[test]
fn a_note_with_metadata_of_its_own_type() {
    let text = "---\nstep: 3\nleft: 4\n---\nbody";
    let note: NoteInMemory<HashMap<String, u32>> = NoteInMemory::from_text_with(
        text,
        Some("dir/a.md".to_string()),
        |block: &str| serde_yml::from_str(block),
    )
    .unwrap();

    let metadata = note.properties().unwrap().unwrap();
    assert_eq!(metadata.len(), 2);
    assert_eq!(metadata["step"], 3);
    assert_eq!(metadata["left"], 4);
    assert_eq!(note.content().unwrap(), "body");
    assert_eq!(note.path().unwrap(), "dir/a.md");
}

#[test]
fn a_note_with_metadata_of_its_own_type_takes_what_the_decoder_makes() {
    let asked = Cell::new(0);
    let note: NoteInMemory<usize> = NoteInMemory::from_text_with("---\nab\n---\nbody", None, |block: &str| {
        asked.set(asked.get() + 1);
        Ok(block.len())
    })
    .unwrap();

    assert_eq!(note.properties().unwrap().map(|p| *p), Some(2));
    assert_eq!(note.content().unwrap(), "body");
    assert_eq!(note.path(), None);
    assert_eq!(asked.get(), 1);
}

#[test]
fn a_note_with_metadata_of_its_own_type_fails_as_the_decoder_does() {
    let result: Result<NoteInMemory<u32>, NoteError> =
        NoteInMemory::from_text_with("---\nstep: three\n---\nbody", None, |block: &str| {
            serde_yml::from_str(block)
        });

    assert!(matches!(result, Err(NoteError::Yaml(_))));
}

#[test]
fn a_note_without_a_block_does_not_ask_the_decoder() {
    let asked = Cell::new(0);
    let decode = |block: &str| -> Result<u32, serde_yml::Error> {
        asked.set(asked.get() + 1);
        serde_yml::from_str(block)
    };
    let note = NoteInMemory::from_text_with("no block", None, &decode).unwrap();

    assert_eq!(note.properties().unwrap(), None);
    assert_eq!(note.content().unwrap(), "no block");

    let result = NoteInMemory::from_text_with("---\nopen", None, &decode);
    assert!(matches!(result, Err(NoteError::InvalidFormat(ParseError::NotFoundCloser))));
    assert_eq!(asked.get(), 0);
}
