use obsidian_parser::note::note_aliases::NoteAliases;
use obsidian_parser::note::note_in_memory::{NoteError, NoteInMemory};
use obsidian_parser::note::note_is_todo::NoteIsTodo;
use obsidian_parser::note::note_on_disk::NoteOnDisk;
use obsidian_parser::note::note_tags::{tags_of_content, NoteTags};
use obsidian_parser::note::{Note, NoteFromString};
use obsidian_parser::yaml::default_properties;

const TEST_STR_DATA: &str = "---\ntags:\n- my_tag\n---\nSameData #super_tag ##no_tag and #warning_tag! #two-tag #kek;d #dfds# #all, #татар #d😭";
const TEST_ARRAY_DATA: &[&str] = &[
    "my_tag",
    "super_tag",
    "warning_tag",
    "two-tag",
    "kek",
    "dfds",
    "all",
    "татар",
    "d😭",
];

fn note(text: &str) -> NoteInMemory {
    NoteInMemory::from_string(text).unwrap()
}

#[test]
fn impl_from_string_tags() {
    let tags = note(TEST_STR_DATA).tags().unwrap();

    assert_eq!(tags, TEST_ARRAY_DATA);
}

#[test]
fn impl_from_file_tags() {
    let read = |_path: &str| -> Result<String, String> { Ok(TEST_STR_DATA.to_string()) };
    let file = NoteOnDisk::from_file("note.md", true, read, default_properties).unwrap();

    assert_eq!(file.tags().unwrap(), TEST_ARRAY_DATA);
}

#[test]
fn tags_of_content_takes_words_behind_one_hash() {
    assert_eq!(tags_of_content("#a #b"), ["a", "b"]);
    assert_eq!(tags_of_content("#"), Vec::<String>::new());
    assert_eq!(tags_of_content("##a"), Vec::<String>::new());
    assert_eq!(tags_of_content("a#b"), Vec::<String>::new());
    assert_eq!(tags_of_content("#-_9 #!x #x!y\n#z\t#"), ["-_9", "x", "z"]);
    assert_eq!(tags_of_content("#a#b"), ["a"]);
    assert_eq!(tags_of_content("#😭"), ["😭"]);
    assert_eq!(tags_of_content(""), Vec::<String>::new());
}

#[test]
fn tags_that_are_no_list_are_an_error() {
    let result = note("---\ntags:\n  a: b\n---\n#x").tags();

    assert!(matches!(result, Err(NoteError::Yaml(_))));
}

#[test]
fn a_note_without_metadata_has_the_tags_of_its_content() {
    assert_eq!(note("text #one").tags().unwrap(), ["one"]);
}

#[test]
fn impl_from_string_is_todo() {
    assert!(note("---\ntags:\n- todo\n---\nSameData todo").is_todo().unwrap());
    assert!(note("SameData #todo").is_todo().unwrap());
}

#[test]
fn impl_from_string_is_not_todo() {
    assert!(!note("---\ntags:\n- not_todo\n---\nSameData").is_todo().unwrap());
    assert!(!note("SameData todo #todos").is_todo().unwrap());
}

#[test]
fn impl_from_string_have_aliases() {
    let note = note("---\naliases:\n- my_alias\n---\nSameData");

    assert_eq!(note.aliases().unwrap(), vec!["my_alias".to_string()]);
    assert_eq!(note.count_aliases().unwrap(), 1);
    assert!(note.have_aliases().unwrap());
}

#[test]
fn impl_from_string_have_not_aliases() {
    let note = note("---\ntags:\n- todo\n---\nSameData");

    assert!(note.aliases().unwrap().is_empty());
    assert_eq!(note.count_aliases().unwrap(), 0);
    assert!(!note.have_aliases().unwrap());
    assert!(!NoteInMemory::from_string("SameData")
        .unwrap()
        .have_aliases()
        .unwrap());
}

#[test]
fn count_words_and_symbols() {
    let data = "---\ntags:\n- my_tag\n---\n My super note";
    let content = "My super note";
    let note = note(data);

    assert_eq!(note.count_words_from_content().unwrap(), 3);
    assert_eq!(note.count_symbols_from_content().unwrap(), content.len());
    assert_eq!(
        NoteInMemory::from_string(" \t\n")
            .unwrap()
            .count_words_from_content()
            .unwrap(),
        0
    );
    assert_eq!(
        NoteInMemory::from_string("é")
            .unwrap()
            .count_symbols_from_content()
            .unwrap(),
        2
    );
}
