use obsidian_parser::note::note_on_disk::{properties_of_source_with, NoteOnDisk, SourceError};
use obsidian_parser::note::Note;
use obsidian_parser::parser::ParseError;
use obsidian_parser::yaml::default_properties;
use std::cell::Cell;

fn reader(text: &'static str) -> impl Fn(&str) -> Result<String, String> {
    move |_path: &str| Ok(text.to_string())
}

#[test]
fn note_on_disk_use_from_file_with_path_not_file() {
    let result = NoteOnDisk::from_file("/tmp/dir", false, reader(""), default_properties);

    assert!(matches!(result, Err(SourceError::IsNotFile(path)) if path == "/tmp/dir"));
}

#[test]
fn note_on_disk_get_path() {
    let file = NoteOnDisk::from_file("/tmp/note.md", true, reader(""), default_properties).unwrap();

    assert_eq!(file.path().unwrap(), "/tmp/note.md");
    assert_eq!(file.note_name(), Some("note".to_string()));
}

#[test]
fn note_on_disk_get_content() {
    let test_data = "DATA";
    let file = NoteOnDisk::from_file("/tmp/note.md", true, reader(test_data), default_properties).unwrap();

    assert_eq!(file.content().unwrap(), test_data);
}

#[test]
fn note_on_disk_get_properties() {
    let test_data = "---\ntime: now\n---\nDATA";
    let file = NoteOnDisk::from_file("/tmp/note.md", true, reader(test_data), default_properties).unwrap();
    let properties = file.properties().unwrap().unwrap();

    assert_eq!(file.content().unwrap(), "DATA");
    assert_eq!(properties["time"], serde_yml::Value::from("now"));
}

#[test]
fn note_on_disk_reads_the_source_each_time() {
    let reads = Cell::new(0);
    let read = |path: &str| -> Result<String, String> {
        reads.set(reads.get() + 1);
        Ok(format!("read {} of {}", reads.get(), path))
    };
    let file = NoteOnDisk::from_file("a.md", true, read, default_properties).unwrap();

    assert_eq!(file.content().unwrap(), "read 1 of a.md");
    assert_eq!(file.content().unwrap(), "read 2 of a.md");
    assert_eq!(file.properties().unwrap(), None);
    assert_eq!(reads.get(), 3);
}

#[test]
fn note_on_disk_gives_the_error_of_the_reading() {
    let read = |path: &str| -> Result<String, String> { Err(format!("{} is gone", path)) };
    let file = NoteOnDisk::from_file("a.md", true, read, default_properties).unwrap();

    assert!(matches!(file.content(), Err(SourceError::IO(e)) if e == "a.md is gone"));
    assert!(matches!(file.properties(), Err(SourceError::IO(e)) if e == "a.md is gone"));
}

#[test]
fn note_on_disk_invalid_format() {
    let file = NoteOnDisk::from_file("a.md", true, reader("---\n"), default_properties).unwrap();

    assert!(matches!(
        file.content(),
        Err(SourceError::InvalidFormat(ParseError::NotFoundCloser))
    ));
    assert!(matches!(
        file.properties(),
        Err(SourceError::InvalidFormat(ParseError::NotFoundCloser))
    ));
}

#[test]
fn note_on_disk_set_path() {
    let read = |path: &str| -> Result<String, String> { Ok(path.to_string()) };
    let mut file = NoteOnDisk::from_file("a.md", true, read, default_properties).unwrap();
    file.set_path("dir/b.md".to_string());

    assert_eq!(file.path().unwrap(), "dir/b.md");
    assert_eq!(file.content().unwrap(), "dir/b.md");
}

#[test]
fn note_on_disk_invalid_yaml() {
    let file = NoteOnDisk::from_file("a.md", true, reader("---\n- a\n- b\n---\nbody"), default_properties).unwrap();

    assert!(matches!(file.properties(), Err(SourceError::Yaml(_))));
    assert_eq!(file.content().unwrap(), "body");
}

#[test]
fn note_on_disk_metadata_of_its_own_type() {
    let reads = Cell::new(0);
    let read = |_path: &str| -> Result<String, String> {
        reads.set(reads.get() + 1);
        Ok(format!("---\n- {}\n- 7\n---\nbody", reads.get()))
    };
    let decode = |block: &str| -> Result<Vec<u32>, serde_yml::Error> { serde_yml::from_str(block) };
    let file = NoteOnDisk::from_file("a.md", true, &read, decode).unwrap();
    let untyped = NoteOnDisk::from_file("a.md", true, &read, default_properties).unwrap();

    assert_eq!(file.properties().unwrap().map(|p| p.into_owned()), Some(vec![1, 7]));
    assert_eq!(file.properties().unwrap().map(|p| p.into_owned()), Some(vec![2, 7]));
    assert!(matches!(untyped.properties(), Err(SourceError::Yaml(_))));
    assert_eq!(file.content().unwrap(), "body");
    assert_eq!(reads.get(), 4);
}

#[test]
fn note_on_disk_fails_as_its_decoder_does() {
    let decode = |block: &str| -> Result<u32, serde_yml::Error> { serde_yml::from_str(block) };
    let file = NoteOnDisk::from_file("a.md", true, reader("---\nthree\n---\nbody"), decode).unwrap();
    let none = NoteOnDisk::from_file("a.md", true, reader("body"), decode).unwrap();

    assert!(matches!(file.properties(), Err(SourceError::Yaml(_))));
    assert_eq!(file.content().unwrap(), "body");
    assert_eq!(none.properties().unwrap(), None);
}

#[test]
fn metadata_of_its_own_type_from_what_was_read() {
    let decode = |block: &str| -> Result<usize, serde_yml::Error> { Ok(block.len()) };
    let number = |block: &str| -> Result<u32, serde_yml::Error> { serde_yml::from_str(block) };

    let found = properties_of_source_with::<usize, String, _>(Ok("---\nabc\n---\nbody".to_string()), &decode);
    assert_eq!(found.unwrap(), Some(3));

    let none = properties_of_source_with::<usize, String, _>(Ok("body".to_string()), &decode);
    assert_eq!(none.unwrap(), None);

    let open = properties_of_source_with::<usize, String, _>(Ok("---\nabc".to_string()), &decode);
    assert!(matches!(open, Err(SourceError::InvalidFormat(ParseError::NotFoundCloser))));

    let unread = properties_of_source_with::<usize, String, _>(Err("gone".to_string()), &decode);
    assert!(matches!(unread, Err(SourceError::IO(e)) if e == "gone"));

    let wrong = properties_of_source_with::<u32, String, _>(Ok("---\nabc\n---\nbody".to_string()), &number);
    assert!(matches!(wrong, Err(SourceError::Yaml(_))));
}
