use obsidian_parser::note::note_aliases::NoteAliases;
use obsidian_parser::note::note_on_disk::SourceError;
use obsidian_parser::note::note_once_lock::NoteOnceLock;
use obsidian_parser::note::note_tags::NoteTags;
use obsidian_parser::note::Note;
use obsidian_parser::vault::vault_open::options::VaultOptions;
use obsidian_parser::vault::Vault;
use obsidian_parser::yaml::default_properties;
use rayon::iter::{IntoParallelIterator, ParallelIterator};
use std::borrow::Cow;
use std::cell::Cell;
use std::collections::HashMap;
use std::sync::Mutex;

fn reader(text: &'static str) -> impl Fn(&str) -> Result<String, String> {
    move |_path: &str| Ok(text.to_string())
}

#[test]
fn note_once_lock_use_from_file_with_path_not_file() {
    let result = NoteOnceLock::from_file("/tmp/dir", false, reader(""), default_properties);

    assert!(matches!(result, Err(SourceError::IsNotFile(path)) if path == "/tmp/dir"));
}

#[test]
fn note_once_lock_get_path() {
    let file = NoteOnceLock::from_file("/tmp/note.md", true, reader(""), default_properties).unwrap();

    assert_eq!(file.path().unwrap(), "/tmp/note.md");
    assert_eq!(file.note_name(), Some("note".to_string()));
}

#[test]
fn note_once_lock_get_content() {
    let test_data = "DATA";
    let file = NoteOnceLock::from_file("/tmp/note.md", true, reader(test_data), default_properties).unwrap();

    assert_eq!(file.content().unwrap(), test_data);
}

#[test]
fn note_once_lock_get_properties() {
    let test_data = "---\ntime: now\n---\nDATA";
    let file = NoteOnceLock::from_file("/tmp/note.md", true, reader(test_data), default_properties).unwrap();
    let properties = file.properties().unwrap().unwrap();

    assert_eq!(file.content().unwrap(), "DATA");
    assert_eq!(properties["time"], serde_yml::Value::from("now"));
}

#[test]
fn note_once_lock_keeps_what_it_read_first() {
    let reads = Cell::new(0);
    let read = |_path: &str| -> Result<String, String> {
        reads.set(reads.get() + 1);
        Ok(format!("---\nread: {}\n---\nread {}", reads.get(), reads.get()))
    };
    let file = NoteOnceLock::from_file("a.md", true, read, default_properties).unwrap();

    assert!(matches!(file.content().unwrap(), Cow::Borrowed("read 1")));
    assert!(matches!(file.content().unwrap(), Cow::Borrowed("read 1")));
    assert_eq!(reads.get(), 1);

    let first = file.properties().unwrap().unwrap();
    let second = file.properties().unwrap().unwrap();
    assert_eq!(first["read"], serde_yml::Value::from(2));
    assert_eq!(first, second);
    assert!(matches!(second, Cow::Borrowed(_)));
    assert_eq!(file.content().unwrap(), "read 1");
    assert_eq!(reads.get(), 2);
}

#[test]
fn note_once_lock_keeps_that_there_is_no_metadata() {
    let reads = Cell::new(0);
    let read = |_path: &str| -> Result<String, String> {
        reads.set(reads.get() + 1);
        Ok("no block".to_string())
    };
    let file = NoteOnceLock::from_file("a.md", true, read, default_properties).unwrap();

    assert_eq!(file.properties().unwrap(), None);
    assert_eq!(file.properties().unwrap(), None);
    assert_eq!(reads.get(), 1);
}

#[test]
fn note_once_lock_does_not_keep_an_error() {
    let reads = Cell::new(0);
    let read = |_path: &str| -> Result<String, String> {
        reads.set(reads.get() + 1);
        if reads.get() == 1 {
            Err("not yet".to_string())
        } else {
            Ok("there".to_string())
        }
    };
    let file = NoteOnceLock::from_file("a.md", true, read, default_properties).unwrap();

    assert!(matches!(file.content(), Err(SourceError::IO(e)) if e == "not yet"));
    assert_eq!(file.content().unwrap(), "there");
    assert_eq!(file.content().unwrap(), "there");
    assert_eq!(reads.get(), 2);
}

#[test]
fn note_once_lock_does_not_keep_a_text_it_cannot_split() {
    let reads = Cell::new(0);
    let read = |_path: &str| -> Result<String, String> {
        reads.set(reads.get() + 1);
        if reads.get() < 3 {
            Ok("---\nopen: [".to_string())
        } else {
            Ok("---\nopen: [\n---\nbody".to_string())
        }
    };
    let file = NoteOnceLock::from_file("a.md", true, read, default_properties).unwrap();

    assert!(matches!(file.content(), Err(SourceError::InvalidFormat(_))));
    assert!(matches!(file.properties(), Err(SourceError::InvalidFormat(_))));
    assert!(matches!(file.properties(), Err(SourceError::Yaml(_))));
    assert_eq!(file.content().unwrap(), "body");
    assert_eq!(reads.get(), 4);
}

#[test]
fn note_once_lock_set_path_keeps_what_was_read() {
    let read = |path: &str| -> Result<String, String> { Ok(path.to_string()) };
    let mut file = NoteOnceLock::from_file("a.md", true, read, default_properties).unwrap();

    assert_eq!(file.content().unwrap(), "a.md");
    file.set_path("b.md".to_string());
    assert_eq!(file.path().unwrap(), "b.md");
    assert_eq!(file.content().unwrap(), "a.md");
    assert_eq!(file.properties().unwrap(), None);
}

#[test]
fn note_once_lock_gives_every_caller_the_same_content() {
    let reads = Mutex::new(0);
    let read = |_path: &str| -> Result<String, String> {
        *reads.lock().unwrap() += 1;
        Ok("---\ntags: [a]\n---\nthe one content".to_string())
    };
    let file = NoteOnceLock::from_file("a.md", true, read, default_properties).unwrap();

    let seen: Vec<String> = (0..256)
        .into_par_iter()
        .map(|_| file.content().unwrap().into_owned())
        .collect();

    assert_eq!(seen.len(), 256);
    assert!(seen.iter().all(|text| text == "the one content"));
    let before = *reads.lock().unwrap();
    assert!(before >= 1);
    assert!(matches!(file.content().unwrap(), Cow::Borrowed("the one content")));
    assert_eq!(*reads.lock().unwrap(), before);
}

#[test]
fn note_once_lock_gives_every_caller_what_it_keeps_when_the_source_changes() {
    let reads = Mutex::new(0);
    let read = |_path: &str| -> Result<String, String> {
        let mut count = reads.lock().unwrap();
        *count += 1;
        Ok(format!("read {}", *count))
    };
    let file = NoteOnceLock::from_file("a.md", true, read, default_properties).unwrap();

    let seen: Vec<String> = (0..64)
        .into_par_iter()
        .map(|_| file.content().unwrap().into_owned())
        .collect();
    let kept = file.content().unwrap().into_owned();

    assert_eq!(seen.len(), 64);
    assert!(seen.iter().all(|text| text == &kept));
    assert_eq!(file.content().unwrap(), kept.as_str());
    let after = *reads.lock().unwrap();
    assert!(after >= 1 && after <= 64);
}

#[test]
fn note_once_lock_lists_tags_and_aliases() {
    let text = "---\ntags: [a, b]\naliases: [other]\n---\nbody #c";
    let file = NoteOnceLock::from_file("a.md", true, reader(text), default_properties).unwrap();

    assert_eq!(file.tags().unwrap(), vec!["a", "b", "c"]);
    assert_eq!(file.aliases().unwrap(), vec!["other"]);
}

#[test]
fn note_once_lock_stands_in_a_vault() {
    let read = |path: &str| -> Result<String, String> {
        Ok(if path == "v/a.md" { "[[b]]".to_string() } else { "[[a]] [[a]]".to_string() })
    };
    let notes = vec![
        NoteOnceLock::from_file("v/a.md", true, read, default_properties).unwrap(),
        NoteOnceLock::from_file("v/b.md", true, read, default_properties).unwrap(),
    ];
    let vault = Vault::build_vault(notes, &VaultOptions::new("v"), true).unwrap();

    let graph = vault.get_digraph().unwrap();
    assert_eq!(graph.node_count(), 2);
    assert_eq!(graph.edge_count(), 3);
    assert!(!vault.have_duplicates_notes_by_name());
}

#[test]
fn note_once_lock_keeps_metadata_of_its_own_type() {
    let reads = Cell::new(0);
    let read = |_path: &str| -> Result<String, String> {
        reads.set(reads.get() + 1);
        Ok(format!("---\nstep: {}\n---\nbody", reads.get()))
    };
    let decodes = Cell::new(0);
    let decode = |block: &str| -> Result<HashMap<String, u32>, serde_yml::Error> {
        decodes.set(decodes.get() + 1);
        serde_yml::from_str(block)
    };
    let file = NoteOnceLock::from_file("a.md", true, read, decode).unwrap();

    assert_eq!(file.properties().unwrap().unwrap()["step"], 1);
    assert_eq!(file.properties().unwrap().unwrap()["step"], 1);
    assert!(matches!(file.properties().unwrap(), Some(Cow::Borrowed(_))));
    assert_eq!(file.content().unwrap(), "body");
    assert_eq!(reads.get(), 2);
    assert_eq!(decodes.get(), 1);
}

#[test]
fn note_once_lock_does_not_keep_an_error_of_its_decoder() {
    let reads = Cell::new(0);
    let read = |_path: &str| -> Result<String, String> {
        reads.set(reads.get() + 1);
        if reads.get() == 1 {
            Ok("---\nstep: one\n---\nbody".to_string())
        } else {
            Ok("---\nstep: 2\n---\nbody".to_string())
        }
    };
    let decode =
        |block: &str| -> Result<HashMap<String, u32>, serde_yml::Error> { serde_yml::from_str(block) };
    let file = NoteOnceLock::from_file("a.md", true, read, decode).unwrap();

    assert!(matches!(file.properties(), Err(SourceError::Yaml(_))));
    assert_eq!(file.properties().unwrap().unwrap()["step"], 2);
    assert_eq!(file.properties().unwrap().unwrap()["step"], 2);
    assert_eq!(reads.get(), 2);
}

#[test]
fn note_once_lock_gives_every_caller_the_same_metadata() {
    let reads = Mutex::new(0);
    let read = |_path: &str| -> Result<String, String> {
        let mut count = reads.lock().unwrap();
        *count += 1;
        Ok(format!("---\nread: {}\n---\nbody", *count))
    };
    let file = NoteOnceLock::from_file("a.md", true, read, default_properties).unwrap();

    let seen: Vec<serde_yml::Value> = (0..64)
        .into_par_iter()
        .map(|_| file.properties().unwrap().unwrap()["read"].clone())
        .collect();
    let kept = file.properties().unwrap().unwrap()["read"].clone();

    assert_eq!(seen.len(), 64);
    assert!(seen.iter().all(|value| value == &kept));
    assert!(matches!(file.properties().unwrap(), Some(Cow::Borrowed(_))));
}

#[test]
fn note_once_lock_answers_with_what_it_keeps_after_the_source_is_gone() {
    let read = |path: &str| -> Result<String, String> {
        if path == "there.md" {
            Ok("---\nkey: value\n---\nbody".to_string())
        } else {
            Err("gone".to_string())
        }
    };
    let mut file = NoteOnceLock::from_file("there.md", true, read, default_properties).unwrap();

    assert_eq!(file.content().unwrap(), "body");
    file.set_path("gone.md".to_string());
    assert_eq!(file.content().unwrap(), "body");
    assert!(matches!(file.properties(), Err(SourceError::IO(e)) if e == "gone"));
    file.set_path("there.md".to_string());
    assert_eq!(file.properties().unwrap().unwrap()["key"], serde_yml::Value::from("value"));
    file.set_path("gone.md".to_string());
    assert_eq!(file.properties().unwrap().unwrap()["key"], serde_yml::Value::from("value"));
}
