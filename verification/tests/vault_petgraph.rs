use obsidian_parser::note::note_in_memory::NoteInMemory;
use obsidian_parser::note::note_on_disk::{NoteOnDisk, SourceError};
use obsidian_parser::parser::ParseError;
use obsidian_parser::vault::vault_open::options::VaultOptions;
use obsidian_parser::vault::vault_petgraph::index::Index;
use obsidian_parser::vault::Vault;
use obsidian_parser::yaml::default_properties;
use petgraph::visit::EdgeRef;

const TEST_MAIN_DATA: &str =
    "---\ntopic: work\ncreated: 15-04-2006\n---\nMain data. Other [[data/main|main]]";
const TEST_LINK_DATA: &str = "---\ntopic: kinl\ncreated: 15-04-2006\n---\n[[main]]";
const TEST_MAIN2_DATA: &str = "New main. [[link]]";

fn note(text: &str, path: &str) -> NoteInMemory {
    NoteInMemory::from_text(text, Some(path.to_string())).unwrap()
}

fn create_test_vault() -> (Vault<NoteInMemory>, usize) {
    let options = VaultOptions::new("/tmp/vault");
    let notes = vec![
        note(TEST_MAIN_DATA, "/tmp/vault/main.md"),
        note(TEST_MAIN2_DATA, "/tmp/vault/data/main.md"),
        note(TEST_LINK_DATA, "/tmp/vault/link.md"),
    ];
    let count = notes.len();

    (Vault::build_vault(notes, &options, true).unwrap(), count)
}

#[test]
fn get_digraph() {
    let (vault, files) = create_test_vault();
    assert!(vault.is_located());

    let graph = vault.get_digraph().unwrap();

    assert_eq!(graph.edge_count(), 3);
    assert_eq!(graph.node_count(), files);
}

#[test]
fn get_ungraph() {
    let (vault, files) = create_test_vault();
    assert!(vault.is_located());

    let graph = vault.get_ungraph().unwrap();

    assert_eq!(graph.edge_count(), 3);
    assert_eq!(graph.node_count(), files);
}

#[test]
fn get_digraph_edges_follow_the_links() {
    let (vault, _) = create_test_vault();
    let graph = vault.get_digraph().unwrap();

    let weights: Vec<usize> = graph.node_weights().copied().collect();
    assert_eq!(weights, vec![0, 1, 2]);

    let edges: Vec<(usize, usize)> = graph
        .edge_references()
        .map(|e| (e.source().index(), e.target().index()))
        .collect();
    // main -> data/main, data/main -> link, link -> main
    assert_eq!(edges, vec![(0, 1), (1, 2), (2, 0)]);
}

#[test]
fn links_that_name_no_note_give_no_edge() {
    let options = VaultOptions::new("vault");
    let notes = vec![
        note("[[b]] [[missing]] [[dir/missing]] [[b", "vault/a.md"),
        note("[[a#heading]] [[a|alias]] [[a]]", "vault/b.md"),
    ];
    let vault = Vault::build_vault(notes, &options, true).unwrap();
    let graph = vault.get_digraph().unwrap();

    assert_eq!(graph.node_count(), 2);
    let edges: Vec<(usize, usize)> = graph
        .edge_references()
        .map(|e| (e.source().index(), e.target().index()))
        .collect();
    assert_eq!(edges, vec![(0, 1), (1, 0), (1, 0), (1, 0)]);
}

#[test]
fn a_note_without_location_is_not_located() {
    let options = VaultOptions::new("vault");
    let notes = vec![NoteInMemory::from_text("text", None).unwrap()];
    let vault: Vault<NoteInMemory> = Vault::build_vault(notes, &options, true).unwrap();

    assert!(!vault.is_located());
}

#[test]
fn a_note_outside_the_root_is_not_located() {
    let options = VaultOptions::new("vault");
    let notes = vec![note("text", "vaults/a.md")];
    let vault = Vault::build_vault(notes, &options, true).unwrap();

    assert!(!vault.is_located());
}

#[test]
fn insert_and_get() {
    let mut index = Index::default();
    index.insert("123/123".to_string(), "123".to_string(), 3);

    assert_eq!(index.get("123"), Some(&3));
    assert_eq!(index.get("123/123"), Some(&3));
}

#[test]
fn full() {
    let mut index = Index::default();
    index.insert("123/123".to_string(), "123".to_string(), 3);

    assert_eq!(index.full("123/123"), Some(&3));
    assert_eq!(index.full("123"), None);
    assert_eq!(index.get("123"), Some(&3));
}

#[test]
fn the_first_note_keeps_a_short_key() {
    let mut index = Index::default();
    index.insert("a/n".to_string(), "n".to_string(), 0);
    index.insert("b/n".to_string(), "n".to_string(), 1);
    index.insert("a/n".to_string(), "m".to_string(), 2);

    assert_eq!(index.get("n"), Some(&0));
    assert_eq!(index.get("b/n"), Some(&1));
    assert_eq!(index.get("a/n"), Some(&2));
    assert_eq!(index.get("m"), Some(&2));
}

#[test]
fn a_graph_stops_at_the_first_note_that_cannot_be_read() {
    let read = |path: &str| -> Result<String, String> {
        if path == "v/a.md" {
            Ok("[[b]] [[c]]".to_string())
        } else if path == "v/b.md" {
            Ok("---\nnever closed".to_string())
        } else {
            Err(format!("cannot read {}", path))
        }
    };
    let notes = vec![
        NoteOnDisk::from_file("v/a.md", true, read, default_properties).unwrap(),
        NoteOnDisk::from_file("v/b.md", true, read, default_properties).unwrap(),
        NoteOnDisk::from_file("v/c.md", true, read, default_properties).unwrap(),
    ];
    let vault = Vault::build_vault(notes, &VaultOptions::new("v"), true).unwrap();

    assert!(matches!(
        vault.get_digraph(),
        Err(SourceError::InvalidFormat(ParseError::NotFoundCloser))
    ));
    assert!(matches!(
        vault.get_ungraph(),
        Err(SourceError::InvalidFormat(ParseError::NotFoundCloser))
    ));
}

#[test]
fn a_graph_of_notes_that_are_read_when_asked() {
    let read = |path: &str| -> Result<String, String> {
        Ok(if path == "v/a.md" { "[[b]]".to_string() } else { "[[a]] [[missing]]".to_string() })
    };
    let notes = vec![
        NoteOnDisk::from_file("v/a.md", true, read, default_properties).unwrap(),
        NoteOnDisk::from_file("v/b.md", true, read, default_properties).unwrap(),
    ];
    let vault = Vault::build_vault(notes, &VaultOptions::new("v"), true).unwrap();

    let graph = vault.get_digraph().unwrap();
    let edges: Vec<(usize, usize)> = graph
        .edge_references()
        .map(|e| (e.source().index(), e.target().index()))
        .collect();
    assert_eq!(edges, vec![(0, 1), (1, 0)]);
}
