use obsidian_parser::note::note_in_memory::NoteInMemory;
use obsidian_parser::vault::vault_open::options::VaultOptions;
use obsidian_parser::vault::vault_open::{
    all_parsed, ignored_hidden_files, keep_parsed, FilesBuilder, VaultBuilder,
};
use obsidian_parser::vault::vault_petgraph::graph_builder::{
    batches_of, digraph_absorb, digraph_receive, digraph_with_nodes, ungraph_absorb,
    ungraph_receive, ungraph_with_nodes, GraphBuilder, CHUNK_SIZE,
};
use obsidian_parser::vault::{Vault, VaultError};
use petgraph::visit::EdgeRef;

const TEST_MAIN_DATA: &str =
    "---\ntopic: work\ncreated: 15-04-2006\n---\nMain data. Other [[data/main|main]]";
const TEST_LINK_DATA: &str = "---\ntopic: kinl\ncreated: 15-04-2006\n---\n[[main]]";
const TEST_MAIN2_DATA: &str = "New main. [[link]]";

fn note(text: &str, path: &str) -> NoteInMemory {
    NoteInMemory::from_text(text, Some(path.to_string())).unwrap()
}

fn create_files_for_vault() -> (VaultOptions, Vec<NoteInMemory>) {
    let options = VaultOptions::new("/tmp/vault");
    let notes = vec![
        note(TEST_MAIN_DATA, "/tmp/vault/main.md"),
        note(TEST_MAIN2_DATA, "/tmp/vault/data/main.md"),
        note(TEST_LINK_DATA, "/tmp/vault/link.md"),
    ];

    (options, notes)
}

#[test]
fn notes() {
    let (options, files) = create_files_for_vault();
    let count = files.len();
    let vault = Vault::build_vault(files, &options, true).unwrap();

    assert_eq!(vault.notes().len(), count);
}

#[test]
fn count_notes() {
    let (options, files) = create_files_for_vault();
    let count = files.len();
    let vault = Vault::build_vault(files, &options, true).unwrap();

    assert_eq!(vault.count_notes(), count);
}

#[test]
fn path() {
    let (options, files) = create_files_for_vault();
    let vault = Vault::build_vault(files, &options, true).unwrap();

    assert_eq!(vault.path(), options.path());
    assert_eq!(vault.path(), "/tmp/vault");
}

#[test]
fn mut_notes_changes_the_vault() {
    let (options, files) = create_files_for_vault();
    let mut vault = Vault::build_vault(files, &options, true).unwrap();
    vault.mut_notes().pop();

    assert_eq!(vault.count_notes(), 2);
    assert_eq!(vault.path(), "/tmp/vault");
}

#[test]
fn the_root_must_be_a_directory() {
    let (options, files) = create_files_for_vault();
    let opened = Vault::build_vault(files, &options, true).unwrap();
    assert_eq!(opened.count_notes(), 3);
    assert_eq!(opened.path(), "/tmp/vault");

    let (options, files) = create_files_for_vault();
    assert_eq!(
        Vault::build_vault(files, &options, false).err(),
        Some(VaultError::IsNotDir("/tmp/vault".to_string()))
    );
}

#[test]
fn files_that_cannot_be_read_are_put_up_with_or_not() {
    let results = vec![Ok(1), Err("a"), Ok(2), Err("b"), Ok(3)];
    assert_eq!(keep_parsed(results.clone()), (vec![1, 2, 3], vec!["a", "b"]));
    assert_eq!(all_parsed(results), Err("a"));

    let results: Vec<Result<u8, &str>> = vec![Ok(1), Ok(2)];
    assert_eq!(keep_parsed(results.clone()), (vec![1, 2], vec![]));
    assert_eq!(all_parsed(results), Ok(vec![1, 2]));

    let results: Vec<Result<u8, &str>> = vec![];
    assert_eq!(keep_parsed(results.clone()), (vec![], vec![]));
    assert_eq!(all_parsed(results), Ok(vec![]));
}

#[test]
fn a_plain_walk_passes_over_hidden_entries() {
    let options = VaultOptions::new("vault");
    let builder = FilesBuilder::new(&options);

    assert_eq!(builder.options().path(), "vault");
    assert!(builder.enters_entry(0, ".vault"));
    assert!(!builder.enters_entry(1, "vault/.obsidian"));
    assert!(builder.enters_entry(1, "vault/notes"));
    assert!(builder.takes_file(true, "vault/notes/a.md"));
    assert!(!builder.takes_file(false, "vault/notes/a.md"));
    assert!(!builder.takes_file(true, "vault/notes/a.txt"));

    let builder = builder.include_hidden(true);
    assert!(builder.enters_entry(1, "vault/.obsidian"));
    assert_eq!(builder, FilesBuilder::new(&options).include_hidden(true));

    assert!(ignored_hidden_files(true, ".a"));
    assert!(!ignored_hidden_files(false, ".a"));
    assert!(ignored_hidden_files(false, "a"));
}

#[test]
fn a_walk_keeps_its_settings() {
    let options = VaultOptions::new("vault");
    let builder = VaultBuilder::new(&options);

    assert_eq!(builder.options().path(), "vault");
    assert!(!builder.follows());
    assert!(builder.follows_root());
    assert_eq!(builder.greatest_depth(), usize::MAX);
    assert_eq!(builder.least_depth(), 1);
    assert!(!builder.enters_entry("vault/.git"));
    assert!(builder.takes_file(1, true, "vault/a.md"));
    assert!(!builder.takes_file(0, true, "vault/a.md"));

    let builder = builder
        .include_hidden(true)
        .follow_links(true)
        .follow_root_links(false)
        .min_depth(2)
        .max_depth(3);

    assert!(builder.follows());
    assert!(!builder.follows_root());
    assert_eq!(builder.greatest_depth(), 3);
    assert_eq!(builder.least_depth(), 2);
    assert!(builder.enters_entry("vault/.git"));
    assert!(!builder.takes_file(1, true, "vault/a.md"));
    assert!(builder.takes_file(2, true, "vault/a/b.md"));
    assert!(builder.takes_file(3, true, "vault/a/b/c.MD"));
    assert!(!builder.takes_file(4, true, "vault/a/b/c/d.md"));
    assert!(!builder.takes_file(3, false, "vault/a/b/c.md"));
    assert_ne!(builder, VaultBuilder::new(&options));
}

#[test]
fn notes_are_cut_into_batches() {
    assert_eq!(CHUNK_SIZE, 10);
    assert_eq!(batches_of(0, 10), vec![]);
    assert_eq!(batches_of(1, 10), vec![(0, 1)]);
    assert_eq!(batches_of(10, 10), vec![(0, 10)]);
    assert_eq!(batches_of(11, 10), vec![(0, 10), (10, 11)]);
    assert_eq!(batches_of(25, 10), vec![(0, 10), (10, 20), (20, 25)]);
    assert_eq!(batches_of(3, 1), vec![(0, 1), (1, 2), (2, 3)]);
    assert_eq!(
        batches_of(usize::MAX, usize::MAX - 1),
        vec![(0, usize::MAX - 1), (usize::MAX - 1, usize::MAX)]
    );
}

#[test]
fn the_edges_of_the_batches_are_the_edges_of_the_vault() {
    let options = VaultOptions::new("v");
    let mut notes = Vec::new();
    for i in 0..23 {
        let text = format!("[[n{}]] [[missing]] [[d/n{}|alias]]", (i + 1) % 23, (i * 7) % 23);
        let path = if i % 2 == 0 {
            format!("v/n{}.md", i)
        } else {
            format!("v/d/n{}.md", i)
        };
        notes.push(note(&text, &path));
    }
    let vault = Vault::build_vault(notes, &options, true).unwrap();
    let whole: Vec<(usize, usize)> = vault
        .get_digraph()
        .unwrap()
        .edge_references()
        .map(|e| (e.source().index(), e.target().index()))
        .collect();

    let builder = GraphBuilder::new(&vault);
    let (index, fulls) = builder.create_index();
    assert_eq!(fulls[1], "d/n1");
    assert_eq!(builder.create_edges(&index, &fulls).unwrap(), whole);

    let mut directed = digraph_with_nodes(vault.count_notes());
    let mut undirected = ungraph_with_nodes(vault.count_notes());
    for (lo, hi) in batches_of(vault.count_notes(), 4) {
        let edges = builder.batch_edges(&index, &fulls, lo, hi).unwrap();
        digraph_absorb(&mut directed, &edges);
        ungraph_absorb(&mut undirected, &edges);
    }
    let batched: Vec<(usize, usize)> = directed
        .edge_references()
        .map(|e| (e.source().index(), e.target().index()))
        .collect();
    let joined: Vec<(usize, usize)> = undirected
        .edge_references()
        .map(|e| (e.source().index(), e.target().index()))
        .collect();

    assert_eq!(batched, whole);
    assert_eq!(joined, whole);
    assert_eq!(directed.node_count(), 23);
    assert_eq!(whole.len(), 23 + 11);
    assert!(directed.is_directed());
    assert!(!undirected.is_directed());
}

#[test]
fn a_later_note_takes_the_full_key_of_an_earlier_one() {
    let options = VaultOptions::new("v");
    let notes = vec![
        note("[[b]]", "v/a.md"),
        note("[[a]] [[v/a]]", "v/b.md"),
        note("[[b]] [[a.md]]", "v/a.txt"),
    ];
    let vault = Vault::build_vault(notes, &options, true).unwrap();
    let edges: Vec<(usize, usize)> = vault
        .get_digraph()
        .unwrap()
        .edge_references()
        .map(|e| (e.source().index(), e.target().index()))
        .collect();

    // The notes at 0 and at 2 have the full key `a`: both are found at 2 by
    // it, and at 0 by their name, which the note at 0 had first.
    assert_eq!(edges, vec![(2, 1), (1, 0), (2, 1)]);
}

#[test]
fn an_error_that_arrives_stops_the_gathering() {
    let mut graph = digraph_with_nodes(3);

    let state = digraph_receive(&mut graph, Ok(()), Ok(vec![(0, 1)]));
    assert_eq!(state, Ok(()));
    let state = digraph_receive(&mut graph, state, Err("first"));
    assert_eq!(state, Err("first"));
    let state = digraph_receive(&mut graph, state, Ok(vec![(1, 2)]));
    assert_eq!(state, Err("first"));
    let state = digraph_receive(&mut graph, state, Err("second"));
    assert_eq!(state, Err("first"));
    assert_eq!(graph.edge_count(), 1);

    let mut graph = ungraph_with_nodes(2);
    let state: Result<(), &str> = ungraph_receive(&mut graph, Ok(()), Ok(vec![(0, 1), (1, 0)]));
    assert_eq!(state, Ok(()));
    assert_eq!(ungraph_receive(&mut graph, state, Err("gone")), Err("gone"));
    assert_eq!(graph.edge_count(), 2);
}
