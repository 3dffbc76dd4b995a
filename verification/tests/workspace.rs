use tantivy::schema::{Schema, STRING};
use ygrep_core::index::location::{hash_path, hex16};
use ygrep_core::index::metadata::{flag_of_parsed, metadata_text, read_semantic_flag};
use ygrep_core::index::run::{FileOutcome, FileStep};
use ygrep_core::index::schema::doc_id_field;
use ygrep_core::search::searcher::Request;
use ygrep_core::workspace::{IndexFiles, IndexOpening};
use ygrep_core::{SearchConfig, Workspace, YgrepError};

const CONFIG: SearchConfig = SearchConfig { default_limit: 20, max_limit: 100 };
const NO_FILES: IndexFiles = IndexFiles { workspace_json: false, meta_json: false };
const ALL_FILES: IndexFiles = IndexFiles { workspace_json: true, meta_json: true };

fn workspace(engine: bool) -> Workspace {
    Workspace::create_with_config("/w".to_string(), CONFIG, engine, NO_FILES).unwrap()
}

#[test]
fn opening_needs_an_indexed_workspace() {
    for (workspace_json, meta_json) in [(false, false), (false, true), (true, false)] {
        let part = IndexFiles { workspace_json, meta_json };
        match Workspace::open_with_config("/w/x".to_string(), CONFIG, false, part) {
            Err(YgrepError::Config(message)) => assert_eq!(message, "Workspace not indexed: /w/x"),
            _ => panic!("a workspace that is not indexed was opened"),
        }
    }
    let opened = Workspace::open_with_config("/w/x".to_string(), CONFIG, false, ALL_FILES).unwrap();
    assert_eq!((opened.root(), opened.opening()), ("/w/x", IndexOpening::Open));
}

#[test]
fn creating_makes_an_index_where_there_is_none() {
    assert_eq!(workspace(false).opening(), IndexOpening::Create);
    let there = Workspace::create_with_config("/w".to_string(), CONFIG, false, ALL_FILES).unwrap();
    assert_eq!(there.opening(), IndexOpening::Open);
    let noted_only = IndexFiles { workspace_json: true, meta_json: false };
    let made = Workspace::create_with_config("/w".to_string(), CONFIG, false, noted_only).unwrap();
    assert_eq!(made.opening(), IndexOpening::Create);
}

#[test]
fn openings_of_one_root_meet() {
    let made = Workspace::create_with_config("/w".to_string(), CONFIG, true, NO_FILES).unwrap();
    let again = Workspace::open_with_config("/w".to_string(), CONFIG, false, ALL_FILES).unwrap();
    let other = Workspace::open_with_config("/x".to_string(), CONFIG, false, ALL_FILES).unwrap();
    assert_eq!((made.root(), made.index_path()), (again.root(), again.index_path()));
    assert_ne!(made.index_path(), other.index_path());
}

#[test]
fn hash_as_sixteen_digits() {
    assert_eq!(hex16(0), "0000000000000000");
    assert_eq!(hex16(u64::MAX), "ffffffffffffffff");
    assert_eq!(hex16(0x0123_4567_89ab_cdef), "0123456789abcdef");
    for n in [1, 16, 255, 0x2d06_8005_38d3_94c2] {
        assert_eq!(hex16(n), format!("{:016x}", n));
    }
}

#[test]
fn name_of_an_index() {
    assert_eq!(hash_path(""), "2d06800538d394c2");
    let text = "/home/größe/projekt";
    assert_eq!(hash_path(text), format!("{:016x}", xxhash_rust::xxh3::xxh3_64(text.as_bytes())));
    assert_eq!(workspace(false).index_path(), vec!["indexes".to_string(), hash_path("/w")]);
}

#[test]
fn semantic_flag_reads_back() {
    for semantic in [true, false] {
        let text = metadata_text("/w \"x\"\n", "2024-01-02T03:04:05+00:00", 17, semantic);
        assert_eq!(read_semantic_flag(&text), Some(semantic));
        assert_eq!(workspace(false).stored_semantic_flag(Some(&text)), Some(semantic));
    }
    assert_eq!(workspace(false).stored_semantic_flag(None), None);
}

#[test]
fn metadata_as_written() {
    let text = metadata_text("/w", "now", 17, true);
    let expected = "{\n  \"files_indexed\": 17,\n  \"indexed_at\": \"now\",\n  \"semantic\": true,\n  \"workspace\": \"/w\"\n}";
    assert_eq!(text, expected);
}

#[test]
fn semantic_flag_of_other_texts() {
    for text in ["", "{", "[true]", "true", "{}", "{\"semantic\": 1}", "{\"semantic\": \"true\"}", "{\"a\": {\"semantic\": true}}"] {
        assert_eq!(read_semantic_flag(text), None, "{}", text);
    }
    assert_eq!(read_semantic_flag("{\"semantic\": false, \"x\": 1}"), Some(false));
    assert_eq!(flag_of_parsed(serde_json::from_str("{\"semantic\": true}")), Some(true));
    assert_eq!(flag_of_parsed(serde_json::from_str("{")), None);
}

#[test]
fn single_files() {
    let with = workspace(true);
    let without = workspace(false);
    assert_eq!(with.index_file(FileOutcome::Indexed), FileStep::Commit);
    assert_eq!(with.index_file(FileOutcome::TooLarge), FileStep::Skip);
    assert_eq!(with.index_file(FileOutcome::Failed), FileStep::Fail);
    assert_eq!(with.index_file_with_options(FileOutcome::Indexed, true), (FileStep::Commit, true));
    assert_eq!(with.index_file_with_options(FileOutcome::Indexed, false), (FileStep::Commit, false));
    assert_eq!(without.index_file_with_options(FileOutcome::Indexed, true), (FileStep::Commit, false));
    assert_eq!(with.index_file_with_options(FileOutcome::TooLarge, true), (FileStep::Skip, false));
}

#[test]
fn document_to_delete() {
    let mut builder = Schema::builder();
    builder.add_text_field("path", STRING);
    let field = builder.add_text_field("doc_id", STRING);
    let schema = builder.build();
    assert_eq!(doc_id_field(&schema).unwrap(), field.field_id());
    let w = workspace(false);
    assert_eq!(w.delete_file(&schema, "/w/src/a.rs").unwrap(), (1, "src/a.rs".to_string()));
    assert_eq!(w.delete_file(&schema, "/other/a.rs").unwrap(), (1, "/other/a.rs".to_string()));
    match w.delete_file(&Schema::builder().build(), "/w/a") {
        Err(YgrepError::Config(message)) => assert_eq!(message, "doc_id field not found in schema"),
        _ => panic!("a field was found in an empty schema"),
    }
}

#[test]
fn semantic_search_needs_vectors() {
    assert!(workspace(true).has_semantic_index(3));
    assert!(!workspace(true).has_semantic_index(0));
    assert!(!workspace(false).has_semantic_index(3));
}

#[test]
fn searches_of_a_workspace() {
    let w = workspace(false);
    assert_eq!(w.search("hello", None).limit(), 20);
    let run = w.search_filtered("hello", Some(4), Some(vec!["rs".to_string()]), None, false).unwrap();
    assert!(matches!(run.request(), Request::Terms { query, fetch_limit: Some(80) } if query == "hello"));
}
