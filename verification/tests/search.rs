use regex::RegexBuilder;
use tantivy::collector::TopDocs;
use tantivy::query::{AllQuery, Query, QueryParser};
use tantivy::schema::{Field, Schema, STORED, STRING, TEXT};
use tantivy::{Index, TantivyDocument};
use ygrep_core::search::document::{
    as_number, as_text, extract_text, extract_u64, read_candidate, Candidate, FieldValue, SchemaFields,
};
use ygrep_core::search::filters::SearchFilters;
use ygrep_core::search::results::SearchResult;
use ygrep_core::search::searcher::{Offer, Request, SearchRun, Searcher};
use ygrep_core::{SearchConfig, YgrepError};

const CONFIG: SearchConfig = SearchConfig { default_limit: 20, max_limit: 100 };

struct TestIndex {
    index: Index,
    fields: SchemaFields,
}

fn build_index(docs: &[(&str, &str, &str, u64, &str)]) -> TestIndex {
    let mut builder = Schema::builder();
    let doc_id = builder.add_text_field("doc_id", STRING | STORED);
    let path = builder.add_text_field("path", STRING | STORED);
    let content = builder.add_text_field("content", TEXT | STORED);
    let line_start = builder.add_u64_field("line_start", STORED);
    let chunk_id = builder.add_text_field("chunk_id", STRING | STORED);
    let index = Index::create_in_ram(builder.build());
    let mut writer = index.writer_with_num_threads(1, 50_000_000).unwrap();
    for (id, p, text, line, chunk) in docs {
        let mut doc = TantivyDocument::new();
        doc.add_text(doc_id, id);
        doc.add_text(path, p);
        doc.add_text(content, text);
        doc.add_u64(line_start, *line);
        doc.add_text(chunk_id, chunk);
        writer.add_document(doc).unwrap();
    }
    writer.commit().unwrap();
    TestIndex {
        index,
        fields: SchemaFields {
            doc_id: doc_id.field_id(),
            path: path.field_id(),
            content: content.field_id(),
            line_start: line_start.field_id(),
            chunk_id: chunk_id.field_id(),
        },
    }
}

impl TestIndex {
    fn carry_out(&self, mut run: SearchRun) -> SearchResult {
        let searcher = self.index.reader().unwrap().searcher();
        let parser = QueryParser::for_index(&self.index, vec![Field::from_field_id(self.fields.content)]);
        let (query, fetch_limit): (Box<dyn Query>, usize) = match run.request() {
            Request::Nothing => return run.finish(0),
            Request::Terms { query, fetch_limit } => (parser.parse_query_lenient(query).0, fetch_limit.unwrap()),
            Request::All { fetch_limit } => (Box::new(AllQuery), fetch_limit.unwrap()),
        };
        for (_, address) in searcher.search(&query, &TopDocs::with_limit(fetch_limit)).unwrap() {
            if !run.wants_more() {
                break;
            }
            let doc: TantivyDocument = searcher.doc(address).unwrap();
            assert_ne!(run.offer(read_candidate(&doc, self.fields)), Offer::Unnumbered);
        }
        run.finish(0)
    }
}

fn candidate(path: &str, content: &str) -> Candidate {
    Candidate {
        path: path.to_string(),
        doc_id: path.to_string(),
        content: content.to_string(),
        line_start: 1,
        chunk_id: String::new(),
    }
}

fn offer_all(mut run: SearchRun, docs: Vec<Candidate>) -> SearchResult {
    for doc in docs {
        if !run.wants_more() {
            break;
        }
        run.offer(doc);
    }
    run.finish(7)
}

fn paths(result: &SearchResult) -> Vec<&str> {
    result.hits.iter().map(|h| h.path.as_str()).collect()
}

#[test]
fn test_basic_search() {
    let index = build_index(&[("test1", "src/main.rs", "fn main() { println!(\"Hello, world!\"); }", 1, "")]);
    let searcher = Searcher::new(CONFIG);
    let result = index.carry_out(searcher.search("hello", None));

    assert_eq!(result.hits.len(), 1);
    assert_eq!(result.hits[0].path, "src/main.rs");
}

#[test]
fn indexed_files_are_found() {
    let index = build_index(&[
        ("hello.rs", "hello.rs", "fn hello_world() { println!(\"Hello!\"); }", 1, ""),
        ("goodbye.rs", "goodbye.rs", "fn goodbye_world() { println!(\"Bye!\"); }", 1, ""),
    ]);
    let result = index.carry_out(Searcher::new(CONFIG).search("hello", None));
    assert!(!result.is_empty());
    assert!(result.hits.iter().any(|h| h.path.contains("hello")));
    assert_eq!(paths(&result), vec!["hello.rs"]);
}

#[test]
fn search_with_an_expression() {
    let index = build_index(&[
        ("a", "a.rs", "fn  main() {}", 1, ""),
        ("b", "b.rs", "main fn", 1, ""),
        ("c", "c.md", "# Title", 1, ""),
    ]);
    let searcher = Searcher::new(CONFIG);
    let result = index.carry_out(searcher.search_regex("FN\\s+main", None).unwrap());
    assert_eq!(paths(&result), vec!["a.rs"]);
    // nothing to ask the index by: all documents are looked at
    let result = index.carry_out(searcher.search_regex("^#", None).unwrap());
    assert_eq!(paths(&result), vec!["c.md"]);
}

#[test]
fn what_is_read_of_a_document() {
    let index = build_index(&[("id", "p", "text", 41, "chunk")]);
    let searcher = index.index.reader().unwrap().searcher();
    let (_, address) = searcher.search(&AllQuery, &TopDocs::with_limit(1)).unwrap()[0];
    let doc: TantivyDocument = searcher.doc(address).unwrap();
    let f = index.fields;
    assert_eq!(extract_text(&doc, f.path), Some("p".to_string()));
    assert_eq!(extract_text(&doc, f.line_start), None);
    assert_eq!(extract_u64(&doc, f.line_start), Some(41));
    assert_eq!(extract_u64(&doc, f.path), None);
    assert_eq!(extract_text(&doc, 99), None);
    let read = read_candidate(&doc, f);
    assert_eq!((read.path.as_str(), read.doc_id.as_str(), read.content.as_str()), ("p", "id", "text"));
    assert_eq!((read.line_start, read.chunk_id.as_str()), (41, "chunk"));
}

#[test]
fn first_value_of_a_field_counts() {
    let mut doc = TantivyDocument::new();
    let field = Field::from_field_id(3);
    doc.add_text(field, "first");
    doc.add_text(field, "second");
    doc.add_bool(Field::from_field_id(4), true);
    doc.add_u64(Field::from_field_id(4), 5);
    assert_eq!(extract_text(&doc, 3), Some("first".to_string()));
    assert_eq!(extract_u64(&doc, 4), None);
    let fields = SchemaFields { doc_id: 0, path: 1, content: 3, line_start: 4, chunk_id: 5 };
    let read = read_candidate(&doc, fields);
    assert_eq!((read.path.as_str(), read.line_start), ("", 1));
}

#[test]
fn values_by_their_type() {
    assert_eq!(as_text(Some(FieldValue::Str("x".to_string()))), Some("x".to_string()));
    assert_eq!(as_text(Some(FieldValue::U64(1))), None);
    assert_eq!(as_number(Some(FieldValue::U64(1))), Some(1));
    assert_eq!(as_number(Some(FieldValue::Other)), None);
    assert_eq!(as_number(None), None);
}

#[test]
fn request_of_a_text_search() {
    let searcher = Searcher::new(CONFIG);
    let run = searcher.search("$foo->bar_baz(1)", Some(5));
    assert!(matches!(run.request(), Request::Terms { query, fetch_limit: Some(50) } if query == "foo bar_baz 1"));
    assert_eq!(run.limit(), 5);
    assert_eq!(searcher.search("x", None).limit(), 20);
    assert_eq!(searcher.search("x", Some(1000)).limit(), 100);
}

#[test]
fn request_of_a_search_with_an_expression() {
    let searcher = Searcher::new(CONFIG);
    let run = searcher.search_regex("fn\\s+main", Some(5)).unwrap();
    assert!(matches!(run.request(), Request::Terms { query, fetch_limit: Some(100) } if query == "fn main"));
    let run = searcher.search_regex(".*", Some(5)).unwrap();
    assert!(matches!(run.request(), Request::All { fetch_limit: Some(250) }));
}

#[test]
fn a_number_of_documents_that_is_too_large() {
    let searcher = Searcher::new(SearchConfig { default_limit: 1, max_limit: usize::MAX });
    let run = searcher.search("x", Some(usize::MAX));
    assert!(matches!(run.request(), Request::Terms { fetch_limit: None, .. }));
}

#[test]
fn query_without_terms_finds_nothing() {
    let run = Searcher::new(CONFIG).search("->", None);
    assert!(matches!(run.request(), Request::Nothing));
    assert!(!run.wants_more());
    let result = run.finish(3);
    assert_eq!((result.total, result.text_hits, result.semantic_hits, result.query_time_ms), (0, 0, 0, 3));
}

#[test]
fn literal_matching_with_special_characters() {
    let searcher = Searcher::new(CONFIG);
    let docs = || {
        vec![
            candidate("a", "let $Variable = 1;"),
            candidate("b", "variable"),
            candidate("c", "x->get(1)"),
            candidate("d", "get"),
            candidate("e", "{% BLOCK %}"),
            candidate("f", "%block"),
        ]
    };
    assert_eq!(paths(&offer_all(searcher.search("$variable", None), docs())), vec!["a"]);
    assert_eq!(paths(&offer_all(searcher.search("->get(", None), docs())), vec!["c"]);
    assert_eq!(paths(&offer_all(searcher.search("{% block", None), docs())), vec!["e"]);
}

#[test]
fn letter_case_does_not_matter() {
    let searcher = Searcher::new(CONFIG);
    for query in ["straße x", "STRASSE X", "Straße X"] {
        let found = offer_all(searcher.search(query, None), vec![candidate("a", "die STRAßE X")]).total;
        assert_eq!(found, if query.contains('ß') { 1 } else { 0 }, "{}", query);
    }
    assert_eq!(offer_all(searcher.search("ÉCOLE", None), vec![candidate("a", "école")]).total, 1);
}

#[test]
fn no_more_hits_than_wanted_and_in_order() {
    let docs: Vec<Candidate> =
        (0..10).map(|i| candidate(&format!("{}", i), if i % 2 == 0 { "needle" } else { "hay" })).collect();
    let result = offer_all(Searcher::new(CONFIG).search("needle", Some(3)), docs);
    assert_eq!(paths(&result), vec!["0", "2", "4"]);
    assert_eq!(result.hits.iter().map(|h| h.rank).collect::<Vec<_>>(), vec![0, 2, 4]);
    assert_eq!((result.total, result.text_hits, result.query_time_ms), (3, 3, 7));
}

#[test]
fn lines_of_a_hit() {
    let content: String = (0..40).map(|i| format!("row {}\n", i)).collect();
    let mut doc = candidate("a", &content);
    doc.line_start = 101;
    doc.chunk_id = "c1".to_string();
    let mut run = Searcher::new(CONFIG).search("row 20", None);
    // the first line that holds a word of the query is the first line
    assert_eq!(run.offer(doc), Offer::Hit);
    let mut other = candidate("b", "x\ny\nz\nneedle\nw");
    other.line_start = 11;
    assert_eq!(run.offer(other), Offer::Miss);
    let hits = run.finish(0).hits;
    assert_eq!((hits[0].line_start, hits[0].line_end, hits[0].is_chunk), (101, 108, true));

    let mut run = Searcher::new(CONFIG).search("needle", None);
    let mut other = candidate("b", "x\ny\nz\nneedle\nw");
    other.line_start = 11;
    assert_eq!(run.offer(other), Offer::Hit);
    let hits = run.finish(0).hits;
    assert_eq!((hits[0].line_start, hits[0].line_end, hits[0].is_chunk), (12, 15, false));
    assert_eq!(hits[0].snippet, "y\nz\nneedle\nw");
}

#[test]
fn lines_that_cannot_be_numbered() {
    let mut run = Searcher::new(CONFIG).search("needle", None);
    let mut doc = candidate("a", "x\nneedle");
    doc.line_start = u64::MAX;
    assert_eq!(run.offer(doc), Offer::Unnumbered);
    let mut doc = candidate("a", "x\nneedle");
    doc.line_start = u64::MAX - 1;
    assert_eq!(run.offer(doc), Offer::Hit);
    let mut doc = candidate("a", "x\nhay");
    doc.line_start = u64::MAX;
    assert_eq!(run.offer(doc), Offer::Miss);
    let result = run.finish(0);
    assert_eq!((result.total, result.hits[0].line_end), (1, u64::MAX));
}

#[test]
fn pattern_that_does_not_compile() {
    match Searcher::new(CONFIG).search_regex("foo(bar", None) {
        Err(YgrepError::Search(message)) => {
            let e = RegexBuilder::new("foo(bar").case_insensitive(true).build().unwrap_err();
            assert_eq!(message, format!("Invalid regex pattern: {}", e));
        }
        _ => panic!("an unclosed group compiled"),
    }
    let built = RegexBuilder::new("[").build();
    assert!(Searcher::new(CONFIG).search_compiled("[", None, built).is_err());
    let built = RegexBuilder::new("x").build();
    assert!(Searcher::new(CONFIG).search_compiled("x", None, built).is_ok());
}

#[test]
fn filters_on_the_hits() {
    let docs = || {
        vec![
            candidate("src/a.rs", "needle"),
            candidate("src/b.TS", "needle"),
            candidate("doc/c.md", "needle"),
            candidate("lib/src/d.rs", "needle"),
            candidate("README", "needle"),
        ]
    };
    let searcher = Searcher::new(CONFIG);
    let by_extension =
        SearchFilters { extensions: Some(vec!["RS".to_string(), "ts".to_string()]), paths: None };
    let result = offer_all(searcher.search_filtered("needle", None, by_extension, false).unwrap(), docs());
    assert_eq!(paths(&result), vec!["src/a.rs", "src/b.TS", "lib/src/d.rs"]);
    assert_eq!((result.total, result.text_hits), (3, 5));

    let by_path = SearchFilters { extensions: None, paths: Some(vec!["src/".to_string(), "doc".to_string()]) };
    let result = offer_all(searcher.search_filtered("NEEDLE", Some(3), by_path, true).unwrap(), docs());
    assert_eq!(paths(&result), vec!["src/a.rs", "src/b.TS", "doc/c.md"]);

    let none = SearchFilters { extensions: Some(vec![]), paths: None };
    assert!(offer_all(searcher.search_filtered("needle", None, none, false).unwrap(), docs()).is_empty());
    let all = SearchFilters::default();
    assert_eq!(offer_all(searcher.search_filtered("needle", Some(2), all, false).unwrap(), docs()).total, 2);
}

#[test]
fn filtered_search_looks_for_twice_as_many() {
    let searcher = Searcher::new(CONFIG);
    let run = searcher.search_filtered("x", Some(30), SearchFilters::default(), false).unwrap();
    assert_eq!(run.limit(), 60);
    let run = searcher.search_filtered("x", None, SearchFilters::default(), false).unwrap();
    assert_eq!(run.limit(), 100);
    assert!(searcher.search_filtered("(", None, SearchFilters::default(), true).is_err());
}

#[test]
fn filters_on_a_path() {
    let filters = SearchFilters {
        extensions: Some(vec!["rs".to_string(), "TS".to_string()]),
        paths: Some(vec!["src/".to_string()]),
    };
    assert!(filters.accepts("src/a.rs"));
    assert!(filters.accepts("x/src/a.ts"));
    assert!(!filters.accepts("src/a.py"));
    assert!(!filters.accepts("lib/a.rs"));
    assert!(!filters.accepts("src/.rs"));
    assert!(filters.accepts_with("src/a", Some("Rs")));
    assert!(!filters.accepts_with("src/a.rs", None));
    assert!(SearchFilters::default().accepts_with("a", None));
}

#[test]
fn message_names_what_is_wrong_with_the_pattern() {
    let searcher = Searcher::new(CONFIG);
    for pattern in ["(", "[z-a]", "*"] {
        let refused = RegexBuilder::new(pattern).case_insensitive(true).build().unwrap_err();
        match searcher.search_regex(pattern, None) {
            Err(YgrepError::Search(message)) => {
                assert_eq!(message, format!("Invalid regex pattern: {}", refused));
            }
            _ => panic!("{} compiled", pattern),
        }
    }
}

#[test]
fn filters_fail_where_the_search_fails() {
    let searcher = Searcher::new(CONFIG);
    let filters = SearchFilters { extensions: Some(vec!["rs".to_string()]), paths: None };
    match searcher.with_filters(Err(YgrepError::Search("no".to_string())), Some(1), filters.clone()) {
        Err(YgrepError::Search(message)) => assert_eq!(message, "no"),
        _ => panic!("a search that failed went on"),
    }
    let docs = || {
        vec![
            candidate("a.py", "needle"),
            candidate("b.rs", "needle"),
            candidate("c", "needle"),
            candidate("d.rs", "needle"),
        ]
    };
    let run = searcher.with_filters(Ok(searcher.search("needle", None)), Some(1), filters).unwrap();
    let result = offer_all(run, docs());
    assert_eq!(paths(&result), vec!["b.rs"]);
    assert_eq!((result.total, result.text_hits, result.semantic_hits), (1, 4, 0));

    let nothing = SearchFilters { extensions: None, paths: Some(Vec::new()) };
    let run = searcher.with_filters(searcher.search_regex("needle", None), None, nothing).unwrap();
    let result = offer_all(run, docs());
    assert_eq!((result.total, result.text_hits), (0, 4));
}

#[test]
fn plain_expression_searches_like_the_text() {
    let searcher = Searcher::new(CONFIG);
    let docs = || {
        vec![
            candidate("a", "one\ntwo\nthe NEEDLE_1 here\nfour"),
            candidate("b", "nothing"),
            candidate("c", "needle_1"),
            candidate("d", "needle 1"),
        ]
    };
    let by_text = offer_all(searcher.search("Needle_1", None), docs());
    let by_pattern = offer_all(searcher.search_regex("Needle_1", None).unwrap(), docs());
    assert_eq!(paths(&by_text), vec!["a", "c"]);
    assert_eq!(paths(&by_pattern), vec!["a", "c"]);
    for (one, other) in by_text.hits.iter().zip(&by_pattern.hits) {
        assert_eq!((&one.snippet, one.line_start, one.line_end), (&other.snippet, other.line_start, other.line_end));
    }
}

#[test]
fn hit_in_ascii_shows_the_query() {
    let searcher = Searcher::new(CONFIG);
    let mut lines: Vec<String> = (0..40).map(|i| format!("row {}", i)).collect();
    lines[33] = "let Total = Sum(x);".to_string();
    let result = offer_all(searcher.search("TOTAL = sum", None), vec![candidate("a", &lines.join("\n"))]);
    assert_eq!(result.hits.len(), 1);
    assert!(result.hits[0].snippet.contains("let Total = Sum(x);"));
}
