use ygrep_core::index::embedding::{embedding_text, in_batches, suitable_texts, truncate, NamedText};
use ygrep_core::index::incremental::{EmbedAction, EmbedEvent};
use ygrep_core::index::run::{EmbeddingPlan, FileOutcome, IndexRun};
use ygrep_core::index::steps::{RunAction, RunEvent};
use ygrep_core::{SearchConfig, Workspace};

fn named(id: usize, text: String) -> NamedText {
    NamedText { doc_id: format!("{}", id), text }
}

#[test]
fn every_file_is_counted_once() {
    let mut run = IndexRun::new(false, false);
    for i in 0..1000 {
        run.record(match i % 5 {
            0 => FileOutcome::TooLarge,
            1 => FileOutcome::Failed,
            _ => FileOutcome::Indexed,
        });
    }
    let stats = run.finish(42);
    assert_eq!((stats.indexed, stats.skipped, stats.errors), (600, 200, 200));
    assert_eq!((stats.embedded, stats.unique_paths), (0, 42));
}

#[test]
fn progress_at_every_five_hundredth_file() {
    let mut run = IndexRun::new(false, false);
    let mut shown = Vec::new();
    for i in 1..=1200 {
        run.record(FileOutcome::Indexed);
        if run.progress_due() {
            shown.push(i);
        }
    }
    assert_eq!(shown, vec![500, 1000]);
    assert_eq!(run.indexed(), 1200);
}

#[test]
fn contents_are_collected_for_a_semantic_index_only() {
    assert!(IndexRun::new(true, true).collects_content());
    assert!(!IndexRun::new(true, false).collects_content());
    assert!(!IndexRun::new(false, true).collects_content());
    assert!(IndexRun::new(true, false).lacks_engine());
    assert!(!IndexRun::new(true, true).lacks_engine());
    assert!(!IndexRun::new(false, false).lacks_engine());
}

#[test]
fn sizes_of_embedded_contents() {
    assert_eq!(embedding_text(&"x".repeat(49)), None);
    assert_eq!(embedding_text(&"x".repeat(50)), Some("x".repeat(50)));
    assert_eq!(embedding_text(&"é".repeat(25)), Some("é".repeat(25)));
    assert_eq!(embedding_text(&"x".repeat(50_000)), Some("x".repeat(4096)));
    assert_eq!(embedding_text(&"x".repeat(50_001)), None);
}

#[test]
fn contents_are_cut_between_characters() {
    assert_eq!(truncate(&"x".repeat(4096)), "x".repeat(4096));
    assert_eq!(truncate(&"x".repeat(4097)), "x".repeat(4096));
    assert_eq!(truncate(&"€".repeat(2000)), "€".repeat(1365));
    let text = format!("{}𝄞tail", "x".repeat(4094));
    assert_eq!(truncate(&text), "x".repeat(4094));
    let text = format!("{}𝄞tail", "x".repeat(4092));
    assert_eq!(truncate(&text).len(), 4096);
    assert_eq!(truncate(""), "");
}

#[test]
fn batches_of_sixty_four() {
    let list: Vec<NamedText> = (0..130).map(|i| named(i, format!("t{}", i))).collect();
    let batches = in_batches(list);
    assert_eq!(batches.iter().map(|b| b.len()).collect::<Vec<_>>(), vec![64, 64, 2]);
    assert_eq!(batches[2][1].doc_id, "129");
    assert_eq!(batches[1][0].text, "t64");
    assert!(in_batches(Vec::new()).is_empty());
    assert_eq!(in_batches((0..64).map(|i| named(i, String::new())).collect()).len(), 1);
}

#[test]
fn suitable_contents_keep_their_order() {
    let docs = vec![
        named(0, "a".repeat(60)),
        named(1, "b".to_string()),
        named(2, "c".repeat(5000)),
        named(3, "d".repeat(60_000)),
    ];
    let list = suitable_texts(&docs);
    assert_eq!(list.iter().map(|t| t.doc_id.as_str()).collect::<Vec<_>>(), vec!["0", "2"]);
    assert_eq!(list[1].text.len(), 4096);
}

#[test]
fn plan_for_a_semantic_index() {
    let mut run = IndexRun::new(true, true);
    assert!(matches!(run.embedding_plan(), EmbeddingPlan::Nothing));
    run.collect("a".to_string(), "short".to_string());
    assert!(matches!(run.embedding_plan(), EmbeddingPlan::NothingSuitable));
    for i in 0..70 {
        run.collect(format!("{}", i), "x".repeat(100));
    }
    match run.embedding_plan() {
        EmbeddingPlan::Embed { total, batches } => {
            assert_eq!(total, 70);
            assert_eq!(batches.len(), 2);
            for batch in &batches {
                run.batch_done(true, batch.len());
            }
        }
        _ => panic!("there is something to embed"),
    }
    assert_eq!((run.embedded(), run.finish(0).embedded), (70, 70));
}

#[test]
fn run_of_a_workspace() {
    let config = SearchConfig { default_limit: 20, max_limit: 100 };
    let files = ygrep_core::workspace::IndexFiles { workspace_json: false, meta_json: false };
    let workspace = Workspace::create_with_config("/w".to_string(), config, true, files).unwrap();
    assert!(!workspace.index_all().collects_content());
    let mut run = workspace.index_all_with_options(true);
    assert!(run.collects_content());
    run.record(FileOutcome::Indexed);
    let text = run.metadata("/w", "2024-01-02T03:04:05+00:00");
    assert!(text.contains("\"files_indexed\": 1"));
    assert_eq!(workspace.stored_semantic_flag(Some(&text)), Some(true));
}

#[test]
fn only_embedded_batches_count() {
    let mut run = IndexRun::new(true, true);
    run.batch_done(true, 64);
    run.batch_done(false, 64);
    run.batch_done(true, 6);
    assert_eq!(run.embedded(), 70);
    assert_eq!(run.finish(0).embedded, 70);
}

#[test]
fn batch_that_failed_can_have_any_size() {
    let mut run = IndexRun::new(true, true);
    run.batch_done(true, 1);
    run.batch_done(false, usize::MAX);
    assert_eq!(run.embedded(), 1);
}

#[test]
fn vectors_are_cleared_where_there_can_be_any() {
    for semantic in [false, true] {
        assert!(IndexRun::new(semantic, true).clears_vectors());
        assert!(!IndexRun::new(semantic, false).clears_vectors());
    }
}

#[test]
fn text_only_run_leaves_no_semantic_index() {
    let config = SearchConfig { default_limit: 20, max_limit: 100 };
    let files = ygrep_core::workspace::IndexFiles { workspace_json: true, meta_json: true };
    let workspace = Workspace::open_with_config("/w".to_string(), config, true, files).unwrap();
    let mut vectors: usize = 12;
    assert!(workspace.has_semantic_index(vectors));
    let mut run = workspace.index_all();
    if run.clears_vectors() {
        vectors = 0;
    }
    run.record(FileOutcome::Indexed);
    assert!(matches!(run.embedding_plan(), EmbeddingPlan::Nothing));
    assert!(!workspace.has_semantic_index(vectors));
}

#[test]
fn file_goes_into_the_semantic_index_step_by_step() {
    match EmbedEvent::Read("x".repeat(5000)).next_action() {
        EmbedAction::Embed(text) => assert_eq!(text, "x".repeat(4096)),
        other => panic!("{:?}", other),
    }
    assert!(matches!(EmbedEvent::Embedded.next_action(), EmbedAction::Insert));
    assert!(matches!(EmbedEvent::Inserted.next_action(), EmbedAction::Save));
    assert!(matches!(EmbedEvent::Saved.next_action(), EmbedAction::Finish));
}

#[test]
fn file_that_does_not_suit_is_through_at_once() {
    assert!(matches!(EmbedEvent::Read("x".repeat(49)).next_action(), EmbedAction::Finish));
    assert!(matches!(EmbedEvent::Read("x".repeat(50)).next_action(), EmbedAction::Embed(_)));
    assert!(matches!(EmbedEvent::Read("x".repeat(50_000)).next_action(), EmbedAction::Embed(_)));
    assert!(matches!(EmbedEvent::Read("x".repeat(50_001)).next_action(), EmbedAction::Finish));
}

#[test]
fn failure_ends_the_embedding_of_a_file() {
    assert!(matches!(EmbedEvent::Failed.next_action(), EmbedAction::Finish));
}

fn steps(run: &IndexRun, failing: Option<RunEvent>) -> Vec<String> {
    let mut event = RunEvent::Walked;
    let mut done = Vec::new();
    loop {
        let (name, next) = match run.next_action(event) {
            RunAction::Commit => ("commit", RunEvent::Committed),
            RunAction::Report => ("report", RunEvent::Reported),
            RunAction::Embed { .. } => ("embed", RunEvent::Embedded),
            RunAction::Save => ("save", RunEvent::Saved),
            RunAction::Note => ("note", RunEvent::Noted),
            RunAction::Finish => {
                done.push("finish".to_string());
                return done;
            }
            RunAction::Fail => {
                done.push("fail".to_string());
                return done;
            }
        };
        done.push(name.to_string());
        event = if Some(next) == failing { RunEvent::Failed } else { next };
    }
}

#[test]
fn metadata_is_written_last() {
    let plain = IndexRun::new(false, true);
    assert_eq!(steps(&plain, None), vec!["commit", "note", "finish"]);
    assert_eq!(steps(&IndexRun::new(true, false), None), vec!["commit", "note", "finish"]);

    let mut run = IndexRun::new(true, true);
    assert_eq!(steps(&run, None), vec!["commit", "note", "finish"]);
    run.collect("a".to_string(), "short".to_string());
    assert_eq!(steps(&run, None), vec!["commit", "report", "note", "finish"]);
    run.collect("b".to_string(), "x".repeat(60));
    assert_eq!(steps(&run, None), vec!["commit", "embed", "save", "note", "finish"]);
}

#[test]
fn failed_step_leaves_the_metadata_unwritten() {
    let mut run = IndexRun::new(true, true);
    run.collect("b".to_string(), "x".repeat(60));
    assert_eq!(steps(&run, Some(RunEvent::Committed)), vec!["commit", "fail"]);
    assert_eq!(steps(&run, Some(RunEvent::Embedded)), vec!["commit", "embed", "fail"]);
    assert_eq!(steps(&run, Some(RunEvent::Saved)), vec!["commit", "embed", "save", "fail"]);
    assert!(matches!(run.next_action(RunEvent::Failed), RunAction::Fail));
}

#[test]
fn step_that_embeds_has_the_suitable_texts() {
    let mut run = IndexRun::new(true, true);
    run.collect("a".to_string(), "short".to_string());
    for i in 0..65 {
        run.collect(format!("{}", i), "x".repeat(5000));
    }
    run.batch_done(true, 3);
    match run.next_action(RunEvent::Committed) {
        RunAction::Embed { total, batches } => {
            assert_eq!(total, 65);
            assert_eq!(batches.iter().map(|b| b.len()).collect::<Vec<_>>(), vec![64, 1]);
            assert_eq!((batches[0][0].doc_id.as_str(), batches[0][0].text.len()), ("0", 4096));
        }
        other => panic!("{:?}", other),
    }
}
