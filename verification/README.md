# ygrep_core

The core of a code search tool, written in Verus. It decides what to ask a full-text index for a
query, which of the documents that the index ranks are hits, how a hit is shown, what indexing a
workspace does with each file, and where an index lives. Each function states what it does in its
contract, and Verus proves it.

- `src/text.rs`, `src/path.rs`, `src/util.rs`: texts, paths with `/` between their components, glob
  patterns.
- `src/search/`: documents, regular expressions, snippets, filters, and the searcher, which is a
  state machine: it says what to ask, is offered documents, and gives the result. `laws.rs` proves
  what holds of every search.
- `src/index/`: the place of an index, the run over the files of a workspace, what is embedded and in
  what batches, the steps that end a run and those by which a single file is embedded, and the
  metadata of a run.
- `src/workspace.rs`: a workspace, which brings these together.
- `app/`: the same workspace on disk, around a Tantivy index.

Calls into `regex`, `serde_json`, `tantivy` and `xxhash-rust` stand behind small functions whose
contracts are taken on trust; the doc comment of each says what is claimed.
