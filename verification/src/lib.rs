#![verifier::loop_isolation(false)]
use vstd::prelude::*;

pub mod artifacts;
pub mod changeset_laws;
pub mod changeset_log;
pub mod changesets;
pub mod checkpoints;
pub mod citations;
pub mod content_laws;
pub mod detached;
pub mod digest;
pub mod discussion;
pub mod discussion_apply;
pub mod discussion_book;
pub mod discussion_laws;
pub mod discussion_read;
pub mod discussion_store;
pub mod draft_laws;
pub mod error;
pub mod file_laws;
pub mod graph_laws;
pub mod history;
pub mod hooks;
pub mod indexing;
pub mod ingest;
pub mod json;
pub mod laws;
pub mod lint;
pub mod lint_laws;
pub mod maintenance;
pub mod markdown;
pub mod pages;
pub mod merge_laws;
pub mod paging;
pub mod publish;
pub mod publish_laws;
pub mod refusals;
pub mod relations;
pub mod replay;
pub mod replay_laws;
pub mod resolve_laws;
pub mod retrieval;
pub mod rollback_guard;
pub mod rollback_laws;
pub mod rows;
pub mod search;
pub mod search_laws;
pub mod search_text;
pub mod soundness;
pub mod sources;
pub mod span_hits;
pub mod spans;
pub mod sparse_inverse;
pub mod sparse_merge;
pub mod sparse_rollback;
pub mod staging;
pub mod state_laws;
pub mod store;
pub mod sync_export;
pub mod sync_file;
pub mod sync_join;
pub mod sync_laws;
pub mod sync_merge;
pub mod sync_resolve;
pub mod sync_state;
pub mod sync_variant;
pub mod table;
pub mod talk_laws;
pub mod text;
pub mod text_laws;
pub mod touched;
pub mod travel_laws;
pub mod versions;
pub mod view_laws;

verus! {

} // verus!
