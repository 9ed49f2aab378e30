#![allow(dead_code)]
use lwc_store::changeset_log::{ChangesetCommitState, ChangesetRollbackState};
use lwc_store::changesets::ChangesetDraftState;
use lwc_store::checkpoints::{
    after_copy_step, after_lock_step, check_restore_base, checkpoint_path, fresh_checkpoint_name,
    BackupAction, BackupStep, CheckpointFile, DirectoryEntry,
};
use lwc_store::detached::{
    bounded_detached_export, portable_detached_origin, DetachedChangesetAction,
};
use lwc_store::digest::hash_content;
use lwc_store::error::{AppError, ErrorCode};
use lwc_store::json::Json;
use lwc_store::pages::{PagePutInput, PagePutResponse};
use lwc_store::publish::{validate_changeset_table_inventory, ChangesetPublishInput};
use lwc_store::refusals::{fits_as_observation, fits_as_policy};
use lwc_store::replay::ChangesetSyncReplayItemState;
use lwc_store::rows::{ChangesetRow, TagPolicy};
use lwc_store::sources::SourceAddInput;
use lwc_store::spans::{Passage, Segmented, Segments, Sentence};
use lwc_store::sparse_inverse::{check_sparse_inverse, InversePayload};
use lwc_store::sparse_rollback::ChangesetRollbackInput;
use lwc_store::store::Store;
use lwc_store::table::{Pair, Record, Table};
use lwc_store::versions::FreshStore;

const NOW: &str = "2024-05-01T00:00:00Z";
const LATER: &str = "2024-05-02T00:00:00Z";
const TOKENIZER: &str = "words-1";

fn revision(n: u64) -> String {
    format!("{n:064x}")
}

fn text(s: &str) -> String {
    s.to_string()
}

fn accepted<T>(r: Result<T, AppError>) -> T {
    match r {
        Ok(value) => value,
        Err(e) => panic!("{}: {}", e.code.as_str(), e.message),
    }
}

fn refused<T>(r: Result<T, AppError>) -> (ErrorCode, String) {
    match r {
        Ok(_) => panic!("a refusal is expected"),
        Err(e) => (e.code, e.message),
    }
}

/// One passage with one sentence for each content.
fn segments_of(contents: &[&str]) -> Segments {
    let mut table: Table<String, Segmented> = Table::new();
    for content in contents {
        let sentence = Sentence { ordinal: 0, start: 0, end: content.len() };
        let passage = Passage { ordinal: 0, start: 0, end: content.len(), sentences: vec![sentence] };
        table.put(hash_content(content), Segmented { failure: None, passages: vec![passage] });
    }
    Segments { version: 1, contents: table }
}

/// The same for everything that some stores hold.
fn segments_for(stores: &[&Store]) -> Segments {
    let mut contents: Vec<&str> = Vec::new();
    for store in stores {
        contents.extend((0..store.sources.len()).map(|i| store.sources.value_at(i).content.as_str()));
        contents.extend((0..store.pages.len()).map(|i| store.pages.value_at(i).body.as_str()));
    }
    segments_of(&contents)
}

/// The documents that the text index of a store has.
fn index_of(store: &Store) -> Table<Pair, bool> {
    let mut entries: Table<Pair, bool> = Table::new();
    for i in 0..store.sources.len() {
        entries.put(Pair::new("source", &store.sources.key_at(i).to_string()), true);
    }
    for i in 0..store.pages.len() {
        entries.put(Pair::new("page", store.pages.key_at(i)), true);
    }
    entries
}

fn new_store() -> Store {
    let fresh = FreshStore {
        store_id: "5".repeat(64),
        store_revision: revision(1),
        schema: text("# Schema"),
        purpose: text("# Purpose"),
    };
    accepted(Store::initialize("project", "/w/wiki.db", None, &fresh, TOKENIZER, NOW, &revision(2))).0
}

fn page(slug: &str, kind: Option<&str>, body: &str, source_ids: &[i64]) -> PagePutInput {
    PagePutInput {
        slug: text(slug),
        title: text(slug).to_uppercase(),
        kind: kind.map(text),
        summary: Some(text("in short")),
        body: text(body),
        source_ids: source_ids.to_vec(),
        provenance: vec![],
    }
}

fn put(store: &mut Store, input: PagePutInput, n: u64) -> Result<PagePutResponse, AppError> {
    let seen = store.page_version(&input.slug);
    let segments = segments_of(&[&input.body]);
    store.page_put(&segments, input, &seen, NOW, &revision(n))
}

fn add(store: &mut Store, content: &str, path: Option<&str>, n: u64) -> (i64, bool) {
    let input = SourceAddInput {
        title: Some(text("a source")),
        origin: text("notes/a.txt"),
        content: text(content),
        tracked_path: path.map(text),
    };
    let done = accepted(store.source_add(&segments_of(&[content]), input, NOW, &revision(n)));
    (done.added[0].id, done.added[0].created)
}

fn id() -> String {
    "c".repeat(64)
}

fn publish_input(live: &Store, draft: &ChangesetDraftState, checkpoint: &str) -> ChangesetPublishInput {
    ChangesetPublishInput {
        id: draft.id.clone(),
        name: draft.name.clone(),
        store_id: accepted(live.identity()).store_id,
        base_revision: draft.base_revision.clone(),
        draft_revision: draft.draft_revision.clone(),
        draft_operation_id: draft.draft_operation_id,
        staged_operation_count: draft.staged_operation_count,
        checkpoint: text(checkpoint),
        lint_issues: 0,
        lint_override_reason: None,
        graph_documents: vec![Pair::new("page", "alpha")],
    }
}

fn publish(live: &mut Store, draft: &Store, checkpoint: &str, n: u64) -> Result<ChangesetCommitState, AppError> {
    let state = accepted(draft.changeset_draft("work", 100));
    let input = publish_input(live, &state, checkpoint);
    let segments = segments_for(&[&*live, draft]);
    live.changeset_publish(draft, &segments, &index_of(draft), &input, LATER, &revision(n))
}

/// Takes the changeset back, with what the file holds and what it was indexed with.
fn undo(live: &mut Store, file: &CheckpointFile, input: &ChangesetRollbackInput, n: u64) -> Result<ChangesetRollbackState, AppError> {
    let (segments, entries) = match file {
        CheckpointFile::Snapshot(kept) => (segments_for(&[&*live, kept]), index_of(kept)),
        _ => (segments_of(&["one"]), Table::new()),
    };
    live.changeset_rollback(file, &entries, input, &segments, LATER, &revision(n))
}

fn rollback_input(live: &Store) -> ChangesetRollbackInput {
    ChangesetRollbackInput {
        store_id: accepted(live.identity()).store_id,
        history: live.changeset_history_by_id(&id()).unwrap(),
        pre_rollback_checkpoint: text("pre-rollback"),
    }
}

/// A live store with one page, and a full draft of it.
fn full_draft() -> (Store, Store) {
    let mut live = new_store();
    accepted(put(&mut live, page("alpha", None, "one", &[]), 3));
    let base = accepted(live.identity());
    let mut draft = live.snapshot_to();
    accepted(draft.changeset_begin("work", &base, &id(), NOW, &revision(20)));
    (live, draft)
}

/// A live store with a page and a source, and a sparse draft of it.
fn sparse_draft() -> (Store, Store) {
    let mut live = new_store();
    let (source, _) = add(&mut live, "known", None, 3);
    accepted(put(&mut live, page("alpha", None, "one", &[source]), 4));
    let base = accepted(live.identity());
    let mut draft = new_store();
    accepted(draft.changeset_begin_sparse(
        "work",
        &base,
        "# Schema",
        "# Purpose",
        live.max_source_id(),
        &id(),
        NOW,
        &revision(20),
    ));
    (live, draft)
}

#[test]
fn a_draft_starts_from_what_was_seen() {
    let (live, draft) = full_draft();
    let state = accepted(draft.changeset_draft("work", 10));
    assert_eq!(state.status, "draft");
    assert_eq!(state.base_revision, accepted(live.identity()).revision);
    assert_eq!(state.staged_operation_count, 0);
    let (code, message) = refused(draft.changeset_draft("other", 10));
    assert_eq!(code, ErrorCode::ChangesetNotFound);
    assert_eq!(message, "draft changeset not found: other");
    let mut base = accepted(live.identity());
    base.revision = revision(99);
    let (code, message) = refused(live.snapshot_to().changeset_begin("work", &base, &id(), NOW, &revision(20)));
    assert_eq!(code, ErrorCode::ChangesetChanged);
    assert_eq!(message, "draft snapshot does not match the captured live base");
}

#[test]
fn a_full_draft_takes_over() {
    let (mut live, mut draft) = full_draft();
    accepted(put(&mut draft, page("alpha", None, "two", &[]), 21));
    accepted(put(&mut draft, page("beta", None, "new", &[]), 22));
    let staged = accepted(draft.changeset_draft("work", 1));
    assert_eq!(staged.staged_operation_count, 2);
    assert_eq!(staged.operations.len(), 1);
    assert_eq!(staged.action_counts.get(&text("page_put")), Some(&2));
    let state = accepted(publish(&mut live, &draft, "before", 30));
    assert_eq!(state.post_revision, revision(30));
    assert_eq!(accepted(live.page_show("alpha")).page.body, "two");
    assert_eq!(accepted(live.page_show("beta")).page.body, "new");
    let read = accepted(live.changeset_committed_by_id(&id())).unwrap();
    assert_eq!(read.checkpoint, "before");
    assert_eq!(read.staged_operation_count, 2);
    assert_eq!(read.graph_documents.len(), 1);
    assert_eq!(live.changeset_history_by_id(&id()).unwrap().status, "committed");
}

#[test]
fn a_snapshot_comes_back() {
    let (mut live, mut draft) = full_draft();
    let kept = live.snapshot_to();
    accepted(put(&mut draft, page("alpha", None, "two", &[]), 21));
    accepted(publish(&mut live, &draft, "before", 30));
    let input = rollback_input(&live);
    let state = accepted(undo(&mut live, &CheckpointFile::Snapshot(kept), &input, 31));
    assert_eq!(state.rollback_revision, revision(31));
    assert_eq!(accepted(live.page_show("alpha")).page.body, "one");
    let history = live.changeset_history_by_id(&id()).unwrap();
    assert_eq!(history.status, "rolled_back");
    let read = accepted(live.changeset_rollback_state_by_id(&id())).unwrap();
    assert_eq!(read.checkpoint, "pre-rollback");
}

#[test]
fn a_snapshot_does_not_overwrite_later_changes() {
    let (mut live, mut draft) = full_draft();
    let kept = live.snapshot_to();
    accepted(put(&mut draft, page("alpha", None, "two", &[]), 21));
    accepted(publish(&mut live, &draft, "before", 30));
    accepted(put(&mut live, page("gamma", None, "later", &[]), 31));
    let input = rollback_input(&live);
    let result = undo(&mut live, &CheckpointFile::Snapshot(kept), &input, 32);
    let (code, message) = refused(result);
    assert_eq!(code, ErrorCode::ChangesetRollbackConflict);
    assert_eq!(message, "live Wiki changed after this changeset committed");
    assert_eq!(accepted(live.page_show("alpha")).page.body, "two");
}

#[test]
fn publishing_is_refused_where_the_draft_changed() {
    let (mut live, mut draft) = full_draft();
    accepted(put(&mut draft, page("alpha", None, "two", &[]), 21));
    let state = accepted(draft.changeset_draft("work", 10));
    let segments = segments_of(&["two"]);
    let mut attempt = |change: &dyn Fn(&mut ChangesetPublishInput)| {
        let mut input = publish_input(&live, &state, "before");
        change(&mut input);
        refused(live.changeset_publish(&draft, &segments, &index_of(&draft), &input, LATER, &revision(30)))
    };
    assert_eq!(
        attempt(&|input| input.store_id = "6".repeat(64)),
        (ErrorCode::ChangesetScopeMismatch, text("changeset is not bound to this live Wiki"))
    );
    assert_eq!(
        attempt(&|input| input.draft_revision = revision(9)).1,
        "draft changeset changed during commit preflight"
    );
    assert_eq!(
        attempt(&|input| input.name = text("other")).1,
        "draft changeset identity disappeared during commit"
    );
    assert_eq!(
        attempt(&|input| input.base_revision = revision(9)).1,
        "draft changeset metadata changed during commit"
    );
    assert_eq!(
        attempt(&|input| input.staged_operation_count = 5).1,
        "draft changeset operations changed during commit"
    );
    assert_eq!(accepted(live.page_show("alpha")).page.body, "one");
}

#[test]
fn a_frozen_draft_takes_no_more() {
    let (_, mut draft) = full_draft();
    accepted(put(&mut draft, page("alpha", None, "two", &[]), 21));
    let state = accepted(draft.changeset_draft("work", 10));
    let (code, message) = refused(draft.changeset_freeze(&id(), &state.draft_revision, state.draft_operation_id, 9));
    assert_eq!(code, ErrorCode::ChangesetChanged);
    assert_eq!(message, "draft changeset changed during commit preflight");
    accepted(draft.changeset_freeze(&id(), &state.draft_revision, state.draft_operation_id, 1));
    accepted(draft.changeset_freeze(&id(), &state.draft_revision, state.draft_operation_id, 1));
    assert_eq!(
        refused(put(&mut draft, page("beta", None, "x", &[]), 22)).0,
        ErrorCode::ChangesetFrozen
    );
    let (code, message) = refused(draft.changeset_freeze(&"d".repeat(64), &state.draft_revision, state.draft_operation_id, 1));
    assert_eq!(code, ErrorCode::ChangesetChanged);
    assert_eq!(message, "draft changeset is no longer writable");
}

/// Stages a changed page, a new page and a new source.
fn stage(live: &Store, draft: &mut Store) {
    accepted(draft.changeset_prepare_page_touch(live, "alpha", &vec![]));
    accepted(put(draft, page("alpha", None, "two", &[1]), 21));
    let (source, _) = add(draft, "fresh", None, 22);
    accepted(draft.changeset_prepare_page_touch(live, "beta", &vec![source]));
    accepted(put(draft, page("beta", None, "new", &[source]), 23));
}

#[test]
fn a_sparse_draft_merges_and_is_undone() {
    let (mut live, mut draft) = sparse_draft();
    stage(&live, &mut draft);
    assert_eq!(draft.changeset_storage_kind(), Some(text("sparse-v1")));
    let touched: Vec<String> = draft.changeset_touched_pages().iter().map(|pair| pair.first.clone()).collect();
    assert_eq!(touched, vec!["alpha", "beta"]);
    let inverse = accepted(live.changeset_sparse_checkpoint_create(&id(), &draft));
    assert_eq!(inverse.pages.len(), 2);
    assert_eq!(inverse.sources.len(), 1);
    let state = accepted(publish(&mut live, &draft, "inverse", 30));
    assert_eq!(state.source_id_remap.len(), 0);
    let fresh = live.source_id_by_content_hash(&hash_content("fresh")).unwrap();
    assert_eq!(accepted(live.page_show("alpha")).page.body, "two");
    assert_eq!(accepted(live.page_show("beta")).page.source_ids, vec![fresh]);
    // A later change of another page is kept.
    accepted(put(&mut live, page("gamma", None, "later", &[]), 31));
    let input = rollback_input(&live);
    accepted(undo(&mut live, &CheckpointFile::Inverse(inverse), &input, 32));
    assert_eq!(accepted(live.page_show("alpha")).page.body, "one");
    assert_eq!(refused(live.page_show("beta")).0, ErrorCode::PageNotFound);
    assert_eq!(refused(live.source_show(fresh, 0, None)).0, ErrorCode::SourceNotFound);
    assert_eq!(accepted(live.page_show("gamma")).page.body, "later");
}

/// The pages cite what is there, each source is found by its digest, and each has its job.
fn assert_sound(store: &Store) {
    for i in 0..store.pages.len() {
        for cited in &store.pages.value_at(i).source_ids {
            assert!(store.sources.has(cited));
        }
    }
    for i in 0..store.sources.len() {
        let id = *store.sources.key_at(i);
        let source = store.sources.value_at(i);
        assert_eq!(source.content_hash, hash_content(&source.content));
        assert_eq!(store.source_id_by_content_hash(&source.content_hash), Some(id));
        assert!(id <= store.source_sequence);
        assert!(store.ingest_jobs.has(&id));
    }
    for pair in store.operations.windows(2) {
        assert!(pair[0].id < pair[1].id);
    }
    assert!(store.operations.last().map(|op| op.id) <= Some(store.operation_sequence));
}

#[test]
fn publishing_and_taking_back_leave_a_sound_store() {
    let (mut live, mut draft) = sparse_draft();
    stage(&live, &mut draft);
    assert_sound(&live);
    let known = live.sources.get(&1).unwrap().content.clone();
    let inverse = accepted(live.changeset_sparse_checkpoint_create(&id(), &draft));
    accepted(publish(&mut live, &draft, "inverse", 30));
    assert_sound(&live);
    assert_eq!(live.sources.len(), 2);
    assert_eq!(live.sources.get(&1).unwrap().content, known);
    let input = rollback_input(&live);
    accepted(undo(&mut live, &CheckpointFile::Inverse(inverse), &input, 32));
    assert_sound(&live);
    assert_eq!(live.sources.len(), 1);
    let (mut live, mut draft) = full_draft();
    let (source, _) = add(&mut draft, "in the draft", None, 21);
    accepted(put(&mut draft, page("alpha", None, "two", &[source]), 22));
    let snapshot = live.snapshot_to();
    accepted(publish(&mut live, &draft, "snapshot", 30));
    assert_sound(&live);
    let input = rollback_input(&live);
    accepted(undo(&mut live, &CheckpointFile::Snapshot(snapshot), &input, 32));
    assert_sound(&live);
    assert_eq!(live.sources.len(), 0);
}

#[test]
fn a_sparse_draft_is_not_undone_over_a_later_change_of_its_page() {
    let (mut live, mut draft) = sparse_draft();
    stage(&live, &mut draft);
    let inverse = accepted(live.changeset_sparse_checkpoint_create(&id(), &draft));
    accepted(publish(&mut live, &draft, "inverse", 30));
    accepted(put(&mut live, page("alpha", None, "three", &[1]), 31));
    let input = rollback_input(&live);
    let result = undo(&mut live, &CheckpointFile::Inverse(inverse), &input, 32);
    assert_eq!(refused(result).0, ErrorCode::ChangesetRollbackConflict);
    assert_eq!(accepted(live.page_show("alpha")).page.body, "three");
}

#[test]
fn a_sparse_draft_conflicts_with_a_page_that_moved_on() {
    let (mut live, mut draft) = sparse_draft();
    stage(&live, &mut draft);
    accepted(put(&mut live, page("alpha", None, "elsewhere", &[1]), 24));
    let result = publish(&mut live, &draft, "inverse", 30);
    assert_eq!(refused(result).0, ErrorCode::ChangesetConflict);
    assert_eq!(accepted(live.page_show("alpha")).page.body, "elsewhere");
}

#[test]
fn a_new_source_takes_the_next_free_identifier() {
    let (mut live, mut draft) = sparse_draft();
    stage(&live, &mut draft);
    let (other, _) = add(&mut live, "came first", None, 24);
    let state = accepted(publish(&mut live, &draft, "inverse", 30));
    assert_eq!(state.source_id_remap[0].draft_id, other);
    assert_eq!(state.source_id_remap[0].live_id, other + 1);
    assert_eq!(accepted(live.page_show("beta")).page.source_ids, vec![other + 1]);
    let remaps = accepted(live.load_sparse_source_id_remap(&id()));
    assert_eq!(remaps.len(), 1);
    assert_eq!(remaps[0].live_id, other + 1);
}

#[test]
fn a_detached_changeset_says_what_it_does() {
    let (live, mut draft) = sparse_draft();
    stage(&live, &mut draft);
    let export = accepted(draft.detached_changeset_intent()).unwrap();
    assert_eq!(export.intent.name, "work");
    assert_eq!(export.intent.origin_changeset_id, id());
    assert_eq!(export.intent.actions.len(), 3);
    assert!(matches!(&export.intent.actions[0], DetachedChangesetAction::PagePut { slug } if slug == "alpha"));
    assert!(matches!(&export.intent.actions[1], DetachedChangesetAction::SourceAdd { content_hash } if *content_hash == hash_content("fresh")));
    assert_eq!(export.intent.pages.len(), 2);
    assert_eq!(export.blobs.len(), 1);
    assert_eq!(export.blobs[0].bytes, 5);
    assert!(draft.changeset_replay_page_matches(&export.intent.pages[0]).is_ok());
    assert!(draft.changeset_replay_source_matches(&export.intent.sources[0]));
    assert!(!live.changeset_replay_source_matches(&export.intent.sources[0]));
    let (_, whole) = full_draft();
    let (code, message) = refused(whole.detached_changeset_intent());
    assert_eq!(code, ErrorCode::ChangesetSyncUnsupported);
    assert_eq!(message, "only sparse changesets can be exported as detached intent");
}

#[test]
fn origins_travel_where_they_do_not_name_a_file() {
    assert_eq!(portable_detached_origin("https://example.org/a"), Some(text("https://example.org/a")));
    assert_eq!(portable_detached_origin("/home/u/a.txt"), None);
}

#[test]
fn a_replay_goes_item_by_item() {
    let (_, mut draft) = sparse_draft();
    let store_id = "a".repeat(64);
    let (key, mark) = ("page\0alpha", "b".repeat(64));
    let (code, _) = refused(draft.changeset_sync_replay_marker(&store_id, &id(), true, NOW, &revision(21)));
    assert_eq!(code, ErrorCode::ChangesetReplayNotStarted);
    assert!(accepted(draft.changeset_sync_replay_marker(&store_id, &id(), false, NOW, &revision(21))));
    assert!(!accepted(draft.changeset_sync_replay_marker(&store_id, &id(), false, NOW, &revision(22))));
    let state = accepted(draft.changeset_sync_replay_start_item(&store_id, &id(), key, &mark, NOW, &revision(22)));
    assert_eq!(state, ChangesetSyncReplayItemState::Ready);
    let state = accepted(draft.changeset_sync_replay_start_item(&store_id, &id(), key, &mark, NOW, &revision(23)));
    assert_eq!(state, ChangesetSyncReplayItemState::PendingClean);
    assert!(accepted(draft.changeset_sync_replay_mark_item(&store_id, &id(), key, &mark, NOW, &revision(23))));
    assert!(!accepted(draft.changeset_sync_replay_mark_item(&store_id, &id(), key, &mark, NOW, &revision(24))));
    let (code, message) = refused(draft.changeset_sync_replay_mark_item(&store_id, &id(), key, &"f".repeat(64), NOW, &revision(24)));
    assert_eq!(code, ErrorCode::ChangesetReplayConflict);
    assert_eq!(message, "replay item digest changed");
    let state = accepted(draft.changeset_sync_replay_start_item(&store_id, &id(), key, &mark, NOW, &revision(24)));
    assert_eq!(state, ChangesetSyncReplayItemState::Complete);
    assert!(accepted(draft.changeset_sync_replay_marker(&store_id, &id(), true, NOW, &revision(24))));
    let whole = accepted(draft.changeset_sync_replay_state(&store_id, &id())).unwrap();
    assert!(whole.complete);
    assert_eq!(whole.items.get(&text(key)), Some(&mark));
    let (code, message) = refused(draft.changeset_sync_replay_marker("A", &id(), false, NOW, &revision(25)));
    assert_eq!(code, ErrorCode::ChangesetReplayInvalid);
    assert_eq!(message, "origin store ID must be 64 hexadecimal characters");
}

// --- checkpoints -----------------------------------------------------------

#[test]
fn what_was_restored_is_given_back() {
    let mut store = new_store();
    accepted(put(&mut store, page("alpha", None, "one", &[]), 3));
    let made = accepted(store.checkpoint_create("/w/checkpoints", &vec![], "first"));
    assert_eq!(made.response.path, "/w/checkpoints/first.db");
    accepted(put(&mut store, page("alpha", None, "two", &[]), 4));
    accepted(put(&mut store, page("beta", None, "new", &[]), 5));
    let done = accepted(store.checkpoint_restore(
        "/w/checkpoints",
        &CheckpointFile::Snapshot(made.snapshot),
        &vec![text("first")],
        77,
        "first",
        LATER,
        &revision(6),
    ));
    assert_eq!(done.safety_checkpoint, Some(text("pre-restore-77")));
    assert_eq!(accepted(store.page_show("alpha")).page.body, "one");
    assert_eq!(refused(store.page_show("beta")).0, ErrorCode::PageNotFound);
    assert_eq!(accepted(store.identity()).revision, revision(6));
    assert_eq!(store.log(1).operations[0].action, "checkpoint_restore");
}

#[test]
fn checkpoints_are_refused_for_their_name_and_file() {
    let mut store = new_store();
    for name in ["", "a/b", "..", " a", &"x".repeat(81)] {
        let (code, message) = refused(store.checkpoint_create("/w", &vec![], name));
        assert_eq!(code, ErrorCode::CheckpointNameInvalid);
        assert_eq!(message, "checkpoint name must be one safe filename segment of at most 80 bytes");
    }
    let (code, message) = refused(store.checkpoint_create("/w", &vec![text("a")], "a"));
    assert_eq!(code, ErrorCode::CheckpointExists);
    assert_eq!(message, "cannot create /w/a.db: file exists");
    let mut restore = |file: CheckpointFile| {
        refused(store.checkpoint_restore("/w", &file, &vec![], 1, "a", NOW, &revision(3)))
    };
    assert_eq!(
        restore(CheckpointFile::Missing(text("gone"))),
        (ErrorCode::CheckpointNotFound, text("checkpoint a is unavailable: gone"))
    );
    assert_eq!(
        restore(CheckpointFile::Irregular),
        (ErrorCode::CheckpointInvalid, text("checkpoint a is not a regular file"))
    );
    assert_eq!(
        restore(CheckpointFile::Unreadable(AppError::new(ErrorCode::UnsupportedStoreVersion, "odd"))),
        (ErrorCode::UnsupportedStoreVersion, text("odd"))
    );
}

#[test]
fn checkpoints_are_listed_by_name() {
    let store = new_store();
    let entry = |name: &str, regular: bool| DirectoryEntry {
        file_name: text(name),
        path: format!("/w/{name}"),
        regular,
        bytes: 7,
    };
    let entries = vec![entry("b.db", true), entry("a.db", true), entry("c.txt", true), entry("d.db", false)];
    let list = store.checkpoint_list(&entries);
    let names: Vec<&str> = list.checkpoints.iter().map(|one| one.name.as_str()).collect();
    assert_eq!(names, vec!["a", "b"]);
    assert_eq!(list.checkpoints[0].bytes, 7);
    assert_eq!(accepted(checkpoint_path("/w", "a")), "/w/a.db");
}

#[test]
fn a_fresh_name_steps_over_those_taken() {
    assert_eq!(accepted(fresh_checkpoint_name("p", 5, &vec![])), "p-5");
    assert_eq!(accepted(fresh_checkpoint_name("p", 5, &vec![text("p-5"), text("p-5-1")])), "p-5-2");
    let mut taken = vec![text("p-5")];
    for turn in 1..1000 {
        taken.push(format!("p-5-{turn}"));
    }
    let (code, message) = refused(fresh_checkpoint_name("p", 5, &taken));
    assert_eq!(code, ErrorCode::CheckpointCreateFailed);
    assert_eq!(message, "could not allocate a safety checkpoint name");
}

#[test]
fn copying_waits_until_it_is_late() {
    assert!(matches!(after_lock_step(BackupStep::Busy, false), BackupAction::Wait));
    assert!(matches!(after_copy_step(BackupStep::Done, false), BackupAction::Go));
    assert!(matches!(after_copy_step(BackupStep::More, false), BackupAction::Again));
    match after_copy_step(BackupStep::Busy, true) {
        BackupAction::Fail(e) => assert_eq!(e.code, ErrorCode::DatabaseBusy),
        _ => panic!("a failure is expected"),
    }
    assert!(check_restore_base("a", "a").is_ok());
    assert_eq!(refused(check_restore_base("a", "b")).0, ErrorCode::DatabaseBusy);
}

#[test]
fn an_inverse_is_checked_before_it_is_read() {
    let payload = "{}";
    assert!(check_sparse_inverse(1, payload, &hash_content(payload)).is_ok());
    assert_eq!(refused(check_sparse_inverse(1, payload, &hash_content("x"))).0, ErrorCode::ChangesetCorrupt);
    assert_eq!(refused(check_sparse_inverse(2, payload, &hash_content(payload))).0, ErrorCode::ChangesetCorrupt);
}

#[test]
fn an_inverse_of_another_store_is_refused() {
    let (mut live, mut draft) = sparse_draft();
    stage(&live, &mut draft);
    accepted(publish(&mut live, &draft, "inverse", 30));
    let inverse = InversePayload {
        version: 1,
        changeset_id: id(),
        store_id: "6".repeat(64),
        pages: vec![],
        meta: vec![],
        sources: vec![],
        source_paths: vec![],
        tags: vec![],
    };
    let input = rollback_input(&live);
    let result = undo(&mut live, &CheckpointFile::Inverse(inverse), &input, 31);
    let (code, message) = refused(result);
    assert_eq!(code, ErrorCode::ChangesetCorrupt);
    assert_eq!(message, "sparse inverse patch belongs to another Wiki or changeset");
}

#[test]
fn an_unknown_table_stops_a_changeset() {
    let result = validate_changeset_table_inventory("main", &vec![text("meta")]);
    assert_eq!(refused(result).0, ErrorCode::ChangesetCorrupt);
}

#[test]
fn a_page_that_is_touched_again_keeps_its_base() {
    let (live, mut draft) = sparse_draft();
    accepted(draft.changeset_prepare_page_touch(&live, "alpha", &vec![]));
    let base = draft.meta.get(&text("changeset_base_page:alpha")).cloned();
    assert_eq!(base, live.page_mutation_fingerprint("alpha"));
    assert_eq!(accepted(draft.page_show("alpha")).page.body, "one");
    accepted(put(&mut draft, page("alpha", None, "two", &[1]), 21));
    accepted(draft.changeset_prepare_page_touch(&live, "alpha", &vec![]));
    assert_eq!(draft.meta.get(&text("changeset_base_page:alpha")).cloned(), base);
    assert_eq!(accepted(draft.page_show("alpha")).page.body, "two");
}

#[test]
fn what_any_draft_touched_is_listed() {
    let (live, mut draft) = sparse_draft();
    accepted(put(&mut draft, page("outside", None, "before", &[]), 19));
    let begin = draft.newest_operation();
    draft.changesets.put(
        "d".repeat(64),
        ChangesetRow {
            name: text("second"),
            status: text("draft"),
            base_revision: revision(2),
            base_operation_id: 1,
            begin_operation_id: begin,
            pre_commit_checkpoint: None,
            post_revision: None,
            created_at: text(NOW),
            committed_at: None,
            rolled_back_at: None,
        },
    );
    accepted(draft.changeset_prepare_page_touch(&live, "alpha", &vec![]));
    accepted(put(&mut draft, page("alpha", None, "two", &[1]), 21));
    let touched: Vec<String> =
        draft.changeset_touched_pages().iter().map(|pair| pair.first.clone()).collect();
    assert_eq!(touched, vec!["alpha", "outside"]);
}

#[test]
fn a_changeset_is_taken_back_once() {
    let (mut live, mut draft) = sparse_draft();
    stage(&live, &mut draft);
    let inverse = accepted(live.changeset_sparse_checkpoint_create(&id(), &draft));
    let state = accepted(publish(&mut live, &draft, "inverse", 30));
    assert_eq!(state.name, "work");
    let found = accepted(live.changeset_committed_by_id(&id())).unwrap();
    assert_eq!((found.name.as_str(), &found.base_revision), ("work", &state.base_revision));
    let input = rollback_input(&live);
    let file = CheckpointFile::Inverse(inverse);
    let done = accepted(undo(&mut live, &file, &input, 32));
    let found = accepted(live.changeset_rollback_state_by_id(&id())).unwrap();
    assert_eq!(found.rollback_revision, revision(32));
    assert_eq!(found.checkpoint, "pre-rollback");
    assert_eq!((found.name, found.graph_documents.len()), (done.name, done.graph_documents.len()));
    let again = undo(&mut live, &file, &input, 33);
    assert_eq!(
        refused(again),
        (ErrorCode::ChangesetRollbackConflict, text("changeset history changed before rollback"))
    );
}

/// What a rollback comes to with an inverse patch that was tampered with.
fn undo_with(change: impl FnOnce(&mut InversePayload)) -> (Store, Result<(), (ErrorCode, String)>) {
    let (mut live, mut draft) = sparse_draft();
    stage(&live, &mut draft);
    let mut inverse = accepted(live.changeset_sparse_checkpoint_create(&id(), &draft));
    accepted(publish(&mut live, &draft, "inverse", 30));
    change(&mut inverse);
    let input = rollback_input(&live);
    let file = CheckpointFile::Inverse(inverse);
    let result = undo(&mut live, &file, &input, 32);
    (live, result.map(|_| ()).map_err(|e| (e.code, e.message)))
}

#[test]
fn a_malformed_patch_is_not_applied() {
    let unique = Err((ErrorCode::DatabaseError, text("UNIQUE constraint failed")));
    let check = Err((ErrorCode::DatabaseError, text("CHECK constraint failed")));
    let (live, result) = undo_with(|inverse| {
        inverse.pages[0].before.as_mut().unwrap().source_ids = vec![1, 1];
    });
    assert_eq!(result, unique);
    assert_eq!(accepted(live.page_show("alpha")).page.body, "two");
    let (_, result) = undo_with(|inverse| {
        inverse.pages[0].before.as_mut().unwrap().source_ids = vec![99, 1, 1];
    });
    assert_eq!(result, Err((ErrorCode::DatabaseError, text("FOREIGN KEY constraint failed"))));
    let (_, result) = undo_with(|inverse| {
        inverse.pages[0].before.as_mut().unwrap().provenance = vec![text("guess")];
    });
    assert_eq!(result, check);
    let (_, result) = undo_with(|inverse| {
        inverse.pages[0].before.as_mut().unwrap().links = vec![text("x"), text("x")];
    });
    assert_eq!(result, unique);
    let (live, result) = undo_with(|inverse| {
        inverse.pages[0].before.as_mut().unwrap().provenance =
            vec![text("hypothesis"), text("agent-observed")];
    });
    assert_eq!(result, Ok(()));
    let shown = accepted(live.page_show("alpha")).page;
    assert_eq!((shown.body.as_str(), shown.provenance.len()), ("one", 3));
    assert_eq!(live.pages.get(&text("alpha")).unwrap().provenance[0], "agent-observed");
}

#[test]
fn rows_out_of_bounds_do_not_fit() {
    let policy = |limit: i64, chars: i64| TagPolicy {
        autoload: true,
        autoload_priority: 0,
        autoload_limit: limit,
        autoload_max_chars: chars,
        reason: text("r"),
        updated_at: text(NOW),
    };
    assert!(fits_as_policy(&policy(1, 1)) && fits_as_policy(&policy(100, 100_000)));
    assert!(!fits_as_policy(&policy(0, 1)) && !fits_as_policy(&policy(101, 1)));
    assert!(!fits_as_policy(&policy(1, 0)) && !fits_as_policy(&policy(1, 100_001)));
    assert!(fits_as_observation("a.txt", 1));
    assert!(!fits_as_observation("  ", 1) && !fits_as_observation("a.txt", 0));
}

#[test]
fn an_intent_that_is_too_long_does_not_travel() {
    let (live, mut draft) = sparse_draft();
    stage(&live, &mut draft);
    let export = || accepted(draft.detached_changeset_intent()).unwrap();
    let kept = accepted(bounded_detached_export(export(), 8 * 1024 * 1024));
    assert_eq!(kept.intent.name, "work");
    assert_eq!(
        refused(bounded_detached_export(export(), 8 * 1024 * 1024 + 1)),
        (ErrorCode::ChangesetSyncLimit, text("detached changeset metadata exceeds the byte limit"))
    );
}

#[test]
fn a_full_draft_is_cut_anew_where_it_differs() {
    let (mut live, mut draft) = full_draft();
    accepted(put(&mut draft, page("beta", None, "new", &[]), 21));
    let state = accepted(draft.changeset_draft("work", 100));
    let input = publish_input(&live, &state, "before");
    let mut segments = segments_for(&[&live, &draft]);
    // The segmenter now finds two sentences where the draft had one.
    segments.version = 2;
    let sentence = |ordinal: usize, start: usize, end: usize| Sentence { ordinal, start, end };
    let passage = |content: &str| Passage {
        ordinal: 0,
        start: 0,
        end: content.len(),
        sentences: vec![sentence(0, 0, 1), sentence(1, 1, content.len())],
    };
    for content in ["one", "new"] {
        segments
            .contents
            .put(hash_content(content), Segmented { failure: None, passages: vec![passage(content)] });
    }
    accepted(live.changeset_publish(&draft, &segments, &index_of(&draft), &input, LATER, &revision(30)));
    let texts = |slug: &str, active: bool| {
        let mut found: Vec<(i64, String)> = Vec::new();
        for i in 0..live.spans.len() {
            let span = live.spans.value_at(i);
            if span.document_identifier == slug && span.active == active {
                let text = match live.span_get(live.spans.key_at(i), 2) {
                    Ok(shown) => shown.span.text,
                    Err(e) => {
                        assert_eq!(e.code, ErrorCode::StaleSpan);
                        String::new()
                    }
                };
                found.push((span.segmenter_version, text));
            }
        }
        found.sort();
        found
    };
    // The page that did not change keeps its spans, the other has those of the new cut.
    assert_eq!(texts("alpha", true), vec![(1, text("one")), (1, text("one"))]);
    assert!(texts("alpha", false).is_empty());
    assert_eq!(texts("beta", true), vec![(1, text("new")), (2, text("ew")), (2, text("n"))]);
    assert_eq!(texts("beta", false), vec![(1, String::new())]);
}

#[test]
fn a_full_draft_with_broken_spans_is_refused() {
    let attempt = |change: &dyn Fn(&mut Store, &mut Segments, &mut Table<Pair, bool>)| {
        let (mut live, mut draft) = full_draft();
        accepted(put(&mut draft, page("beta", None, "new", &[]), 21));
        let mut segments = segments_for(&[&live, &draft]);
        let mut entries = index_of(&draft);
        change(&mut draft, &mut segments, &mut entries);
        let state = accepted(draft.changeset_draft("work", 100));
        let input = publish_input(&live, &state, "before");
        let result = live.changeset_publish(&draft, &segments, &entries, &input, LATER, &revision(30));
        assert_eq!(accepted(live.page_show("alpha")).page.body, "one");
        assert_eq!(refused(live.page_show("beta")).0, ErrorCode::PageNotFound);
        refused(result)
    };
    let mismatch = |name: &str| {
        (ErrorCode::ChangesetCorrupt, format!("candidate {name} and search index do not match"))
    };
    assert_eq!(
        attempt(&|_, _, entries| {
            entries.remove(&Pair::new("page", "beta"));
        }),
        mismatch("page")
    );
    assert_eq!(
        attempt(&|draft, segments, entries| {
            let _ = add(draft, "unindexed", None, 22);
            *segments = segments_for(&[&*draft]);
            entries.remove(&Pair::new("source", "1"));
        }),
        mismatch("source")
    );
    let stray = |draft: &mut Store, change: &dyn Fn(&mut lwc_store::rows::SpanRow)| {
        let mut span = draft.spans.value_at(0).duplicate();
        span.document_identifier = text("alpha");
        change(&mut span);
        draft.spans.put(text("span:odd"), span);
    };
    assert_eq!(
        attempt(&|draft, _, _| stray(draft, &|span| span.document_identifier = text("gone"))),
        (ErrorCode::DatabaseError, text("Invalid column type Null"))
    );
    let corrupt = |message: &str| (ErrorCode::ChangesetCorrupt, text(message));
    assert_eq!(
        attempt(&|draft, _, _| stray(draft, &|span| span.byte_start = -1)),
        corrupt("negative search span start")
    );
    assert_eq!(
        attempt(&|draft, _, _| stray(draft, &|span| span.byte_end = -1)),
        corrupt("negative search span end")
    );
    assert_eq!(
        attempt(&|draft, _, _| stray(draft, &|span| span.byte_end = 99)),
        corrupt("search span has an invalid byte range")
    );
    let (code, _) = attempt(&|_, segments, _| {
        segments.contents.put(
            hash_content("new"),
            lwc_store::spans::Segmented { failure: Some(text("odd")), passages: vec![] },
        );
    });
    assert_ne!(code, ErrorCode::ChangesetCorrupt);
}

#[test]
fn a_created_checkpoint_is_listed() {
    let store = new_store();
    let made = accepted(store.checkpoint_create("/w", &vec![], "before"));
    let entries = vec![
        DirectoryEntry { file_name: text("z.db"), path: text("/w/z.db"), regular: true, bytes: 1 },
        DirectoryEntry {
            file_name: text("before.db"),
            path: made.response.path.clone(),
            regular: true,
            bytes: 9,
        },
    ];
    let listed = store.checkpoint_list(&entries).checkpoints;
    assert_eq!(listed[0].name, made.response.checkpoint);
    assert_eq!((listed[0].path.as_str(), listed[0].bytes), ("/w/before.db", 9));
}

#[test]
fn a_source_is_known_where_any_line_says_so() {
    let attempt = |known_too: bool| {
        let (mut live, mut draft) = sparse_draft();
        stage(&live, &mut draft);
        let mut inverse = accepted(live.changeset_sparse_checkpoint_create(&id(), &draft));
        accepted(publish(&mut live, &draft, "inverse", 30));
        inverse.sources[0].after_fingerprint = text("another");
        let source = live.source_id_by_content_hash(&hash_content("fresh")).unwrap();
        if known_too {
            let last = live.operations.len() - 1;
            let detail = &mut live.operations[last].detail;
            let line = |created: bool| {
                let mut line = Json::object2("draft_id", Json::Int(source), "live_id", Json::Int(source));
                line.set("created", Json::Bool(created));
                line
            };
            let lines = vec![line(true), line(false)];
            detail.set("source_id_remap", Json::Array(lines));
        }
        let input = rollback_input(&live);
        let result = undo(&mut live, &CheckpointFile::Inverse(inverse), &input, 32);
        (live, result.map(|_| ()).map_err(|e| e.code))
    };
    assert_eq!(attempt(false).1, Err(ErrorCode::ChangesetRollbackConflict));
    let (live, result) = attempt(true);
    assert_eq!(result, Ok(()));
    // What is said first decides: the source was made, so it goes.
    assert_eq!(live.source_id_by_content_hash(&hash_content("fresh")), None);
}

#[test]
fn a_wide_count_is_read_back() {
    let (mut live, mut draft) = sparse_draft();
    stage(&live, &mut draft);
    accepted(publish(&mut live, &draft, "inverse", 30));
    let last = live.operations.len() - 1;
    let mut read = |said: &str| {
        live.operations[last].detail.set("staged_operation_count", Json::Number(text(said)));
        accepted(live.changeset_committed_by_id(&id())).unwrap().staged_operation_count
    };
    assert_eq!(read(&usize::MAX.to_string()), usize::MAX);
}
