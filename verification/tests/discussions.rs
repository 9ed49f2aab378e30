#![allow(dead_code)]
use lwc_store::digest::hash_content;
use lwc_store::discussion_apply::DiscussionOperation;
use lwc_store::discussion_book::{bounded_hook_text, normalize_agent_context, DiscussionInput};
use lwc_store::discussion_read::DiscussionReading;
use lwc_store::discussion_store::{ImportedDiscussion, ImportedEvent, ReplyOutcome};
use lwc_store::error::{AppError, ErrorCode};
use lwc_store::pages::{PagePutInput, PagePutResponse};
use lwc_store::sources::SourceAddInput;
use lwc_store::spans::{Passage, Segmented, Segments, Sentence};
use lwc_store::store::Store;
use lwc_store::sync_state::load_sync_objects;
use lwc_store::table::{Pair, Record, Table};
use lwc_store::versions::FreshStore;

const NOW: &str = "2024-05-01T00:00:00Z";
const LATER: &str = "2024-05-02T00:00:00Z";
const TOKENIZER: &str = "words-1";

fn revision(n: u64) -> String {
    format!("{n:064x}")
}

fn text(s: &str) -> String {
    s.to_string()
}

fn accepted<T>(r: Result<T, AppError>) -> T {
    match r {
        Ok(value) => value,
        Err(e) => panic!("{}: {}", e.code.as_str(), e.message),
    }
}

fn refused<T>(r: Result<T, AppError>) -> (ErrorCode, String) {
    match r {
        Ok(_) => panic!("a refusal is expected"),
        Err(e) => (e.code, e.message),
    }
}

/// One passage with one sentence for each content.
fn segments_of(contents: &[&str]) -> Segments {
    let mut table: Table<String, Segmented> = Table::new();
    for content in contents {
        let sentence = Sentence { ordinal: 0, start: 0, end: content.len() };
        let passage = Passage { ordinal: 0, start: 0, end: content.len(), sentences: vec![sentence] };
        table.put(hash_content(content), Segmented { failure: None, passages: vec![passage] });
    }
    Segments { version: 1, contents: table }
}

/// The same for everything that some stores hold.
fn segments_for(stores: &[&Store]) -> Segments {
    let mut contents: Vec<&str> = Vec::new();
    for store in stores {
        contents.extend((0..store.sources.len()).map(|i| store.sources.value_at(i).content.as_str()));
        contents.extend((0..store.pages.len()).map(|i| store.pages.value_at(i).body.as_str()));
    }
    segments_of(&contents)
}

/// The documents that the text index of a store has.
fn index_of(store: &Store) -> Table<Pair, bool> {
    let mut entries: Table<Pair, bool> = Table::new();
    for i in 0..store.sources.len() {
        entries.put(Pair::new("source", &store.sources.key_at(i).to_string()), true);
    }
    for i in 0..store.pages.len() {
        entries.put(Pair::new("page", store.pages.key_at(i)), true);
    }
    entries
}

fn new_store() -> Store {
    let fresh = FreshStore {
        store_id: "5".repeat(64),
        store_revision: revision(1),
        schema: text("# Schema"),
        purpose: text("# Purpose"),
    };
    accepted(Store::initialize("project", "/w/wiki.db", None, &fresh, TOKENIZER, NOW, &revision(2))).0
}

fn page(slug: &str, kind: Option<&str>, body: &str, source_ids: &[i64]) -> PagePutInput {
    PagePutInput {
        slug: text(slug),
        title: text(slug).to_uppercase(),
        kind: kind.map(text),
        summary: Some(text("in short")),
        body: text(body),
        source_ids: source_ids.to_vec(),
        provenance: vec![],
    }
}

fn put(store: &mut Store, input: PagePutInput, n: u64) -> Result<PagePutResponse, AppError> {
    let seen = store.page_version(&input.slug);
    let segments = segments_of(&[&input.body]);
    store.page_put(&segments, input, &seen, NOW, &revision(n))
}

fn add(store: &mut Store, content: &str, path: Option<&str>, n: u64) -> (i64, bool) {
    let input = SourceAddInput {
        title: Some(text("a source")),
        origin: text("notes/a.txt"),
        content: text(content),
        tracked_path: path.map(text),
    };
    let done = accepted(store.source_add(&segments_of(&[content]), input, NOW, &revision(n)));
    (done.added[0].id, done.added[0].created)
}

fn context() -> String {
    format!("lwcctx-v1-{}", "a".repeat(64))
}

fn op(name: &str) -> DiscussionOperation {
    DiscussionOperation {
        op: text(name),
        id: None,
        parent: None,
        text: None,
        description: None,
        reason: None,
        refs: vec![],
        ordinal: None,
        confirmed: None,
        message_id: None,
    }
}

fn item(name: &str, id: &str, said: &str) -> DiscussionOperation {
    DiscussionOperation { id: Some(text(id)), text: Some(text(said)), ..op(name) }
}

fn start() -> DiscussionOperation {
    DiscussionOperation { text: Some(text("A title")), description: Some(text("about it")), ..op("start") }
}

fn batch(request: &str, if_revision: i64, operations: Vec<DiscussionOperation>) -> DiscussionInput {
    DiscussionInput {
        id: text("d1"),
        context: context(),
        request_id: text(request),
        if_revision,
        operations,
        from_context: None,
    }
}

/// A store with a discussion: a question, its answer, and a summary of both.
fn discussed() -> Store {
    let mut store = new_store();
    let answer = DiscussionOperation { parent: Some(text("q1")), ..item("answer", "a1", "because") };
    let summary = DiscussionOperation { refs: vec![text("q1"), text("a1")], ..item("summary", "s1", "in all") };
    let operations = vec![start(), item("question", "q1", "why?"), answer, summary];
    accepted(store.discussion_apply(batch("r1", 0, operations), false, NOW));
    store
}

fn fault(store: &mut Store, operations: Vec<DiscussionOperation>) -> String {
    let (code, message) = refused(store.discussion_apply(batch("r2", 1, operations), false, NOW));
    assert_eq!(code, ErrorCode::InvalidDiscussion);
    message
}

#[test]
fn a_batch_is_applied_once() {
    let mut store = discussed();
    let before = accepted(store.identity());
    let operations = vec![item("question", "q2", "and then?")];
    let done = accepted(store.discussion_apply(batch("r2", 1, operations), false, NOW));
    assert_eq!((done.revision, done.replayed), (2, false));
    let operations = vec![item("question", "q2", "and then?")];
    let again = accepted(store.discussion_apply(batch("r2", 1, operations), false, LATER));
    assert_eq!((again.revision, again.replayed), (2, true));
    let other = vec![item("question", "q2", "something else?")];
    let (_, message) = refused(store.discussion_apply(batch("r2", 1, other), false, NOW));
    assert_eq!(message, "request ID reused with different input");
    let stale = vec![item("question", "q3", "late?")];
    let (_, message) = refused(store.discussion_apply(batch("r3", 1, stale), false, NOW));
    assert_eq!(message, "revision conflict");
    // What is discussed does not move the revision of the wiki.
    let after = accepted(store.identity());
    assert_eq!(after.revision, before.revision);
    assert_eq!(after.operation_id, before.operation_id + 1);
    assert_eq!(store.log(1).operations[0].action, "discussion.apply");
}

#[test]
fn a_discussion_reads_back() {
    let store = discussed();
    match accepted(store.discussion_read("d1", &context(), "current", 0, 10)) {
        DiscussionReading::Current(current) => {
            assert_eq!(current.title, "A title");
            assert_eq!(current.revision, 1);
            assert_eq!(current.state, "active");
            assert_eq!(current.pending_total, 0);
            assert_eq!(current.last_item.unwrap().id, "s1");
        }
        _ => panic!("the current state is expected"),
    }
    match accepted(store.discussion_read("d1", &context(), "history", 0, 10)) {
        DiscussionReading::History { total, revisions, .. } => {
            assert_eq!(total, 1);
            assert_eq!(revisions[0].request_id, "r1");
        }
        _ => panic!("the history is expected"),
    }
    let shown = accepted(store.discussion_item("d1", &context(), "a1"));
    assert_eq!(shown.item.text, "because");
    let list = accepted(store.discussion_list(&context(), 0, 10));
    assert_eq!(list.total, 1);
    assert!(!list.discussions[0].unbound);
    let (code, message) = refused(store.discussion_list(&context(), 0, 0));
    assert_eq!(code, ErrorCode::InvalidDiscussion);
    assert_eq!(message, "invalid pagination");
}

#[test]
fn changed_answers_make_summaries_stale() {
    let mut store = discussed();
    let revise = DiscussionOperation { reason: Some(text("better")), ..item("revise", "a1", "due to this") };
    accepted(store.discussion_apply(batch("r2", 1, vec![revise]), false, NOW));
    let summary = accepted(store.discussion_item("d1", &context(), "s1")).item;
    assert!(summary.stale);
    let answer = accepted(store.discussion_item("d1", &context(), "a1")).item;
    assert_eq!(answer.original, "because");
    assert_eq!(answer.text, "due to this");
    let (_, message) = refused(store.discussion_apply(batch("r3", 2, vec![op("close")]), false, NOW));
    assert_eq!(message, "current summary required");
}

#[test]
fn a_discussion_is_closed_when_all_is_covered() {
    let mut store = discussed();
    let extra = vec![item("question", "q2", "and?"), op("close")];
    assert_eq!(fault(&mut store, extra), "unanswered question");
    let loose = vec![item("reply", "m1", "hm"), op("close")];
    assert_eq!(fault(&mut store, loose), "associate or withdraw unassigned replies before closing");
    let gap = vec![item("gap", "g1", "left out"), op("close")];
    assert_eq!(fault(&mut store, gap), "summary must cover each active question and capture gap");
    accepted(store.discussion_apply(batch("r2", 1, vec![op("close")]), false, NOW));
    let more = vec![item("question", "q2", "and?")];
    let (_, message) = refused(store.discussion_apply(batch("r3", 2, more), false, NOW));
    assert_eq!(message, "resume the discussion explicitly before editing");
    let resume = DiscussionOperation { reason: Some(text("more came up")), ..op("resume") };
    accepted(store.discussion_apply(batch("r4", 2, vec![resume]), false, NOW));
}

#[test]
fn operations_are_refused_for_each_fault() {
    let mut store = discussed();
    assert_eq!(fault(&mut store, vec![start()]), "already started");
    assert_eq!(fault(&mut store, vec![item("dance", "x", "y")]), "unsupported operation");
    assert_eq!(fault(&mut store, vec![item("question", "q9", " ")]), "nonempty text up to 65536 bytes required");
    assert_eq!(fault(&mut store, vec![item("question", "q1", "again?")]), "item already exists");
    assert_eq!(fault(&mut store, vec![item("answer", "a9", "x")]), "parent question required");
    assert_eq!(fault(&mut store, vec![item("summary", "s9", "x")]), "valid summary references required");
    let pause = DiscussionOperation { reason: Some(text("later")), ..op("pause") };
    assert_eq!(
        fault(&mut store, vec![pause, item("question", "q9", "x?")]),
        "operation after terminal transition"
    );
    let (_, message) = refused(store.discussion_apply(batch("r2", 1, vec![]), false, NOW));
    assert_eq!(message, "expected 1..64 operations");
    let (_, message) = refused(store.discussion_apply(batch("r2", -1, vec![op("close")]), false, NOW));
    assert_eq!(message, "invalid revision");
    let (_, message) = refused(store.discussion_apply(batch("", 1, vec![op("close")]), false, NOW));
    assert_eq!(message, "IDs must be 1..256 bytes");
    let (_, message) = refused(store.discussion_apply(batch("r2", 1, vec![op("close")]), true, NOW));
    assert_eq!(message, "possible secret excluded; submit a gap marker without sensitive text");
    let mut elsewhere = batch("r2", 1, vec![op("close")]);
    elsewhere.context = format!("lwcctx-v1-{}", "b".repeat(64));
    let (_, message) = refused(store.discussion_apply(elsewhere, false, NOW));
    assert_eq!(message, "context mismatch");
    let mut second = batch("r1", 0, vec![start()]);
    second.id = text("d2");
    let (_, message) = refused(store.discussion_apply(second, false, NOW));
    assert_eq!(message, "pause current discussion before switching");
    store.meta.put(text("changeset_frozen"), text("1"));
    let (_, message) = refused(store.discussion_apply(batch("r2", 1, vec![op("close")]), false, NOW));
    assert_eq!(message, "store is frozen for publication");
    assert_eq!(accepted(store.discussion_item("d1", &context(), "s1")).revision, 1);
}

#[test]
fn replies_of_the_host_are_captured_once() {
    let mut store = discussed();
    let first = accepted(store.capture_discussion_reply(&context(), "m-1", "I think so", false, NOW));
    assert!(matches!(first, ReplyOutcome::Recorded(ref done) if done.revision == 2));
    let again = accepted(store.capture_discussion_reply(&context(), "m-1", "I think so", false, NOW));
    assert!(matches!(again, ReplyOutcome::Known));
    let (_, message) = refused(store.capture_discussion_reply(&context(), "m-1", "I think not", false, NOW));
    assert_eq!(message, "host message changed; explicit correction required");
    let other = format!("lwcctx-v1-{}", "b".repeat(64));
    let nothing = accepted(store.capture_discussion_reply(&other, "m-1", "x", false, NOW));
    assert!(matches!(nothing, ReplyOutcome::Nothing));
}

#[test]
fn contexts_and_overview_texts_are_bounded() {
    assert_eq!(accepted(normalize_agent_context(&context())), context());
    let (code, message) = refused(normalize_agent_context("lwcctx-v1-abc"));
    assert_eq!(code, ErrorCode::InvalidAgentContext);
    assert_eq!(message, "context must be an lwcctx-v1 token");
    assert_eq!(bounded_hook_text("short"), "short");
    let cut = bounded_hook_text(&"é".repeat(501));
    assert_eq!(cut.chars().count(), 500);
    assert!(cut.ends_with('…'));
}

#[test]
fn an_import_moves_a_discussion_ahead() {
    let source = discussed();
    let rows = source.export_sync_discussions();
    assert_eq!(rows.len(), 1);
    let objects = accepted(load_sync_objects(&rows));
    assert_eq!(objects.len(), 1);
    let known = source.discussions.discussions.get(&text("d1")).unwrap();
    let event = &source.discussions.revisions.get(&text("d1")).unwrap().list[0];
    let mut given: Table<String, ImportedDiscussion> = Table::new();
    given.put(
        text("d1"),
        ImportedDiscussion {
            body: known.body.duplicate(),
            history: vec![ImportedEvent {
                revision: 1,
                request_id: event.request_id.clone(),
                created_at: event.created_at.clone(),
                input: event.input.duplicate(),
            }],
        },
    );
    let mut store = new_store();
    accepted(store.import_sync_discussions(&given));
    assert_eq!(accepted(store.discussion_list(&context(), 0, 10)).total, 1);
    // The same again changes nothing.
    accepted(store.import_sync_discussions(&given));
    assert_eq!(accepted(store.discussion_list(&context(), 0, 10)).total, 1);
    // A history that does not reach the body is refused.
    let mut short: Table<String, ImportedDiscussion> = Table::new();
    short.put(text("d1"), ImportedDiscussion { body: known.body.duplicate(), history: vec![] });
    assert_eq!(refused(new_store().import_sync_discussions(&short)).1, "incomplete imported history");
}
