#![allow(dead_code)]
use lwc_store::digest::hash_content;
use lwc_store::error::{AppError, ErrorCode};
use lwc_store::pages::{PagePutInput, PagePutResponse};
use lwc_store::relations::{Confidence, Statement};
use lwc_store::sources::SourceAddInput;
use lwc_store::spans::{Passage, Segmented, Segments, Sentence};
use lwc_store::store::Store;
use lwc_store::table::{Pair, Record, Table};
use lwc_store::versions::FreshStore;

const NOW: &str = "2024-05-01T00:00:00Z";
const LATER: &str = "2024-05-02T00:00:00Z";
const TOKENIZER: &str = "words-1";

fn revision(n: u64) -> String {
    format!("{n:064x}")
}

fn text(s: &str) -> String {
    s.to_string()
}

fn accepted<T>(r: Result<T, AppError>) -> T {
    match r {
        Ok(value) => value,
        Err(e) => panic!("{}: {}", e.code.as_str(), e.message),
    }
}

fn refused<T>(r: Result<T, AppError>) -> (ErrorCode, String) {
    match r {
        Ok(_) => panic!("a refusal is expected"),
        Err(e) => (e.code, e.message),
    }
}

/// One passage with one sentence for each content.
fn segments_of(contents: &[&str]) -> Segments {
    let mut table: Table<String, Segmented> = Table::new();
    for content in contents {
        let sentence = Sentence { ordinal: 0, start: 0, end: content.len() };
        let passage = Passage { ordinal: 0, start: 0, end: content.len(), sentences: vec![sentence] };
        table.put(hash_content(content), Segmented { failure: None, passages: vec![passage] });
    }
    Segments { version: 1, contents: table }
}

/// The same for everything that some stores hold.
fn segments_for(stores: &[&Store]) -> Segments {
    let mut contents: Vec<&str> = Vec::new();
    for store in stores {
        contents.extend((0..store.sources.len()).map(|i| store.sources.value_at(i).content.as_str()));
        contents.extend((0..store.pages.len()).map(|i| store.pages.value_at(i).body.as_str()));
    }
    segments_of(&contents)
}

/// The documents that the text index of a store has.
fn index_of(store: &Store) -> Table<Pair, bool> {
    let mut entries: Table<Pair, bool> = Table::new();
    for i in 0..store.sources.len() {
        entries.put(Pair::new("source", &store.sources.key_at(i).to_string()), true);
    }
    for i in 0..store.pages.len() {
        entries.put(Pair::new("page", store.pages.key_at(i)), true);
    }
    entries
}

fn new_store() -> Store {
    let fresh = FreshStore {
        store_id: "5".repeat(64),
        store_revision: revision(1),
        schema: text("# Schema"),
        purpose: text("# Purpose"),
    };
    accepted(Store::initialize("project", "/w/wiki.db", None, &fresh, TOKENIZER, NOW, &revision(2))).0
}

fn page(slug: &str, kind: Option<&str>, body: &str, source_ids: &[i64]) -> PagePutInput {
    PagePutInput {
        slug: text(slug),
        title: text(slug).to_uppercase(),
        kind: kind.map(text),
        summary: Some(text("in short")),
        body: text(body),
        source_ids: source_ids.to_vec(),
        provenance: vec![],
    }
}

fn put(store: &mut Store, input: PagePutInput, n: u64) -> Result<PagePutResponse, AppError> {
    let seen = store.page_version(&input.slug);
    let segments = segments_of(&[&input.body]);
    store.page_put(&segments, input, &seen, NOW, &revision(n))
}

fn add(store: &mut Store, content: &str, path: Option<&str>, n: u64) -> (i64, bool) {
    let input = SourceAddInput {
        title: Some(text("a source")),
        origin: text("notes/a.txt"),
        content: text(content),
        tracked_path: path.map(text),
    };
    let done = accepted(store.source_add(&segments_of(&[content]), input, NOW, &revision(n)));
    (done.added[0].id, done.added[0].created)
}

// --- pages -----------------------------------------------------------------

#[test]
fn a_new_store_holds_its_metadata_and_one_operation() {
    let store = new_store();
    let identity = accepted(store.identity());
    assert_eq!(identity.store_id, "5".repeat(64));
    assert_eq!(identity.revision, revision(2));
    assert_eq!(identity.operation_id, 1);
    assert_eq!(store.schema_show().schema, Some(text("# Schema")));
    assert_eq!(store.purpose_show().purpose, Some(text("# Purpose")));
    let log = store.log(10);
    assert_eq!(log.operations.len(), 1);
    assert_eq!(log.operations[0].action, "init");
    assert_eq!(log.operations[0].target, "wiki");
    assert!(!store.frozen());
}

#[test]
fn a_page_reads_back() {
    let mut store = new_store();
    let (source, _) = add(&mut store, "what was said", None, 3);
    let done = accepted(put(&mut store, page("alpha", Some("topic"), "See [[beta]].", &[source, source]), 4));
    assert!(done.created && done.written);
    let shown = accepted(store.page_show("alpha"));
    assert_eq!(shown.scope, "project");
    assert_eq!(shown.page.title, "ALPHA");
    assert_eq!(shown.page.kind, Some(text("topic")));
    assert_eq!(shown.page.body, "See [[beta]].");
    assert_eq!(shown.page.source_ids, vec![source]);
    assert_eq!(shown.page.provenance, vec!["source-grounded"]);
    assert_eq!(shown.page.links, vec!["beta"]);
    assert_eq!(shown.page.created_at, NOW);
    let links = accepted(store.page_links("alpha"));
    assert_eq!(links.outgoing, vec!["beta"]);
    assert_eq!(links.missing, vec!["beta"]);
    assert_eq!(links.backlinks, Vec::<String>::new());
}

#[test]
fn the_same_page_changes_nothing() {
    let mut store = new_store();
    accepted(put(&mut store, page("alpha", None, "body", &[]), 3));
    let before = accepted(store.identity());
    let again = accepted(put(&mut store, page("alpha", None, "body", &[]), 4));
    assert!(!again.created && !again.written);
    let after = accepted(store.identity());
    assert_eq!(after.revision, before.revision);
    assert_eq!(after.operation_id, before.operation_id);
}

#[test]
fn a_change_nobody_saw_is_not_overwritten() {
    let mut store = new_store();
    accepted(put(&mut store, page("alpha", None, "one", &[]), 3));
    let seen = store.page_version("alpha");
    accepted(put(&mut store, page("alpha", None, "two", &[]), 4));
    let result = store.page_put(
        &segments_of(&["three"]),
        page("alpha", None, "three", &[]),
        &seen,
        NOW,
        &revision(5),
    );
    let (code, message) = refused(result);
    assert_eq!(code, ErrorCode::EntityConflict);
    assert_eq!(message, "page alpha changed while the replacement was prepared");
    assert_eq!(accepted(store.page_show("alpha")).page.body, "two");
}

#[test]
fn pages_are_refused_for_their_slug_provenance_and_sources() {
    let mut store = new_store();
    for slug in ["", " a", "a/b", "..", "a\\b", "a\nb"] {
        let (code, message) = refused(put(&mut store, page(slug, None, "x", &[]), 3));
        assert_eq!(code, ErrorCode::InvalidSlug);
        assert_eq!(message, "slug must be one safe filename segment");
    }
    let mut odd = page("alpha", None, "x", &[]);
    odd.provenance = vec![text("rum\"our")];
    let (code, message) = refused(put(&mut store, odd, 3));
    assert_eq!(code, ErrorCode::InvalidProvenance);
    assert!(message.starts_with("unsupported provenance \"rum\\\"our\""), "{message}");
    let (code, message) = refused(put(&mut store, page("alpha", None, "x", &[9]), 3));
    assert_eq!(code, ErrorCode::SourceNotFound);
    assert_eq!(message, "source not found: 9");
    assert_eq!(store.page_list(10, 0).pages.len(), 0);
}

#[test]
fn linked_pages_stay() {
    let mut store = new_store();
    accepted(put(&mut store, page("beta", None, "plain", &[]), 3));
    accepted(put(&mut store, page("alpha", None, "See [[beta]] and [[alpha]].", &[]), 4));
    let (code, message) = refused(store.page_remove("beta", NOW, &revision(5)));
    assert_eq!(code, ErrorCode::PageInUse);
    assert_eq!(message, "page beta has 1 inbound Wiki link(s)");
    // A link of the page to itself does not hold it.
    assert_eq!(accepted(store.page_remove("alpha", NOW, &revision(5))).slug, "alpha");
    accepted(store.page_remove("beta", NOW, &revision(6)));
    let (code, message) = refused(store.page_show("beta"));
    assert_eq!(code, ErrorCode::PageNotFound);
    assert_eq!(message, "page not found: beta");
    assert_eq!(refused(store.page_remove("beta", NOW, &revision(7))).0, ErrorCode::PageNotFound);
}

#[test]
fn pages_are_listed_a_page_at_a_time() {
    let mut store = new_store();
    for (i, slug) in ["c", "a", "b"].iter().enumerate() {
        accepted(put(&mut store, page(slug, None, slug, &[]), 3 + i as u64));
    }
    let first = store.page_list(2, 0);
    assert_eq!(first.pages.len(), 2);
    assert!(first.has_more);
    let rest = store.page_list(2, 2);
    assert_eq!(rest.pages.len(), 1);
    assert!(!rest.has_more);
}

// --- the log ---------------------------------------------------------------

#[test]
fn the_log_only_grows() {
    let mut store = new_store();
    accepted(store.schema_set("# Other", NOW, &revision(3)));
    accepted(store.purpose_set("why", NOW, &revision(4)));
    accepted(store.record_search("words", 5, NOW, &revision(5)));
    accepted(store.record_lint(2, NOW, &revision(6)));
    let log = store.log(10);
    let ids: Vec<i64> = log.operations.iter().map(|op| op.id).collect();
    assert_eq!(ids, vec![5, 4, 3, 2, 1]);
    let actions: Vec<&str> = log.operations.iter().map(|op| op.action.as_str()).collect();
    assert_eq!(actions, vec!["lint", "search", "purpose_set", "schema_set", "init"]);
    assert_eq!(store.schema_show().schema, Some(text("# Other")));
    assert_eq!(store.log(2).operations.len(), 2);
    assert_eq!(accepted(store.identity()).revision, revision(6));
}

#[test]
fn a_frozen_store_takes_no_writes() {
    let mut store = new_store();
    store.meta.put(text("changeset_frozen"), text("1"));
    assert!(store.frozen());
    assert_eq!(refused(store.schema_set("x", NOW, &revision(3))).0, ErrorCode::ChangesetFrozen);
    assert_eq!(refused(put(&mut store, page("a", None, "x", &[]), 3)).0, ErrorCode::ChangesetFrozen);
    assert_eq!(accepted(store.identity()).revision, revision(2));
    store.meta.remove(&text("changeset_frozen"));
    let (source, _) = add(&mut store, "kept", None, 4);
    accepted(put(&mut store, page("a", None, "x", &[source]), 5));
    store.meta.put(text("changeset_frozen"), text("1"));
    let frozen = |code: ErrorCode| assert_eq!(code, ErrorCode::ChangesetFrozen);
    frozen(refused(store.ingest_claim(source, 1, None, NOW, &revision(6))).0);
    frozen(refused(store.retrieval_weight_set("page", "a", 1, "r", "user-provided", NOW, &revision(6))).0);
    let kept = store.snapshot_to();
    frozen(refused(store.reindex(&segments_for(&[&kept]), &Table::new(), NOW, &revision(6))).0);
    frozen(refused(store.compact(0, NOW, &revision(6))).0);
    assert_eq!(accepted(store.identity()).revision, revision(5));
    assert_eq!(accepted(store.page_show("a")).page.body, "x");
}

#[test]
fn a_store_without_its_marks_is_corrupt() {
    let mut store = new_store();
    store.meta.remove(&text("store_revision"));
    let (code, message) = refused(store.identity());
    assert_eq!(code, ErrorCode::CorruptStore);
    assert_eq!(message, "wiki store_revision metadata is missing");
    store.meta.remove(&text("store_id"));
    assert_eq!(refused(store.identity()).1, "wiki store_id metadata is missing");
}

// --- sources ---------------------------------------------------------------

#[test]
fn the_same_content_is_one_source() {
    let mut store = new_store();
    let (first, created) = add(&mut store, "text one", None, 3);
    assert!(created);
    let (second, created) = add(&mut store, "text one", None, 4);
    assert!(!created);
    assert_eq!(first, second);
    let (third, _) = add(&mut store, "text two", None, 5);
    assert!(third > first);
    assert_eq!(store.source_list(10, 0).sources.len(), 2);
    assert_eq!(store.source_id_by_content_hash(&hash_content("text two")), Some(third));
    assert_eq!(store.max_source_id(), third);
}

#[test]
fn sources_are_shown_by_windows() {
    let mut store = new_store();
    let (id, _) = add(&mut store, "héllo wörld", None, 3);
    let shown = accepted(store.source_show(id, 1, Some(4))).shown;
    assert_eq!(shown.source.content, "éllo");
    assert_eq!(shown.window.total_chars, 11);
    assert_eq!(shown.window.next_offset_chars, Some(5));
    assert!(shown.window.has_more);
    let rest = accepted(store.source_show(id, 5, None)).shown;
    assert_eq!(rest.source.content, " wörld");
    assert_eq!(rest.window.next_offset_chars, None);
    let (code, message) = refused(store.source_show(id, 0, Some(0)));
    assert_eq!(code, ErrorCode::InvalidLimit);
    assert_eq!(message, "max-chars must be greater than zero");
    let (code, message) = refused(store.source_show(id, 12, None));
    assert_eq!(code, ErrorCode::InvalidOffset);
    assert_eq!(message, "offset-chars 12 exceeds source length 11");
    assert_eq!(refused(store.source_show(99, 0, None)).0, ErrorCode::SourceNotFound);
    let (code, message) = refused(store.source_for_diff(id, 5));
    assert_eq!(code, ErrorCode::SourceDiffTooLarge);
    assert!(message.contains("13 bytes; maximum source diff input is 5"), "{message}");
    assert_eq!(accepted(store.source_for_diff(id, 13)).content, "héllo wörld");
}

#[test]
fn a_path_advances_with_its_content() {
    let mut store = new_store();
    let (first, _) = add(&mut store, "v1", Some("docs/a.md"), 3);
    assert_eq!(store.source_path_head("docs/a.md"), Some(first));
    let (second, _) = add(&mut store, "v2", Some("docs/a.md"), 4);
    assert_eq!(store.source_path_head("docs/a.md"), Some(second));
    let (again, created) = add(&mut store, "v2", Some("docs/a.md"), 5);
    assert_eq!((again, created), (second, false));
    let log = store.paths.get(&text("docs/a.md")).unwrap();
    let seen: Vec<(i64, i64)> = log.list.iter().map(|step| (step.revision, step.source_id)).collect();
    assert_eq!(seen, vec![(1, first), (2, second)]);
    let (back, created) = add(&mut store, "v1", Some("docs/a.md"), 6);
    assert_eq!((back, created), (first, false));
    assert_eq!(store.source_path_head("docs/a.md"), Some(first));
    let status = accepted(store.source_status_targets(&vec![first], false));
    assert_eq!(status.targets.len(), 1);
    assert_eq!(status.targets[0].head_revision, 3);
    assert_eq!(status.targets[0].head_source_id, first);
    let (code, message) = refused(store.source_status_targets(&vec![], false));
    assert_eq!(code, ErrorCode::InvalidInput);
    assert_eq!(message, "source status requires at least one source ID or --all");
}

#[test]
fn an_empty_tracked_path_is_refused() {
    let mut store = new_store();
    let input = SourceAddInput {
        title: None,
        origin: text("o"),
        content: text("c"),
        tracked_path: Some(text("")),
    };
    let (code, message) = refused(store.source_add(&segments_of(&["c"]), input, NOW, &revision(3)));
    assert_eq!(code, ErrorCode::InvalidInput);
    assert_eq!(message, "tracked source path must not be empty");
    assert_eq!(store.source_list(10, 0).sources.len(), 0);
    let (code, message) = refused(store.source_add_many(&segments_of(&[]), &vec![], NOW, &revision(3)));
    assert_eq!(code, ErrorCode::InvalidInput);
    assert_eq!(message, "at least one source is required");
}

#[test]
fn cited_sources_stay() {
    let mut store = new_store();
    let (id, _) = add(&mut store, "cited", Some("docs/a.md"), 3);
    accepted(put(&mut store, page("alpha", None, "x", &[id]), 4));
    let (code, message) = refused(store.source_remove(id, NOW, &revision(5)));
    assert_eq!(code, ErrorCode::SourceInUse);
    assert_eq!(message, format!("source {id} is cited by 1 Wiki page(s)"));
    assert_eq!(store.citing_pages(id), vec!["alpha"]);
    let refs = accepted(store.source_refs(id, 10, 0));
    assert_eq!(refs.pages.len(), 1);
    accepted(put(&mut store, page("alpha", None, "x", &[]), 5));
    let gone = accepted(store.source_remove(id, NOW, &revision(6)));
    assert_eq!(gone.removed_path_revisions, 1);
    assert_eq!(gone.untracked_paths, vec!["docs/a.md"]);
    assert_eq!(refused(store.source_show(id, 0, None)).0, ErrorCode::SourceNotFound);
    assert_eq!(store.source_path_head("docs/a.md"), None);
}

// --- ingest ----------------------------------------------------------------

#[test]
fn a_job_goes_its_steps() {
    let mut store = new_store();
    let (id, _) = add(&mut store, "raw", None, 3);
    let jobs = accepted(store.ingest_list(Some("pending"), 10, 0));
    assert_eq!(jobs.jobs.len(), 1);
    let packet = accepted(store.ingest_next(5, None, NOW, &revision(4)));
    let job = packet.job.unwrap();
    assert_eq!(job.source.id, id);
    assert_eq!(job.status, "analyzing");
    assert_eq!(job.attempts, 1);
    assert!(accepted(store.ingest_next(5, None, NOW, &revision(5))).job.is_none());
    let (code, message) = refused(store.ingest_claim(id, 5, None, NOW, &revision(5)));
    assert_eq!(code, ErrorCode::InvalidIngestState);
    assert_eq!(message, format!("source {id} is analyzing; expected pending"));
    let step = accepted(store.ingest_analyze(id, "said this", NOW, &revision(5)));
    assert_eq!(step.job.status, "generating");
    let (code, message) = refused(store.ingest_complete(id, None, NOW, &revision(6)));
    assert_eq!(code, ErrorCode::SourceSummaryMissing);
    assert!(message.starts_with(&format!("source {id} needs at least one cited page with kind `source`")));
    accepted(put(&mut store, page("summary", Some("source"), "s", &[id]), 6));
    let (code, _) = refused(store.ingest_complete(id, None, NOW, &revision(7)));
    assert_eq!(code, ErrorCode::IngestIntegrationRequired);
    let done = accepted(store.ingest_complete(id, Some("nothing shared"), NOW, &revision(7)));
    assert_eq!(done.job.status, "completed");
    assert_eq!(done.integration.unwrap().source_summary_pages, 1);
}

#[test]
fn a_failed_job_is_tried_again() {
    let mut store = new_store();
    let (id, _) = add(&mut store, "raw", None, 3);
    accepted(store.ingest_claim(id, 5, Some(2), NOW, &revision(4)));
    let failed = accepted(store.ingest_fail(id, "no luck", NOW, &revision(5)));
    assert_eq!(failed.job.status, "failed");
    assert_eq!(failed.job.last_error, Some(text("no luck")));
    let retried = accepted(store.ingest_retry(id, NOW, &revision(6)));
    assert_eq!(retried.job.status, "pending");
    let (code, message) = refused(store.ingest_retry(id, NOW, &revision(7)));
    assert_eq!(code, ErrorCode::InvalidIngestState);
    assert_eq!(message, format!("source {id} is pending; expected analyzing or generating or failed"));
    assert_eq!(refused(store.ingest_fail(99, "x", NOW, &revision(7))).0, ErrorCode::IngestJobNotFound);
    let (code, message) = refused(store.ingest_list(Some("odd"), 10, 0));
    assert_eq!(code, ErrorCode::InvalidIngestStatus);
    assert_eq!(message, "unsupported ingest status: odd");
}

#[test]
fn a_reason_for_no_pages_is_refused_where_there_are_pages() {
    let mut store = new_store();
    let (id, _) = add(&mut store, "raw", None, 3);
    accepted(store.ingest_claim(id, 5, None, NOW, &revision(4)));
    accepted(store.ingest_analyze(id, "said", NOW, &revision(5)));
    accepted(put(&mut store, page("summary", Some("source"), "s", &[id]), 6));
    accepted(put(&mut store, page("topic", Some("topic"), "t", &[id]), 7));
    let (code, _) = refused(store.ingest_complete(id, Some("none"), NOW, &revision(8)));
    assert_eq!(code, ErrorCode::InvalidInput);
    let done = accepted(store.ingest_complete(id, None, NOW, &revision(8)));
    assert_eq!(done.integration.unwrap().derived_pages, 1);
}

// --- weights and feedback --------------------------------------------------

#[test]
fn weights_are_set_listed_and_cleared() {
    let mut store = new_store();
    accepted(put(&mut store, page("alpha", None, "x", &[]), 3));
    accepted(store.retrieval_weight_set("page", "alpha", -1, " seen ", "agent-observed", NOW, &revision(4)));
    let set = accepted(store.retrieval_weight_set("page", "alpha", 2, "liked", "user-provided", NOW, &revision(5)));
    assert_eq!(set.adjustment.weight, 2);
    let list = accepted(store.retrieval_weight_list("page", "alpha"));
    assert_eq!(list.adjustments.len(), 2);
    assert_eq!(list.effective.unwrap().weight, 2);
    assert_eq!(list.adjustments[1].provenance, "agent-observed");
    let cleared = accepted(store.retrieval_weight_clear("page", "alpha", "user-provided", NOW, &revision(6)));
    assert!(cleared.removed);
    assert_eq!(accepted(store.retrieval_weight_list("page", "alpha")).effective.unwrap().weight, -1);
    let again = accepted(store.retrieval_weight_clear("page", "alpha", "user-provided", NOW, &revision(7)));
    assert!(!again.removed);
    let list = accepted(store.retrieval_weight_list("page", "alpha")).adjustments;
    assert_eq!((list.len(), list[0].provenance.as_str()), (1, "agent-observed"));
}

#[test]
fn weights_are_refused_for_each_part() {
    let mut store = new_store();
    accepted(put(&mut store, page("alpha", None, "x", &[]), 3));
    let mut set = |target: &str, id: &str, weight: i32, reason: &str, from: &str| {
        refused(store.retrieval_weight_set(target, id, weight, reason, from, NOW, &revision(4)))
    };
    assert_eq!(
        set("page", "alpha", 0, "r", "user-provided"),
        (ErrorCode::InvalidWeight, text("weight must be one of -2, -1, 1, or 2"))
    );
    assert_eq!(set("page", "alpha", 1, " ", "user-provided").0, ErrorCode::InvalidInput);
    assert_eq!(set("page", "alpha", 1, "r", "hypothesis").0, ErrorCode::InvalidProvenance);
    assert_eq!(set("page", "beta", 1, "r", "user-provided").0, ErrorCode::PageNotFound);
    assert_eq!(set("source", "x", 1, "r", "user-provided").1, "source identifier must be an integer: x");
    assert_eq!(set("source", "7", 1, "r", "user-provided").0, ErrorCode::SourceNotFound);
    assert_eq!(set("tag", "x", 1, "r", "user-provided").1, "retrieval target type must be page or source");
}

#[test]
fn feedback_is_kept_by_what_was_asked() {
    let mut store = new_store();
    accepted(put(&mut store, page("alpha", None, "x", &[]), 3));
    let words = vec![text("two"), text("words")];
    let set = accepted(store.retrieval_feedback_set(
        "page", "alpha", &words, 1, "good", "user-provided", NOW, &revision(4),
    ));
    assert_eq!(set.signal, "relevant");
    let found = store.load_effective_feedback(&set.query_fingerprint);
    assert_eq!(found.len(), 1);
    assert_eq!(found.value_at(0).value, 1);
    let (code, message) = refused(store.retrieval_feedback_set(
        "page", "alpha", &vec![], 1, "good", "user-provided", NOW, &revision(5),
    ));
    assert_eq!(code, ErrorCode::InvalidQuery);
    assert_eq!(message, "feedback query must contain searchable terms");
    let (code, _) = refused(store.retrieval_feedback_set(
        "page", "alpha", &words, 0, "good", "user-provided", NOW, &revision(5),
    ));
    assert_eq!(code, ErrorCode::InvalidFeedback);
    let cleared = accepted(store.retrieval_feedback_clear(
        "page", "alpha", &words, "user-provided", NOW, &revision(5),
    ));
    assert!(cleared.removed);
    assert_eq!(store.load_effective_feedback(&set.query_fingerprint).len(), 0);
}

// --- relations -------------------------------------------------------------

fn statement(from: &str, kind: &str, to: &str) -> Statement {
    Statement {
        from: text(from),
        relation_type: text(kind),
        to: text(to),
        provenance: text(" User-Provided "),
        reason: text("because"),
        confidence: Confidence { bits: 0.5f64.to_bits(), said: text("0.5") },
        source_ids: vec![],
    }
}

#[test]
fn what_was_stated_can_be_retracted() {
    let mut store = new_store();
    accepted(put(&mut store, page("alpha", None, "a", &[]), 3));
    accepted(put(&mut store, page("beta", None, "b", &[]), 4));
    let stated = accepted(store.graph_relation_set(&statement("alpha", " supports ", "page:beta"), NOW, &revision(5)));
    assert_eq!(stated.text_at("from"), Some(&text("page:alpha")));
    let list = accepted(store.graph_relation_list(Some("alpha"), None, Some("supports"), 10));
    assert_eq!(list.len(), 1);
    assert_eq!(list[0].relation_type, "SUPPORTS");
    assert_eq!(list[0].confidence, Some(0.5f64.to_bits()));
    let blank = store.graph_relation_retract("alpha", "supports", "beta", "  ", NOW, &revision(6));
    assert_eq!(refused(blank).0, ErrorCode::InvalidInput);
    accepted(store.graph_relation_retract("alpha", "\tsuPPorts ", "beta", "wrong", NOW, &revision(6)));
    assert_eq!(accepted(store.graph_relation_list(None, None, None, 10)).len(), 0);
    let (code, message) = refused(store.graph_relation_retract("alpha", "supports", "beta", "wrong", NOW, &revision(7)));
    assert_eq!(code, ErrorCode::SemanticRelationNotFound);
    assert_eq!(message, "explicit semantic relation was not found");
}

#[test]
fn statements_are_refused_for_each_part() {
    let mut store = new_store();
    accepted(put(&mut store, page("alpha", None, "a", &[]), 3));
    accepted(put(&mut store, page("beta", None, "b", &[]), 4));
    let mut set = |s: Statement| refused(store.graph_relation_set(&s, NOW, &revision(5)));
    assert_eq!(set(statement("alpha", "likes", "beta")).1, "semantic relation type is not supported");
    assert_eq!(
        set(statement("alpha", "causes", "alpha")),
        (ErrorCode::InvalidSemanticRelation, text("semantic relation endpoints must be different"))
    );
    assert_eq!(
        set(statement("alpha", "causes", "gam\"ma")),
        (ErrorCode::GraphNodeNotFound, text("graph node \"gam\\\"ma\" was not found"))
    );
    assert_eq!(set(statement(" ", "causes", "beta")).1, "graph identifier cannot be empty");
    let mut s = statement("alpha", "causes", "beta");
    s.confidence = Confidence { bits: 1.5f64.to_bits(), said: text("1.5") };
    assert_eq!(set(s).0, ErrorCode::InvalidConfidence);
    let mut s = statement("alpha", "causes", "beta");
    s.confidence = Confidence { bits: f64::NAN.to_bits(), said: text("null") };
    assert_eq!(set(s).0, ErrorCode::InvalidConfidence);
    let mut s = statement("alpha", "causes", "beta");
    s.provenance = text("source-grounded");
    assert_eq!(set(s).1, "source-grounded semantic relations require at least one --source");
    let mut s = statement("alpha", "causes", "beta");
    s.provenance = text("rumour");
    assert_eq!(set(s).0, ErrorCode::InvalidProvenance);
    let mut s = statement("alpha", "causes", "beta");
    s.reason = text("  ");
    assert_eq!(set(s).1, "semantic relation reason cannot be empty");
}

// --- spans -----------------------------------------------------------------

#[test]
fn spans_show_their_text_and_their_neighbours() {
    let mut store = new_store();
    accepted(put(&mut store, page("alpha", None, "one sentence", &[]), 3));
    let mut passages = vec![];
    let mut sentences = vec![];
    for i in 0..store.spans.len() {
        let id = store.spans.key_at(i).clone();
        match store.spans.value_at(i).span_type.as_str() {
            "passage" => passages.push(id),
            _ => sentences.push(id),
        }
    }
    assert_eq!((passages.len(), sentences.len()), (1, 1));
    let shown = accepted(store.span_get(&sentences[0], 1)).span;
    assert_eq!(shown.text, "one sentence");
    assert_eq!(shown.parent_identifier, passages[0]);
    assert_eq!(shown.content_fingerprint, hash_content("one sentence"));
    let around = accepted(store.span_expand(&passages[0], 1, 1, 10, 1));
    assert!(around.parent.is_none());
    assert_eq!(around.children.len(), 1);
    assert!(!around.children_truncated);
    assert_eq!(accepted(store.graph_owner_document(&passages[0])).second, "alpha");
    assert_eq!(refused(store.span_get("span:none", 1)).0, ErrorCode::SpanNotFound);
    // A new body switches the spans of the old one off.
    accepted(put(&mut store, page("alpha", None, "another sentence", &[]), 4));
    let (code, message) = refused(store.span_get(&passages[0], 1));
    assert_eq!(code, ErrorCode::StaleSpan);
    assert_eq!(message, "span locator belongs to an older document fingerprint");
}

#[test]
fn content_that_cannot_be_segmented_is_not_written() {
    let mut store = new_store();
    let mut table: Table<String, Segmented> = Table::new();
    table.put(hash_content("x"), Segmented { failure: Some(text("TooLarge")), passages: vec![] });
    let segments = Segments { version: 1, contents: table };
    let (code, message) = refused(store.page_put(&segments, page("a", None, "x", &[]), &None, NOW, &revision(3)));
    assert_eq!(code, ErrorCode::GraphIndexCapacityExceeded);
    assert_eq!(message, "document segmentation failed: TooLarge");
    assert_eq!(store.page_list(10, 0).pages.len(), 0);
}

// --- streams ---------------------------------------------------------------

fn document(content: &str) -> SourceAddInput {
    SourceAddInput {
        title: None,
        origin: text("notes/b.txt"),
        content: text(content),
        tracked_path: None,
    }
}

#[test]
fn a_stream_is_added_whole_or_not_at_all() {
    let mut store = new_store();
    let segments = segments_of(&["one", "two"]);
    let before = store.newest_operation();
    let nothing = vec![Ok(None), Ok(None)];
    let done = accepted(store.source_add_stream(&segments, &nothing, NOW, &revision(3)));
    assert_eq!((done.added.len(), done.sources.len(), done.documents.len()), (0, 0, 0));
    assert_eq!(store.newest_operation(), before);
    let broken = vec![
        Ok(Some(document("one"))),
        Err(AppError::new(ErrorCode::InvalidInput, "cannot be read")),
        Ok(Some(document("two"))),
    ];
    let (code, message) = refused(store.source_add_stream(&segments, &broken, NOW, &revision(3)));
    assert_eq!((code, message.as_str()), (ErrorCode::InvalidInput, "cannot be read"));
    assert_eq!(store.sources.len(), 0);
    let whole = vec![Ok(Some(document("one"))), Ok(None), Ok(Some(document("two")))];
    let done = accepted(store.source_add_stream(&segments, &whole, NOW, &revision(3)));
    assert_eq!(done.added.len(), 2);
    assert_eq!(store.sources.len(), 2);
    assert_eq!(done.sources[1].content_hash, hash_content("two"));
    assert_eq!(done.sources[1].id, done.added[1].id);
    assert_eq!(done.sources[0].bytes, 3);
    assert_eq!((done.scope.as_str(), done.database.as_str()), ("project", "/w/wiki.db"));
}

// --- round trips -----------------------------------------------------------

#[test]
fn a_page_is_read_back_as_it_was_asked_for() {
    let mut store = new_store();
    let (first, _) = add(&mut store, "one", None, 3);
    let (second, _) = add(&mut store, "two", None, 4);
    let mut input = page("alpha", Some("topic"), "See [[beta]] and [[gamma]].", &[second, first, second]);
    input.provenance = vec![text("hypothesis"), text("agent-observed")];
    let segments = segments_of(&["See [[beta]] and [[gamma]]."]);
    let again = input.duplicate();
    let done = accepted(store.page_put(&segments, input, &None, NOW, &revision(5)));
    assert!(done.created && done.written);
    let shown = accepted(store.page_show("alpha")).page;
    assert_eq!((shown.title.as_str(), shown.kind.as_deref()), ("ALPHA", Some("topic")));
    assert_eq!(shown.summary.as_deref(), Some("in short"));
    assert_eq!(shown.source_ids, vec![first, second]);
    assert_eq!(shown.links, vec!["beta", "gamma"]);
    assert_eq!(shown.provenance, vec!["source-grounded", "agent-observed", "hypothesis"]);
    let (operations, at) = (store.newest_operation(), accepted(store.identity()).revision);
    let done = accepted(store.page_put(&segments, again, &None, LATER, &revision(6)));
    assert!(!done.created && !done.written);
    assert_eq!(done.page.updated_at, NOW);
    assert_eq!((store.newest_operation(), accepted(store.identity()).revision), (operations, at));
    assert_eq!(refused(store.page_show("beta")).0, ErrorCode::PageNotFound);
}

#[test]
fn feedback_is_taken_away_once() {
    let mut store = new_store();
    accepted(put(&mut store, page("alpha", None, "x", &[]), 3));
    let (words, others) = (vec![text("two"), text("words")], vec![text("more")]);
    let mut give = |tokens: &Vec<String>, signal: i32, from: &str, n: u64| {
        accepted(store.retrieval_feedback_set("page", "alpha", tokens, signal, "r", from, NOW, &revision(n)))
            .query_fingerprint
    };
    let asked = give(&words, 1, "user-provided", 4);
    give(&words, -1, "agent-observed", 5);
    let other = give(&others, 1, "user-provided", 6);
    assert_eq!(store.load_effective_feedback(&asked).value_at(0).value, 1);
    let mut clear = |n: u64| {
        accepted(store.retrieval_feedback_clear("page", "alpha", &words, "user-provided", NOW, &revision(n)))
            .removed
    };
    assert!(clear(7));
    assert!(!clear(8));
    assert_eq!(store.load_effective_feedback(&asked).value_at(0).value, -1);
    assert_eq!(store.load_effective_feedback(&other).value_at(0).value, 1);
    let result =
        store.retrieval_feedback_clear("page", "alpha", &vec![], "user-provided", NOW, &revision(9));
    assert_eq!(refused(result).0, ErrorCode::InvalidQuery);
}

#[test]
fn a_relation_is_retracted_once() {
    let mut store = new_store();
    accepted(put(&mut store, page("alpha", None, "x", &[]), 3));
    accepted(put(&mut store, page("beta", None, "y", &[]), 4));
    accepted(store.graph_relation_set(&statement("alpha", "supports", "beta"), NOW, &revision(5)));
    let listed = |store: &Store| {
        accepted(store.graph_relation_list(Some("alpha"), Some("beta"), Some("supports"), 10)).len()
    };
    assert_eq!(listed(&store), 1);
    let result = store.graph_relation_retract("alpha", "supports", "beta", " ", NOW, &revision(6));
    assert_eq!(
        refused(result),
        (ErrorCode::InvalidInput, text("semantic relation retraction reason cannot be empty"))
    );
    accepted(store.graph_relation_retract("alpha", "supports", "beta", "wrong", NOW, &revision(6)));
    assert_eq!(listed(&store), 0);
    let result = store.graph_relation_retract("alpha", "supports", "beta", "wrong", NOW, &revision(7));
    assert_eq!(refused(result).0, ErrorCode::SemanticRelationNotFound);
}

#[test]
fn every_span_in_use_resolves() {
    let mut store = new_store();
    let content = "caf\u{e9} one. two.";
    let cut = content.find(" two").unwrap();
    let mut table: Table<String, Segmented> = Table::new();
    let sentences = vec![
        Sentence { ordinal: 0, start: 0, end: cut },
        Sentence { ordinal: 1, start: cut + 1, end: content.len() },
    ];
    let passage = Passage { ordinal: 0, start: 0, end: content.len(), sentences };
    table.put(hash_content(content), Segmented { failure: None, passages: vec![passage] });
    let segments = Segments { version: 1, contents: table };
    accepted(store.page_put(&segments, page("alpha", None, content, &[]), &None, NOW, &revision(3)));
    let mut texts = vec![];
    for i in 0..store.spans.len() {
        assert!(store.spans.value_at(i).active);
        texts.push(accepted(store.span_get(store.spans.key_at(i), 1)).span.text);
    }
    texts.sort();
    assert_eq!(texts, vec!["caf\u{e9} one.", "caf\u{e9} one. two.", "two."]);
}
