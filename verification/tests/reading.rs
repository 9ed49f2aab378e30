#![allow(dead_code)]
use lwc_store::artifacts::{written_files, ArtifactStep, Defaults, SyncPlan};
use lwc_store::digest::hash_content;
use lwc_store::error::{AppError, ErrorCode};
use lwc_store::indexing::{HeadedDocument, HeadedPassage};
use lwc_store::json::Json;
use lwc_store::lint::{LintIssue, LintSeverity};
use lwc_store::pages::{PagePutInput, PagePutResponse};
use lwc_store::relations::{add_neighbors, read_neighbors};
use lwc_store::search::{
    apply_mixed_fusion, graph_seeds, group_search_results, grouped_hit, match_query, retain_hits,
    sort_hits, SearchGranularity, SearchGrouping, SearchHit, SearchMode, SearchOptions,
    SpanChoice,
};
use lwc_store::search_text::{
    field_match, generic_marker, normalized_text, source_title_terms, FieldMatch,
};
use lwc_store::sources::SourceAddInput;
use lwc_store::spans::{Passage, Segmented, Segments, Sentence};
use lwc_store::store::Store;
use lwc_store::table::{Pair, Record, Table};
use lwc_store::versions::FreshStore;

const NOW: &str = "2024-05-01T00:00:00Z";
const LATER: &str = "2024-05-02T00:00:00Z";
const TOKENIZER: &str = "words-1";

fn revision(n: u64) -> String {
    format!("{n:064x}")
}

fn text(s: &str) -> String {
    s.to_string()
}

fn accepted<T>(r: Result<T, AppError>) -> T {
    match r {
        Ok(value) => value,
        Err(e) => panic!("{}: {}", e.code.as_str(), e.message),
    }
}

fn refused<T>(r: Result<T, AppError>) -> (ErrorCode, String) {
    match r {
        Ok(_) => panic!("a refusal is expected"),
        Err(e) => (e.code, e.message),
    }
}

/// One passage with one sentence for each content.
fn segments_of(contents: &[&str]) -> Segments {
    let mut table: Table<String, Segmented> = Table::new();
    for content in contents {
        let sentence = Sentence { ordinal: 0, start: 0, end: content.len() };
        let passage = Passage { ordinal: 0, start: 0, end: content.len(), sentences: vec![sentence] };
        table.put(hash_content(content), Segmented { failure: None, passages: vec![passage] });
    }
    Segments { version: 1, contents: table }
}

/// The same for everything that some stores hold.
fn segments_for(stores: &[&Store]) -> Segments {
    let mut contents: Vec<&str> = Vec::new();
    for store in stores {
        contents.extend((0..store.sources.len()).map(|i| store.sources.value_at(i).content.as_str()));
        contents.extend((0..store.pages.len()).map(|i| store.pages.value_at(i).body.as_str()));
    }
    segments_of(&contents)
}

/// The documents that the text index of a store has.
fn index_of(store: &Store) -> Table<Pair, bool> {
    let mut entries: Table<Pair, bool> = Table::new();
    for i in 0..store.sources.len() {
        entries.put(Pair::new("source", &store.sources.key_at(i).to_string()), true);
    }
    for i in 0..store.pages.len() {
        entries.put(Pair::new("page", store.pages.key_at(i)), true);
    }
    entries
}

fn new_store() -> Store {
    let fresh = FreshStore {
        store_id: "5".repeat(64),
        store_revision: revision(1),
        schema: text("# Schema"),
        purpose: text("# Purpose"),
    };
    accepted(Store::initialize("project", "/w/wiki.db", None, &fresh, TOKENIZER, NOW, &revision(2))).0
}

fn page(slug: &str, kind: Option<&str>, body: &str, source_ids: &[i64]) -> PagePutInput {
    PagePutInput {
        slug: text(slug),
        title: text(slug).to_uppercase(),
        kind: kind.map(text),
        summary: Some(text("in short")),
        body: text(body),
        source_ids: source_ids.to_vec(),
        provenance: vec![],
    }
}

fn put(store: &mut Store, input: PagePutInput, n: u64) -> Result<PagePutResponse, AppError> {
    let seen = store.page_version(&input.slug);
    let segments = segments_of(&[&input.body]);
    store.page_put(&segments, input, &seen, NOW, &revision(n))
}

fn add(store: &mut Store, content: &str, path: Option<&str>, n: u64) -> (i64, bool) {
    let input = SourceAddInput {
        title: Some(text("a source")),
        origin: text("notes/a.txt"),
        content: text(content),
        tracked_path: path.map(text),
    };
    let done = accepted(store.source_add(&segments_of(&[content]), input, NOW, &revision(n)));
    (done.added[0].id, done.added[0].created)
}

fn options(mode: SearchMode, granularity: SearchGranularity) -> SearchOptions {
    SearchOptions { mode, granularity, grouping: SearchGrouping::Single, kinds: vec![], explain: false }
}

fn hit(result_type: &str, identifier: &str, rank: i64) -> SearchHit {
    SearchHit {
        result_type: text(result_type),
        identifier: text(identifier),
        document: None,
        span: None,
        title: None,
        kind: None,
        summary: None,
        snippet: text("snip"),
        provenance: vec![],
        paired_source_ids: vec![],
        rank,
        explanation: Some(1),
    }
}

fn names(hits: &[SearchHit]) -> Vec<&str> {
    hits.iter().map(|hit| hit.identifier.as_str()).collect()
}

fn words(list: &[&str]) -> Vec<String> {
    list.iter().map(|word| word.to_string()).collect()
}

// --- search ----------------------------------------------------------------

#[test]
fn a_query_becomes_a_plan() {
    let store = new_store();
    assert_eq!(match_query(&words(&["a", "b\"c"])), "\"a\" OR \"b\"\"c\"");
    let plan = accepted(store.search_with_options(
        &words(&["a"]),
        10,
        &options(SearchMode::Auto, SearchGranularity::All),
    ));
    assert_eq!(plan.query, Some(text("\"a\"")));
    assert_eq!(plan.limit, 40);
    assert!(plan.documents);
    assert!(plan.spans == SpanChoice::Both);
    let plan = accepted(store.search_with_options(
        &words(&["a"]),
        200,
        &options(SearchMode::Page, SearchGranularity::Passage),
    ));
    assert_eq!(plan.limit, 1000);
    assert!(!plan.documents);
    let plan = accepted(store.search(&vec![], 5));
    assert_eq!(plan.query, None);
    let many: Vec<String> = (0..65).map(|i| i.to_string()).collect();
    let (code, message) = refused(store.search(&many, 5));
    assert_eq!(code, ErrorCode::InvalidQuery);
    assert_eq!(message, "query contains more than 64 searchable terms");
}

#[test]
fn summed_up_sources_give_way() {
    let mut summary = hit("page", "summary", 1);
    summary.kind = Some(text("Source"));
    summary.paired_source_ids = vec![7];
    let hits = vec![hit("source", "7", 0), summary, hit("source", "8", 2)];
    let auto = options(SearchMode::Auto, SearchGranularity::Document);
    assert_eq!(names(&retain_hits(&hits, &auto)), vec!["summary", "8"]);
    let all = options(SearchMode::All, SearchGranularity::Document);
    assert_eq!(retain_hits(&hits, &all).len(), 3);
    let mut kinds = options(SearchMode::Page, SearchGranularity::Document);
    kinds.kinds = words(&[" SOURCE "]);
    assert_eq!(names(&retain_hits(&hits, &kinds)), vec!["summary"]);
    kinds.kinds = words(&["topic"]);
    assert_eq!(retain_hits(&hits, &kinds).len(), 0);
}

#[test]
fn hits_come_in_order() {
    let hits = vec![hit("source", "1", 0), hit("page", "b", 1), hit("page", "a", 1), hit("page", "c", -1)];
    assert_eq!(names(&sort_hits(&hits, SearchMode::Page)), vec!["c", "1", "a", "b"]);
    assert_eq!(names(&sort_hits(&hits, SearchMode::Auto)), vec!["c", "a", "b", "1"]);
    assert_eq!(graph_seeds(&hits), vec!["b", "a", "c"]);
}

#[test]
fn results_are_cut_and_shown() {
    let mut store = new_store();
    let (id, _) = add(&mut store, "raw", None, 3);
    accepted(put(&mut store, page("alpha", None, "x", &[id]), 4));
    let hits = vec![hit("page", "alpha", 1), hit("page", "beta", 2), hit("page", "gamma", 3)];
    let shown = store.finish_search(&hits, 2, &options(SearchMode::All, SearchGranularity::Document));
    assert_eq!(names(&shown), vec!["alpha", "beta"]);
    assert_eq!(shown[0].provenance, vec!["source-grounded"]);
    assert_eq!(shown[0].explanation, None);
}

#[test]
fn hits_of_one_document_are_grouped() {
    let mut span = hit("passage", "span:1", 0);
    span.document = Some(lwc_store::search::DocumentRef { document_type: text("page"), identifier: text("a") });
    span.snippet = text("best");
    let hits = vec![hit("page", "a", 5), span, hit("page", "b", 1)];
    let groups = group_search_results(&hits);
    assert_eq!(groups.len(), 2);
    assert_eq!(groups[0].document.second, "a");
    assert_eq!(groups[0].selected.len(), 2);
    let one = grouped_hit(&groups[0], -3);
    assert_eq!(one.identifier, "a");
    assert_eq!(one.snippet, "best");
    assert_eq!(one.rank, -3);
    let places = apply_mixed_fusion(&hits);
    assert_eq!(places.len(), 3);
}

#[test]
fn fields_fit_in_whole_or_in_part() {
    assert_eq!(normalized_text("  Hello,  WORLD-2 "), "hello world 2");
    let terms = words(&["hello", "world"]);
    assert!(matches!(field_match("Hello World", "hello world", &terms, &terms), FieldMatch::Whole));
    assert!(matches!(
        field_match("say hello world now", "hello world", &terms, &words(&["say", "hello", "world", "now"])),
        FieldMatch::Phrase
    ));
    assert!(matches!(
        field_match("hello there", "hello world", &terms, &words(&["hello", "there"])),
        FieldMatch::Terms { matched: 1, of: 2 }
    ));
    assert!(matches!(field_match("", "hello", &terms, &vec![]), FieldMatch::Nothing));
    assert!(!generic_marker("Topic", "topic", "query", false));
    assert!(source_title_terms("Title", "notes/a.txt", "a.txt").contains("Title"));
}

// --- the index -------------------------------------------------------------

#[test]
fn documents_are_indexed_with_their_parts() {
    let mut store = new_store();
    let (id, _) = add(&mut store, "raw", None, 3);
    accepted(put(&mut store, page("alpha", None, "body text", &[]), 4));
    let entry = store.index_page("alpha").unwrap();
    assert_eq!((entry.doc_type.as_str(), entry.identifier.as_str()), ("page", "alpha"));
    assert_eq!(entry.body, "body text");
    assert_eq!(entry.summary, "in short");
    assert!(store.index_page("beta").is_none());
    let entry = store.index_source(id, "a.txt", "notes").unwrap();
    assert_eq!(entry.doc_type, "source");
    assert_eq!(entry.body, "raw");
    assert!(store.index_source(id + 1, "a.txt", "notes").is_none());
}

#[test]
fn spans_are_indexed_under_their_headings() {
    let mut store = new_store();
    accepted(put(&mut store, page("alpha", None, "body text", &[]), 4));
    let mut headings: Table<Pair, HeadedDocument> = Table::new();
    headings.put(
        Pair::new("page", "alpha"),
        HeadedDocument {
            failure: None,
            passages: vec![HeadedPassage {
                start: 0,
                end: 9,
                headings: words(&["Top", "Below"]),
                sentences: vec![Sentence { ordinal: 0, start: 0, end: 9 }],
            }],
        },
    );
    let entries = accepted(store.rebuild_span_index(&headings));
    assert_eq!(entries.len(), 2);
    assert!(entries.iter().all(|entry| entry.title == "ALPHA"));
    assert!(entries.iter().any(|entry| entry.headings == "Top Below"));
}

// --- lint ------------------------------------------------------------------

#[test]
fn the_structure_of_pages_is_judged() {
    let mut store = new_store();
    accepted(put(&mut store, page("alpha", None, "# Other\n\n# Alpha\n\n### Deep\n", &[]), 3));
    let issues = store.markdown_structure_issues();
    let codes: Vec<&str> = issues.iter().map(|issue| issue.code.as_str()).collect();
    assert_eq!(codes, vec!["body_h1_title_mismatch", "duplicate_body_h1", "heading_level_jump"]);
    assert_eq!(issues[1].message, "body contains 2 H1 headings");
    assert_eq!(issues[2].message, "heading level jumps from H1 to H3");
    assert_eq!(issues[2].target, Some(text("deep")));
}

#[test]
fn long_prose_without_sections_is_noted() {
    let mut store = new_store();
    let body = format!("# Alpha\n\n{}\n", "word ".repeat(1200));
    accepted(put(&mut store, page("alpha", None, &body, &[]), 3));
    let issues = store.markdown_structure_issues();
    assert_eq!(issues.len(), 1);
    assert_eq!(issues[0].code, "long_unsectioned_region");
}

#[test]
fn issues_are_sorted_and_counted() {
    let mut store = new_store();
    accepted(put(&mut store, page("alpha", None, "# Other\n", &[]), 3));
    let issue = |severity, code: &str, slug: &str| LintIssue {
        severity,
        code: text(code),
        page: Some(text(slug)),
        target: None,
        message: text("m"),
    };
    let found = vec![
        issue(LintSeverity::Info, "orphan", "alpha"),
        issue(LintSeverity::Error, "broken_link", "zeta"),
        issue(LintSeverity::Error, "broken_link", "beta"),
    ];
    let report = store.lint(&found, 2, 0);
    assert_eq!(report.total, 4);
    assert_eq!(report.issues.len(), 2);
    assert!(report.has_more);
    assert_eq!(report.issues[0].page, Some(text("beta")));
    assert_eq!(report.issues[1].page, Some(text("zeta")));
    assert_eq!(report.counts.get(&text("broken_link")).unwrap().value, 2);
    assert_eq!(report.blocking_total + report.advisory_total, 4);
    let rest = store.lint(&found, 2, 2);
    assert!(!rest.has_more);
    assert_eq!(rest.issues[1].code, "orphan");
}

// --- files -----------------------------------------------------------------

fn defaults() -> Defaults {
    Defaults { schema: text("default schema"), purpose: text("default purpose") }
}

#[test]
fn everything_is_written_out() {
    let mut store = new_store();
    let (id, _) = add(&mut store, "raw", None, 3);
    accepted(put(&mut store, page("alpha", None, "x", &[id]), 4));
    let plan = store.materialize(&defaults());
    assert!(plan.include_raw_sources);
    assert_eq!(plan.snapshot.schema, "# Schema");
    assert_eq!(plan.snapshot.pages.len(), 1);
    assert_eq!(plan.snapshot.pages[0].citations[0].id, id);
    assert_eq!(plan.snapshot.sources[0].content, "raw");
    assert_eq!(plan.cursor, 3);
    let wiki = store.materialize_wiki(&defaults());
    assert!(!wiki.include_raw_sources);
}

#[test]
fn an_increment_reaches_the_end_of_the_log() {
    let mut store = new_store();
    let cursor = store.materialize(&defaults()).cursor;
    assert!(store.materialize_incremental(cursor, true, &defaults()).is_none());
    let (_, _) = add(&mut store, "raw", None, 3);
    accepted(put(&mut store, page("alpha", None, "x", &[]), 4));
    accepted(store.schema_set("new schema", NOW, &revision(5)));
    let plan = store.materialize_incremental(cursor, true, &defaults()).unwrap();
    assert_eq!(plan.steps.len(), 3);
    assert!(matches!(&plan.steps[0], ArtifactStep::Source(source) if source.content == "raw"));
    assert!(matches!(&plan.steps[1], ArtifactStep::Page(page) if page.slug == "alpha"));
    assert!(matches!(&plan.steps[2], ArtifactStep::Text { path, content } if path == "schema.md" && content == "new schema"));
    assert_eq!(plan.cursor, store.newest_operation());
    assert!(store.materialize_incremental(plan.cursor, true, &defaults()).is_none());
    let bare = store.materialize_incremental(cursor, false, &defaults()).unwrap();
    assert_eq!(bare.steps.len(), 2);
    assert_eq!(written_files(&words(&["b", "a", "b"])).len(), 2);
}

#[test]
fn a_publication_selects_its_files() {
    let mut store = new_store();
    accepted(put(&mut store, page("alpha", None, "x", &[]), 3));
    let full = Json::object1("derived_selection", Json::text("full"));
    assert!(matches!(accepted(store.materialize_sync_selection(&full, &defaults())), SyncPlan::Full));
    let mut exact = Json::object1("derived_selection", Json::text("exact"));
    assert_eq!(refused(store.materialize_sync_selection(&exact, &defaults())).0, ErrorCode::SyncReceiptInvalid);
    exact.set("affected_graph_documents", Json::Array(vec![]));
    exact.set(
        "affected",
        Json::object2(
            "meta",
            Json::Array(vec![Json::text("schema")]),
            "page",
            Json::Array(vec![Json::text("alpha"), Json::text("gone")]),
        ),
    );
    let wanted = |store: &Store| match accepted(store.materialize_sync_selection(&exact, &defaults())) {
        SyncPlan::Exact(steps) => steps,
        SyncPlan::Full => panic!("an exact plan is expected"),
    };
    let steps = wanted(&store);
    assert_eq!(steps.len(), 3);
    assert!(matches!(&steps[0], ArtifactStep::Page(page) if page.slug == "alpha" && page.body == "x"));
    assert!(matches!(&steps[1], ArtifactStep::RemovePage(slug) if slug == "gone"));
    assert!(matches!(&steps[2], ArtifactStep::Text { path, .. } if path == "schema.md"));
    // The log may have grown since: the same publication is written out once more.
    let segments = segments_for(&[&store]);
    accepted(store.reindex(&segments, &Table::new(), NOW, &revision(4)));
    let again = wanted(&store);
    assert_eq!(again.len(), 3);
    assert!(matches!(&again[0], ArtifactStep::Page(page) if page.slug == "alpha" && page.body == "x"));
}

#[test]
fn the_context_shows_pages_and_recent_work() {
    let mut store = new_store();
    accepted(put(&mut store, page("alpha", None, "x", &[]), 3));
    let context = store.context_store(1);
    assert_eq!(context.pages.len(), 1);
    assert_eq!(context.recent_operations.len(), 1);
    assert_eq!(context.schema, Some(text("# Schema")));
}

#[test]
fn questions_to_the_graph_carry_their_bounds() {
    let store = new_store();
    let request = store.graph_explore("alpha", 2, 10, "out", &words(&["SUPPORTS"]));
    assert_eq!(request.database, "/w/wiki.db");
    assert!(matches!(
        request.question,
        lwc_store::relations::GraphQuestion::Explore { ref identifier, depth: 2, limit: 10, .. } if identifier == "alpha"
    ));
}

#[test]
fn the_index_covers_every_document_once() {
    let mut store = new_store();
    let (first, _) = add(&mut store, "raw", None, 3);
    let (second, _) = add(&mut store, "other", None, 4);
    accepted(put(&mut store, page("beta", None, "b", &[]), 5));
    accepted(put(&mut store, page("alpha", None, "a", &[]), 6));
    let mut places: Table<i64, Pair> = Table::new();
    places.put(first, Pair::new("a.txt", "notes"));
    let entries = store.index_entries(&places);
    let named: Vec<(&str, &str)> =
        entries.iter().map(|entry| (entry.doc_type.as_str(), entry.identifier.as_str())).collect();
    let ids = [first.to_string(), second.to_string()];
    assert_eq!(
        named,
        vec![("source", ids[0].as_str()), ("source", ids[1].as_str()), ("page", "alpha"), ("page", "beta")]
    );
    assert_eq!((entries[0].path.as_str(), entries[0].body.as_str()), ("notes", "raw"));
    assert_eq!(entries[1].path, "");
    let segments = segments_for(&[&store]);
    let done = accepted(store.reindex(&segments, &places, NOW, &revision(7)));
    assert_eq!((done.sources, done.pages, done.entries.len()), (2, 2, 4));
    assert_eq!(done.entries[3].body, "b");
}

#[test]
fn neighbours_are_the_nodes_one_step_away() {
    let node = |name: &str, depth: i64| Json::object2("depth", Json::Int(depth), "id", Json::text(name));
    let mut answer = Json::empty_object();
    answer.set("nodes", Json::Array(vec![node("seed", 0), node("a", 1), node("far", 2), node("b", 1)]));
    let near = |limit: usize| {
        let read = accepted(read_neighbors(Ok(answer.duplicate()), limit));
        assert_eq!(read.int_at("limit"), Some(limit as i64));
        assert_eq!(read.array_at("nodes").unwrap().len(), 4);
        let found = read.array_at("neighbors").unwrap();
        found.iter().map(|one| one.text_at("id").unwrap().clone()).collect::<Vec<String>>()
    };
    assert_eq!(near(5), vec!["a", "b"]);
    assert_eq!(near(1), vec!["a"]);
    assert!(near(0).is_empty());
    let refusal = AppError::new(ErrorCode::DatabaseError, "no graph");
    assert_eq!(refused(read_neighbors(Err(refusal), 3)), (ErrorCode::DatabaseError, text("no graph")));
}

#[test]
fn an_empty_answer_has_no_neighbours() {
    let mut answer = Json::Null;
    add_neighbors(&mut answer, 4);
    assert!(matches!(&answer, Json::Object(entries) if entries.len() == 2));
    assert_eq!(answer.int_at("limit"), Some(4));
    assert_eq!(answer.array_at("neighbors").map(|found| found.len()), Some(0));
    let read = accepted(read_neighbors(Ok(Json::Null), 2));
    assert_eq!(read.int_at("limit"), Some(2));
}

#[test]
fn indexing_anew_cuts_every_document() {
    let mut store = new_store();
    let (source, _) = add(&mut store, "raw", None, 3);
    accepted(put(&mut store, page("alpha", None, "a", &[]), 4));
    // A span of an older cut that the segments no longer have.
    let mut old = store.spans.value_at(0).duplicate();
    old.active = true;
    store.spans.put(text("span:old"), old);
    let mut segments = segments_for(&[&store]);
    segments.version = 2;
    let broken = segments_of(&["raw"]);
    let before = store.spans.len();
    let operations = store.operations.len();
    assert!(store.reindex(&broken, &Table::new(), NOW, &revision(5)).is_err());
    assert_eq!((store.spans.len(), store.operations.len()), (before, operations));
    assert!(store.spans.get(&text("span:old")).unwrap().active);
    let done = accepted(store.reindex(&segments, &Table::new(), NOW, &revision(6)));
    assert_eq!((done.sources, done.pages), (1, 1));
    assert!(!store.spans.get(&text("span:old")).unwrap().active);
    let active: Vec<String> = (0..store.spans.len())
        .filter(|i| store.spans.value_at(*i).active)
        .map(|i| store.spans.key_at(i).clone())
        .collect();
    assert_eq!(active.len(), 4);
    let mut texts: Vec<String> =
        active.iter().map(|name| accepted(store.span_get(name, 2)).span.text).collect();
    texts.sort();
    assert_eq!(texts, vec!["a", "a", "raw", "raw"]);
    assert!(store.sources.has(&source));
}

#[test]
fn a_hit_in_a_span_can_be_looked_up() {
    let mut store = new_store();
    let (source, _) = add(&mut store, "one source", None, 3);
    accepted(put(&mut store, page("alpha", Some("topic"), "a body", &[source]), 4));
    let ids: Vec<String> = (0..store.spans.len()).map(|i| store.spans.key_at(i).clone()).collect();
    assert_eq!(ids.len(), 4);
    let mut hits = Vec::new();
    for (rank, id) in ids.iter().enumerate() {
        let mut found = accepted(store.span_hit(id)).unwrap();
        found.hit.rank = rank as i64;
        let document = found.hit.document.as_ref().unwrap();
        if document.document_type == "page" {
            assert_eq!((found.path.as_str(), found.hit.snippet.as_str()), ("alpha", "a body"));
            assert_eq!((found.hit.title.as_deref(), found.hit.kind.as_deref()), (Some("ALPHA"), Some("topic")));
        } else {
            assert_eq!((found.path.as_str(), found.hit.snippet.as_str()), ("notes/a.txt", "one source"));
            assert_eq!((found.hit.title.as_deref(), found.hit.kind.as_deref()), (Some("a source"), None));
        }
        hits.push(found.hit);
    }
    let shown = store.finish_search(&hits, 3, &options(SearchMode::All, SearchGranularity::Passage));
    assert_eq!(shown.len(), 3);
    for result in &shown {
        let span = accepted(store.span_get(&result.identifier, 1)).span;
        assert_eq!(span.text, result.snippet);
        let place = result.span.as_ref().unwrap();
        assert_eq!((span.byte_start, span.byte_end), (place.byte_start, place.byte_end));
    }
    assert!(accepted(store.span_hit(&text("span:none"))).is_none());
    // What is no longer in use is no hit.
    accepted(put(&mut store, page("alpha", None, "another", &[]), 5));
    let gone = ids.iter().filter(|id| accepted(store.span_hit(id)).is_none()).count();
    assert_eq!(gone, 2);
    // A place that the text does not have shows nothing; a document that is gone is a fault.
    let mut odd = store.spans.value_at(0).duplicate();
    odd.active = true;
    odd.byte_start = -1;
    store.spans.put(text("span:odd"), odd.duplicate());
    assert_eq!(accepted(store.span_hit(&text("span:odd"))).unwrap().hit.snippet, "");
    odd.document_identifier = text("77");
    store.spans.put(text("span:odd"), odd);
    assert_eq!(refused(store.span_hit(&text("span:odd"))).0, ErrorCode::DatabaseError);
}
