#![allow(dead_code)]
use lwc_store::digest::hash_content;
use lwc_store::error::{AppError, ErrorCode};
use lwc_store::hooks::{
    hook_access, hook_database_uri, hook_wal_index_header_is_valid,
    strip_windows_hook_verbatim_drive, HookAccess, HookFiles,
};
use lwc_store::maintenance::{
    load_graph_mutation_summary, preflight_graph_runtime, schedule_graph_documents,
    try_checkpoint_wal, GraphSetting, GraphWork, WalCheckpoint,
};
use lwc_store::pages::{PagePutInput, PagePutResponse};
use lwc_store::sources::SourceAddInput;
use lwc_store::spans::{Passage, Segmented, Segments, Sentence};
use lwc_store::store::Store;
use lwc_store::table::{Pair, Table};
use lwc_store::versions::{
    check_rung, migrated_version, prepare_store, prepare_store_read_only, read_schema_version,
    validate_store, FoundStore, FreshStore, LadderStep, Migration, ReadOpening, SchemaShape,
};

const NOW: &str = "2024-05-01T00:00:00Z";
const LATER: &str = "2024-05-02T00:00:00Z";
const TOKENIZER: &str = "words-1";

fn revision(n: u64) -> String {
    format!("{n:064x}")
}

fn text(s: &str) -> String {
    s.to_string()
}

fn accepted<T>(r: Result<T, AppError>) -> T {
    match r {
        Ok(value) => value,
        Err(e) => panic!("{}: {}", e.code.as_str(), e.message),
    }
}

fn refused<T>(r: Result<T, AppError>) -> (ErrorCode, String) {
    match r {
        Ok(_) => panic!("a refusal is expected"),
        Err(e) => (e.code, e.message),
    }
}

/// One passage with one sentence for each content.
fn segments_of(contents: &[&str]) -> Segments {
    let mut table: Table<String, Segmented> = Table::new();
    for content in contents {
        let sentence = Sentence { ordinal: 0, start: 0, end: content.len() };
        let passage = Passage { ordinal: 0, start: 0, end: content.len(), sentences: vec![sentence] };
        table.put(hash_content(content), Segmented { failure: None, passages: vec![passage] });
    }
    Segments { version: 1, contents: table }
}

/// The same for everything that some stores hold.
fn segments_for(stores: &[&Store]) -> Segments {
    let mut contents: Vec<&str> = Vec::new();
    for store in stores {
        contents.extend((0..store.sources.len()).map(|i| store.sources.value_at(i).content.as_str()));
        contents.extend((0..store.pages.len()).map(|i| store.pages.value_at(i).body.as_str()));
    }
    segments_of(&contents)
}

/// The documents that the text index of a store has.
fn index_of(store: &Store) -> Table<Pair, bool> {
    let mut entries: Table<Pair, bool> = Table::new();
    for i in 0..store.sources.len() {
        entries.put(Pair::new("source", &store.sources.key_at(i).to_string()), true);
    }
    for i in 0..store.pages.len() {
        entries.put(Pair::new("page", store.pages.key_at(i)), true);
    }
    entries
}

fn new_store() -> Store {
    let fresh = FreshStore {
        store_id: "5".repeat(64),
        store_revision: revision(1),
        schema: text("# Schema"),
        purpose: text("# Purpose"),
    };
    accepted(Store::initialize("project", "/w/wiki.db", None, &fresh, TOKENIZER, NOW, &revision(2))).0
}

fn page(slug: &str, kind: Option<&str>, body: &str, source_ids: &[i64]) -> PagePutInput {
    PagePutInput {
        slug: text(slug),
        title: text(slug).to_uppercase(),
        kind: kind.map(text),
        summary: Some(text("in short")),
        body: text(body),
        source_ids: source_ids.to_vec(),
        provenance: vec![],
    }
}

fn put(store: &mut Store, input: PagePutInput, n: u64) -> Result<PagePutResponse, AppError> {
    let seen = store.page_version(&input.slug);
    let segments = segments_of(&[&input.body]);
    store.page_put(&segments, input, &seen, NOW, &revision(n))
}

fn add(store: &mut Store, content: &str, path: Option<&str>, n: u64) -> (i64, bool) {
    let input = SourceAddInput {
        title: Some(text("a source")),
        origin: text("notes/a.txt"),
        content: text(content),
        tracked_path: path.map(text),
    };
    let done = accepted(store.source_add(&segments_of(&[content]), input, NOW, &revision(n)));
    (done.added[0].id, done.added[0].created)
}

// --- the ladder ------------------------------------------------------------

#[test]
fn the_ladder_reaches_the_top() {
    for start in 1..=19 {
        let mut version: i32 = start;
        let mut climbed = None;
        let mut rungs = 0;
        loop {
            match accepted(prepare_store(version, false, climbed)) {
                LadderStep::Migrate(step) => {
                    assert!(accepted(check_rung(step, version)));
                    version = migrated_version(step) as i32;
                    climbed = Some(step);
                    rungs += 1;
                }
                LadderStep::Validate => break,
                LadderStep::Bootstrap => panic!("nothing is laid out here"),
            }
            assert!(rungs <= 15);
        }
        assert_eq!(version, 19);
    }
}

#[test]
fn versions_outside_the_ladder_are_refused() {
    assert!(matches!(accepted(prepare_store(0, true, None)), LadderStep::Bootstrap));
    let (code, message) = refused(prepare_store(0, false, None));
    assert_eq!(code, ErrorCode::UnsupportedStoreVersion);
    assert_eq!(message, "wiki database has no recognized schema; run `lwc init` in a new directory");
    let (code, message) = refused(prepare_store(20, false, None));
    assert_eq!(code, ErrorCode::UnsupportedStoreVersion);
    assert_eq!(message, "wiki database version 20 is not supported by this lwc build (expected 19)");
    assert_eq!(refused(prepare_store(-1, true, None)).0, ErrorCode::UnsupportedStoreVersion);
    // The ladder is only climbed upwards.
    assert_eq!(
        refused(prepare_store(5, false, Some(Migration::Tags))).0,
        ErrorCode::UnsupportedStoreVersion
    );
    assert!(check_rung(Migration::Tags, 3).is_err());
}

#[test]
fn the_marker_of_the_version_is_read() {
    assert_eq!(accepted(read_schema_version(None)), 0);
    assert_eq!(accepted(read_schema_version(Some(" 19\n"))), 19);
    let (code, message) = refused(read_schema_version(Some("19\"x")));
    assert_eq!(code, ErrorCode::UnsupportedStoreVersion);
    assert_eq!(message, "schema version marker is not an integer: \"19\\\"x\"");
    assert!(read_schema_version(Some("99999999999")).is_err());
}

// --- opening ---------------------------------------------------------------

fn empty_shape() -> SchemaShape {
    SchemaShape { tables: Table::new(), columns: Table::new() }
}

/// A shape with whatever a check asks for, found by asking it.
fn whole_shape(store: &Store) -> SchemaShape {
    let mut shape = empty_shape();
    for _ in 0..400 {
        let Err(e) = validate_store(&shape, &store.meta, TOKENIZER) else {
            return shape;
        };
        let fault = e.message.rsplit(": ").next().unwrap().to_string();
        if e.message.contains("no such table") {
            shape.tables.put(fault, true);
        } else {
            assert!(e.message.contains("no such column"), "{}", e.message);
            let last = (0..shape.tables.len()).map(|i| shape.tables.key_at(i).clone()).collect::<Vec<_>>();
            for table in last {
                shape.columns.put(Pair::new(&table, &fault), true);
            }
        }
    }
    panic!("the shape is never whole")
}

fn found(store: &Store, version: i32) -> Option<FoundStore> {
    Some(FoundStore { version, shape: whole_shape(store), store: store.snapshot_to() })
}

#[test]
fn a_new_store_opens_again() {
    let store = new_store();
    let opened = accepted(Store::open("user", "/other.db", found(&store, 19), TOKENIZER));
    assert_eq!(opened.scope, "user");
    assert_eq!(opened.database, "/other.db");
    assert_eq!(accepted(opened.identity()).revision, revision(2));
    let (_, progress) =
        accepted(Store::open_with_migration_progress("user", "/o.db", found(&store, 19), TOKENIZER));
    assert_eq!((progress.done, progress.total), (1, 1));
    assert_eq!(progress.phase, "projecting");
    assert!(matches!(
        accepted(Store::open_for_read("user", "/o.db", found(&store, 19), TOKENIZER)),
        ReadOpening::Ready(_)
    ));
    assert!(Store::open_read_only("user", "/o.db", found(&store, 19), TOKENIZER).is_ok());
}

#[test]
fn a_store_is_laid_out_once() {
    let fresh = FreshStore {
        store_id: "7".repeat(64),
        store_revision: revision(8),
        schema: text("s"),
        purpose: text("p"),
    };
    let store = new_store();
    let (kept, created) =
        accepted(Store::initialize("user", "/o.db", found(&store, 19), &fresh, TOKENIZER, NOW, &revision(9)));
    assert!(!created);
    assert_eq!(accepted(kept.identity()).store_id, "5".repeat(64));
}

#[test]
fn what_cannot_be_opened_says_why() {
    let store = new_store();
    let (code, message) = refused(Store::open("user", "/o.db", None, TOKENIZER));
    assert_eq!(code, ErrorCode::StoreNotFound);
    assert_eq!(message, "wiki database not found: /o.db");
    assert_eq!(refused(Store::open("user", "/o.db", found(&store, 0), TOKENIZER)).0, ErrorCode::UnsupportedStoreVersion);
    let bare = FoundStore { version: 19, shape: empty_shape(), store: store.snapshot_to() };
    let (code, message) = refused(Store::open("user", "/o.db", Some(bare), TOKENIZER));
    assert_eq!(code, ErrorCode::CorruptStore);
    assert!(message.starts_with("wiki database schema is incomplete: no such table: "), "{message}");
    let shape = whole_shape(&store);
    let mut meta = store.meta.copy();
    let (code, message) = refused(validate_store(&shape, &meta, "words-2"));
    assert_eq!(code, ErrorCode::IncompatibleSearchIndex);
    assert_eq!(message, "wiki search index uses tokenizer \"words-1\"; expected words-2");
    meta.put(text("store_id"), text("x"));
    assert_eq!(refused(validate_store(&shape, &meta, TOKENIZER)).1, "wiki store_id is missing or invalid");
    meta.put(text("format_version"), text("18"));
    assert_eq!(
        refused(validate_store(&shape, &meta, TOKENIZER)).1,
        "wiki format metadata is \"18\"; expected 19"
    );
    assert_eq!(
        refused(prepare_store_read_only(19, &shape, &meta, TOKENIZER)).1,
        "wiki format metadata does not match the store version"
    );
    assert!(prepare_store_read_only(19, &shape, &store.meta, TOKENIZER).is_ok());
}

// --- hooks -----------------------------------------------------------------

fn word(bytes: &mut [u8], at: usize, n: u32) {
    bytes[at..at + 4].copy_from_slice(&n.to_le_bytes());
}

/// The header of an index over two frames of 4096 bytes.
fn index_header() -> Vec<u8> {
    let mut header = vec![0u8; 48];
    word(&mut header, 0, 3007000);
    header[12] = 1;
    header[14..16].copy_from_slice(&4096u16.to_le_bytes());
    word(&mut header, 16, 2);
    header[32..40].copy_from_slice(b"saltsalt");
    let (mut first, mut second) = (0u32, 0u32);
    for i in 0..5 {
        let at = |k: usize| u32::from_le_bytes([header[k], header[k + 1], header[k + 2], header[k + 3]]);
        let (a, b) = (at(8 * i), at(8 * i + 4));
        first = first.wrapping_add(a).wrapping_add(second);
        second = second.wrapping_add(b).wrapping_add(first);
    }
    word(&mut header, 40, first);
    word(&mut header, 44, second);
    header
}

fn files() -> HookFiles {
    let mut wal_header = vec![0u8; 32];
    wal_header[0..4].copy_from_slice(&0x377f0682u32.to_be_bytes());
    wal_header[4..8].copy_from_slice(&3007000u32.to_be_bytes());
    wal_header[8..12].copy_from_slice(&4096u32.to_be_bytes());
    wal_header[16..24].copy_from_slice(b"saltsalt");
    let mut shm_header = index_header();
    shm_header.extend(index_header());
    HookFiles {
        database: Some(8192),
        wal: Some(32 + 2 * (4096 + 24)),
        shm: Some(32768),
        irregular: false,
        wal_header,
        shm_header,
        little: true,
    }
}

#[test]
fn a_whole_log_is_read_through_its_index() {
    assert!(hook_wal_index_header_is_valid(&index_header(), true));
    let mut broken = index_header();
    broken[20] ^= 1;
    assert!(!hook_wal_index_header_is_valid(&broken, true));
    assert!(matches!(accepted(hook_access(&files())), HookAccess::SharedIndex));
    let mut short = files();
    short.wal = Some(32 + 4096 + 24);
    assert_eq!(refused(hook_access(&short)).0, ErrorCode::StoreHookUnavailable);
    let mut salted = files();
    salted.wal_header[16] = b'x';
    assert_eq!(refused(hook_access(&salted)).0, ErrorCode::StoreHookUnavailable);
}

#[test]
fn without_a_log_the_database_is_read_as_it_is() {
    let mut plain = files();
    plain.wal = None;
    assert!(matches!(accepted(hook_access(&plain)), HookAccess::Immutable));
    plain.wal = Some(0);
    assert!(matches!(accepted(hook_access(&plain)), HookAccess::Immutable));
    plain.irregular = true;
    assert_eq!(refused(hook_access(&plain)).0, ErrorCode::StoreHookUnavailable);
    let mut gone = files();
    gone.database = None;
    assert_eq!(refused(hook_access(&gone)).0, ErrorCode::StoreHookUnavailable);
    let store = new_store();
    assert!(Store::open_for_hook("user", "/o.db", &files(), found(&store, 19), TOKENIZER).is_ok());
    assert_eq!(
        refused(Store::open_for_hook("user", "/o.db", &gone, found(&store, 19), TOKENIZER)).0,
        ErrorCode::StoreHookUnavailable
    );
}

#[test]
fn addresses_are_escaped() {
    assert_eq!(
        accepted(hook_database_uri("/w/é a%.db", true, false, "immutable=1")),
        "file:/w/%C3%A9%20a%25.db?mode=ro&immutable=1"
    );
    assert_eq!(
        accepted(hook_database_uri("\\\\?\\C:\\w\\a.db", true, true, "immutable=1")),
        "file:/C:/w/a.db?mode=ro&immutable=1"
    );
    assert!(hook_database_uri("w/a.db", false, false, "immutable=1").is_err());
    assert_eq!(strip_windows_hook_verbatim_drive("\\\\?\\C:\\w"), Some(text("C:\\w")));
    assert_eq!(strip_windows_hook_verbatim_drive("\\\\?\\UNC\\w"), None);
}

// --- looking after a store -------------------------------------------------

#[test]
fn maintenance_is_recorded() {
    let mut store = new_store();
    accepted(put(&mut store, page("alpha", None, "See [[beta]].", &[]), 3));
    let done = accepted(store.reindex(&segments_of(&["See [[beta]]."]), &Table::new(), NOW, &revision(4)));
    assert_eq!((done.sources, done.pages), (0, 1));
    assert_eq!(done.entries.len(), 1);
    assert_eq!(store.log(1).operations[0].action, "reindex");
    accepted(store.compact(900, NOW, &revision(5)));
    assert_eq!(store.log(1).operations[0].action, "maintenance_compact");
    let answer = WalCheckpoint { busy: 0, log_frames: 3, checkpointed_frames: 3 };
    let response = store.compacted(900, &answer, 500);
    assert_eq!((response.before_bytes, response.after_bytes), (900, 500));
    assert!(!response.busy);
    assert!(try_checkpoint_wal(Some(&answer)));
    assert!(!try_checkpoint_wal(Some(&WalCheckpoint { busy: 1, log_frames: 3, checkpointed_frames: 1 })));
    assert!(!try_checkpoint_wal(None));
}

#[test]
fn the_graph_of_pages_names_its_seed() {
    let mut store = new_store();
    accepted(put(&mut store, page("beta", None, "plain", &[]), 3));
    accepted(put(&mut store, page("alpha", None, "See [[beta]].", &[]), 4));
    let around = accepted(store.graph_related("beta", 5));
    assert_eq!(around.pages.len(), 2);
    assert_eq!(around.pages[around.seed].slug, "beta");
    assert_eq!(around.pages[0].outlinks, vec!["beta"]);
    let (code, message) = refused(store.graph_related("gamma", 5));
    assert_eq!(code, ErrorCode::PageNotFound);
    assert_eq!(message, "page not found: gamma");
}

#[test]
fn the_graph_is_told_what_to_do() {
    assert!(schedule_graph_documents(0, true, "ready") == GraphWork::Nothing);
    assert!(schedule_graph_documents(2, false, "ready") == GraphWork::Nothing);
    assert!(schedule_graph_documents(2, true, "pending") == GraphWork::Projection);
    assert!(schedule_graph_documents(2, true, "ready") == GraphWork::Documents);
    assert!(!accepted(preflight_graph_runtime(true, Err(AppError::new(ErrorCode::IoError, "x")))));
    assert!(accepted(preflight_graph_runtime(false, Ok(()))));
    assert!(preflight_graph_runtime(false, Err(AppError::new(ErrorCode::IoError, "x"))).is_err());
    let off = load_graph_mutation_summary(GraphSetting::Disabled, 1, 2);
    assert_eq!((off.engine.as_str(), off.status.as_str()), ("disabled", "disabled"));
    let on = load_graph_mutation_summary(GraphSetting::Surrealdb, 1, 2);
    assert_eq!((on.engine.as_str(), on.status.as_str()), ("surrealdb", "pending"));
}

#[test]
fn errors_have_names() {
    assert_eq!(ErrorCode::PageNotFound.as_str(), "page_not_found");
    assert_eq!(ErrorCode::ChangesetSyncUnsupported.as_str(), "changeset_sync_unsupported");
    let e = AppError::about(ErrorCode::EntityConflict, "changed", "page", lwc_store::json::Json::text("a"));
    assert_eq!(e.details.unwrap().text_at("entity_type"), Some(&text("page")));
}
