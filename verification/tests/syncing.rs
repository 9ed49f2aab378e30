#![allow(dead_code)]
use lwc_store::digest::hash_content;
use lwc_store::error::{AppError, ErrorCode};
use lwc_store::json::Json;
use lwc_store::pages::{PagePutInput, PagePutResponse};
use lwc_store::sources::SourceAddInput;
use lwc_store::spans::{Passage, Segmented, Segments, Sentence};
use lwc_store::store::Store;
use lwc_store::sync_export::{portable_todo, sync_manifest};
use lwc_store::sync_file::{
    check_transfer_baseline, check_transfer_result, cleanup_sync_conflict_candidates,
    ensure_sync_store_format_matches, merge_sync_blobs_into, select_sync_transfer,
    sync_state_digest, validate_sync_state_file, Column, DraftHead, DraftSource, FileShape,
    SyncTransferKind,
};
use lwc_store::sync_join::{join_sync_blobs, wanted_sync_blobs, DraftReading};
use lwc_store::sync_merge::{bounded_sync_value, merge_sync_value_directional};
use lwc_store::sync_resolve::{
    next_sync_conflict_batch, resolve_sync_conflicts, set_sync_json_path,
    validate_sync_resolution_schema,
};
use lwc_store::sync_state::{
    insert_sync_object, is_mechanical_sync_kind, load_sync_objects, merge_sync_states_directional,
    ObjectRow, SyncMerge,
};
use lwc_store::sync_variant::{sync_conflict_variant_key_at, MemoryMark};
use lwc_store::table::{Pair, Table};
use lwc_store::versions::FreshStore;

const NOW: &str = "2024-05-01T00:00:00Z";
const LATER: &str = "2024-05-02T00:00:00Z";
const TOKENIZER: &str = "words-1";

fn revision(n: u64) -> String {
    format!("{n:064x}")
}

fn text(s: &str) -> String {
    s.to_string()
}

fn accepted<T>(r: Result<T, AppError>) -> T {
    match r {
        Ok(value) => value,
        Err(e) => panic!("{}: {}", e.code.as_str(), e.message),
    }
}

fn refused<T>(r: Result<T, AppError>) -> (ErrorCode, String) {
    match r {
        Ok(_) => panic!("a refusal is expected"),
        Err(e) => (e.code, e.message),
    }
}

/// One passage with one sentence for each content.
fn segments_of(contents: &[&str]) -> Segments {
    let mut table: Table<String, Segmented> = Table::new();
    for content in contents {
        let sentence = Sentence { ordinal: 0, start: 0, end: content.len() };
        let passage = Passage { ordinal: 0, start: 0, end: content.len(), sentences: vec![sentence] };
        table.put(hash_content(content), Segmented { failure: None, passages: vec![passage] });
    }
    Segments { version: 1, contents: table }
}

/// The same for everything that some stores hold.
fn segments_for(stores: &[&Store]) -> Segments {
    let mut contents: Vec<&str> = Vec::new();
    for store in stores {
        contents.extend((0..store.sources.len()).map(|i| store.sources.value_at(i).content.as_str()));
        contents.extend((0..store.pages.len()).map(|i| store.pages.value_at(i).body.as_str()));
    }
    segments_of(&contents)
}

/// The documents that the text index of a store has.
fn index_of(store: &Store) -> Table<Pair, bool> {
    let mut entries: Table<Pair, bool> = Table::new();
    for i in 0..store.sources.len() {
        entries.put(Pair::new("source", &store.sources.key_at(i).to_string()), true);
    }
    for i in 0..store.pages.len() {
        entries.put(Pair::new("page", store.pages.key_at(i)), true);
    }
    entries
}

fn new_store() -> Store {
    let fresh = FreshStore {
        store_id: "5".repeat(64),
        store_revision: revision(1),
        schema: text("# Schema"),
        purpose: text("# Purpose"),
    };
    accepted(Store::initialize("project", "/w/wiki.db", None, &fresh, TOKENIZER, NOW, &revision(2))).0
}

fn page(slug: &str, kind: Option<&str>, body: &str, source_ids: &[i64]) -> PagePutInput {
    PagePutInput {
        slug: text(slug),
        title: text(slug).to_uppercase(),
        kind: kind.map(text),
        summary: Some(text("in short")),
        body: text(body),
        source_ids: source_ids.to_vec(),
        provenance: vec![],
    }
}

fn put(store: &mut Store, input: PagePutInput, n: u64) -> Result<PagePutResponse, AppError> {
    let seen = store.page_version(&input.slug);
    let segments = segments_of(&[&input.body]);
    store.page_put(&segments, input, &seen, NOW, &revision(n))
}

fn add(store: &mut Store, content: &str, path: Option<&str>, n: u64) -> (i64, bool) {
    let input = SourceAddInput {
        title: Some(text("a source")),
        origin: text("notes/a.txt"),
        content: text(content),
        tracked_path: path.map(text),
    };
    let done = accepted(store.source_add(&segments_of(&[content]), input, NOW, &revision(n)));
    (done.added[0].id, done.added[0].created)
}

type Objects = Table<Pair, Json>;

fn object(entries: &[(&str, Json)]) -> Json {
    let mut value = Json::empty_object();
    for (key, entry) in entries {
        value.set(key, entry.duplicate());
    }
    value
}

fn said(title: &str, body: &str) -> Json {
    object(&[
        ("title", Json::text(title)),
        ("body", Json::text(body)),
        ("created_at", Json::text(NOW)),
        ("updated_at", Json::text(NOW)),
    ])
}

fn with(entries: &[(&str, &str, Json)]) -> Objects {
    let mut table: Objects = Table::new();
    for (kind, key, value) in entries {
        table.put(Pair::new(kind, key), value.duplicate());
    }
    table
}

fn merge(base: &Objects, left: &Objects, right: &Objects) -> SyncMerge {
    accepted(merge_sync_states_directional(base, left, base, right))
}

fn at<'a>(objects: &'a Objects, kind: &str, key: &str) -> Option<&'a Json> {
    objects.get(&Pair::new(kind, key))
}

#[test]
fn objects_read_back_as_they_were_written() {
    let payload = object(&[
        ("text", Json::text("quote \" and \u{1F600} and \n")),
        ("list", Json::Array(vec![Json::Int(-3), Json::Null, Json::Bool(true)])),
        ("nested", object(&[("a", Json::Int(i64::MIN))])),
    ]);
    let row = insert_sync_object("page", "alpha", &payload);
    assert_eq!(
        row.payload_json,
        "{\"list\":[-3,null,true],\"nested\":{\"a\":-9223372036854775808},\"text\":\"quote \\\" and \u{1F600} and \\n\"}"
    );
    assert_eq!(row.payload_hash, hash_content(&row.payload_json));
    let objects = accepted(load_sync_objects(&vec![row]));
    assert!(at(&objects, "page", "alpha").unwrap().same(&payload));
}

#[test]
fn rows_that_do_not_hold_together_are_refused() {
    let mut row = insert_sync_object("page", "alpha", &Json::Int(1));
    row.payload_hash = hash_content("other");
    assert_eq!(refused(load_sync_objects(&vec![row])).0, ErrorCode::SyncChecksumMismatch);
    let odd = ObjectRow {
        kind: text("page"),
        logical_key: text("alpha"),
        payload_json: text("{"),
        payload_hash: hash_content("{"),
    };
    assert_eq!(refused(load_sync_objects(&vec![odd])).0, ErrorCode::SyncStateInvalid);
}

#[test]
fn numbers_that_are_not_integers_keep_their_text() {
    let row = ObjectRow {
        kind: text("semantic_relation"),
        logical_key: text("r"),
        payload_json: text("{\"confidence\":0.5}"),
        payload_hash: hash_content("{\"confidence\":0.5}"),
    };
    let objects = accepted(load_sync_objects(&vec![row]));
    let value = at(&objects, "semantic_relation", "r").unwrap();
    assert!(value.get("confidence").unwrap().is_number());
    assert_eq!(insert_sync_object("semantic_relation", "r", value).payload_json, "{\"confidence\":0.5}");
}

#[test]
fn agreement_settles() {
    let base = with(&[("page", "alpha", said("a", "one"))]);
    let both = with(&[("page", "alpha", said("a", "two"))]);
    let merged = merge(&base, &both, &both);
    assert_eq!(merged.conflicts.len(), 0);
    assert!(at(&merged.objects, "page", "alpha").unwrap().same(&said("a", "two")));
}

#[test]
fn a_one_sided_edit_stands() {
    let base = with(&[("page", "alpha", said("a", "one")), ("page", "beta", said("b", "x"))]);
    let left = with(&[("page", "alpha", said("a", "two")), ("page", "beta", said("b", "x"))]);
    let right = with(&[("page", "alpha", said("a", "one"))]);
    let merged = merge(&base, &left, &right);
    assert_eq!(merged.conflicts.len(), 0);
    assert!(at(&merged.objects, "page", "alpha").unwrap().same(&said("a", "two")));
    assert!(at(&merged.objects, "page", "beta").is_none());
}

#[test]
fn edits_of_different_fields_are_put_together() {
    let base = with(&[("page", "alpha", said("a", "one"))]);
    let left = with(&[("page", "alpha", said("A", "one"))]);
    let right = with(&[("page", "alpha", said("a", "two"))]);
    let merged = merge(&base, &left, &right);
    assert_eq!(merged.conflicts.len(), 0);
    assert!(at(&merged.objects, "page", "alpha").unwrap().same(&said("A", "two")));
}

#[test]
fn an_unchanged_replica_follows() {
    let base = with(&[("page", "alpha", said("a", "one")), ("page", "beta", said("b", "x"))]);
    let right = with(&[("page", "alpha", said("a", "two")), ("page", "gamma", said("c", "new"))]);
    let merged = merge(&base, &base.copy(), &right);
    assert_eq!(merged.conflicts.len(), 0);
    assert!(merged.objects.equals(&right));
}

/// Two replicas that changed the same field of a page.
fn quarrel() -> (SyncMerge, Json, Json) {
    let base = with(&[("page", "alpha", said("a", "one"))]);
    let left = said("a", "mine");
    let right = said("a", "yours");
    let merged = merge(
        &base,
        &with(&[("page", "alpha", left.duplicate())]),
        &with(&[("page", "alpha", right.duplicate())]),
    );
    (merged, left, right)
}

#[test]
fn a_conflict_takes_two_edits_of_one_field() {
    let (merged, _, _) = quarrel();
    assert_eq!(merged.conflicts.len(), 1);
    let conflict = &merged.conflicts[0];
    assert_eq!(conflict.text_at("kind"), Some(&text("page")));
    assert_eq!(conflict.text_at("conflict"), Some(&text("concurrent_edit")));
    let fields = conflict.array_at("fields").unwrap();
    assert_eq!(fields.len(), 1);
    assert_eq!(fields[0].text_at("path"), Some(&text("body")));
    assert!(fields[0].get("base").unwrap().same(&Json::text("one")));
    assert!(fields[0].get("candidates").unwrap().same(&Json::Array(vec![Json::text("mine"), Json::text("yours")])));
    assert_eq!(merged.candidates.len(), 2);
    // Without a decision the value that comes first stands.
    assert!(at(&merged.objects, "page", "alpha").unwrap().get("body").unwrap().same(&Json::text("mine")));
}

#[test]
fn removal_and_edit_are_a_conflict() {
    let base = with(&[("page", "alpha", said("a", "one"))]);
    let left = with(&[]);
    let right = with(&[("page", "alpha", said("a", "two"))]);
    let merged = merge(&base, &left, &right);
    assert_eq!(merged.conflicts[0].text_at("conflict"), Some(&text("delete_vs_edit")));
    assert!(at(&merged.objects, "page", "alpha").is_some());
}

#[test]
fn mechanical_kinds_never_ask() {
    assert!(is_mechanical_sync_kind("ingest"));
    assert!(!is_mechanical_sync_kind("page"));
    let base = with(&[("ingest", "h", object(&[("status", Json::text("pending"))]))]);
    let left = with(&[("ingest", "h", object(&[("status", Json::text("analyzing"))]))]);
    let right = with(&[("ingest", "h", object(&[("status", Json::text("completed"))]))]);
    let merged = merge(&base, &left, &right);
    assert_eq!(merged.conflicts.len(), 0);
    assert!(at(&merged.objects, "ingest", "h").is_some());
}

fn decision(conflict: &Json, rest: &[(&str, Json)]) -> Json {
    let mut value = object(rest);
    for key in ["conflict_id", "kind", "logical_key"] {
        value.set(key, Json::text(conflict.text_at(key).unwrap()));
    }
    value
}

fn packet(version: i64, decisions: Vec<Json>) -> Json {
    object(&[("version", Json::Int(version)), ("decisions", Json::Array(decisions))])
}

fn pick(candidate: i64) -> [(&'static str, Json); 2] {
    [("candidate", Json::Int(candidate)), ("path", Json::text("body"))]
}

#[test]
fn a_decision_picks_a_candidate() {
    let (mut merged, _, right) = quarrel();
    let marks: Table<String, MemoryMark> = Table::new();
    let resolution = packet(1, vec![decision(&merged.conflicts[0], &pick(1))]);
    accepted(resolve_sync_conflicts(
        &mut merged.objects,
        &merged.candidates,
        &marks,
        &merged.conflicts,
        &resolution,
    ));
    assert!(at(&merged.objects, "page", "alpha").unwrap().same(&right));
}

#[test]
fn both_versions_can_be_kept() {
    let (mut merged, left, right) = quarrel();
    let marks: Table<String, MemoryMark> = Table::new();
    let resolution = packet(1, vec![decision(&merged.conflicts[0], &[("strategy", Json::text("preserve_both"))])]);
    accepted(resolve_sync_conflicts(
        &mut merged.objects,
        &merged.candidates,
        &marks,
        &merged.conflicts,
        &resolution,
    ));
    let bodies: Vec<String> = (0..merged.objects.len())
        .filter(|i| merged.objects.key_at(*i).first == "page")
        .map(|i| merged.objects.value_at(i).text_at("body").unwrap().clone())
        .collect();
    assert_eq!(bodies.len(), 2);
    assert!(bodies.contains(left.text_at("body").unwrap()));
    assert!(bodies.contains(right.text_at("body").unwrap()));
}

#[test]
fn resolutions_are_refused_for_each_fault() {
    let (mut merged, _, _) = quarrel();
    let marks: Table<String, MemoryMark> = Table::new();
    let whole = decision(&merged.conflicts[0], &pick(0));
    let mut attempt = |resolution: Json| {
        refused(resolve_sync_conflicts(
            &mut merged.objects,
            &merged.candidates,
            &marks,
            &merged.conflicts,
            &resolution,
        ))
    };
    assert_eq!(attempt(Json::Null), (ErrorCode::SyncResolutionInvalid, text("resolution must be an object")));
    assert_eq!(
        attempt(object(&[("version", Json::Int(1))])).1,
        "resolution contains unknown or missing fields"
    );
    assert_eq!(attempt(packet(2, vec![])).1, "resolution packet version must be 1");
    assert_eq!(
        attempt(packet(1, vec![])),
        (ErrorCode::SyncResolutionIncomplete, text("resolution covers 0 conflict fields; 1 are required"))
    );
    assert_eq!(
        attempt(packet(1, vec![whole.duplicate(), whole.duplicate()])).1,
        "resolution decisions must be unique and choose candidate 0 or 1"
    );
    let mut odd = whole.duplicate();
    odd.set("candidate", Json::Int(2));
    assert_eq!(attempt(packet(1, vec![odd])).1, "resolution decisions must be unique and choose candidate 0 or 1");
    for far in ["9223372036854775808", "99999999999999999999"] {
        let mut odd = whole.duplicate();
        odd.set("candidate", Json::Number(text(far)));
        assert_eq!(
            attempt(packet(1, vec![odd])).1,
            "resolution decisions must be unique and choose candidate 0 or 1"
        );
    }
    for none in [Json::Number(text("1.5")), Json::Int(-1)] {
        let mut odd = whole.duplicate();
        odd.set("candidate", none);
        assert_eq!(
            attempt(packet(1, vec![odd])).1,
            "decision candidate must be 0 or 1"
        );
    }
    let mut stale = whole.duplicate();
    stale.set("conflict_id", Json::text(&"0".repeat(64)));
    assert_eq!(
        attempt(packet(1, vec![stale])),
        (
            ErrorCode::SyncResolutionStale,
            text("resolution conflict ID is stale or unknown for page:alpha")
        )
    );
    let mut short = whole.duplicate();
    short.set("conflict_id", Json::text("12"));
    assert_eq!(
        attempt(packet(1, vec![short])).1,
        "decision conflict_id must be a 64-character hexadecimal digest"
    );
    let mut both = whole.duplicate();
    both.set("strategy", Json::text("preserve_both"));
    assert_eq!(
        attempt(packet(1, vec![both])).1,
        "decision must be exactly one candidate or preserve-both shape"
    );
    assert!(validate_sync_resolution_schema(&vec![], &packet(1, vec![])).is_ok());
}

#[test]
fn conflicts_are_handed_out_in_bounded_batches() {
    let many: Vec<Json> = (0..30).map(Json::Int).collect();
    assert_eq!(next_sync_conflict_batch(&many).len(), 20);
    let large: Vec<Json> = (0..3).map(|_| Json::text(&"x".repeat(200_000))).collect();
    assert_eq!(next_sync_conflict_batch(&large).len(), 1);
    let value = bounded_sync_value(&Json::text(&"x".repeat(20_000)));
    assert_eq!(value.int_at("bytes"), Some(20_002));
    assert_eq!(value.bool_at("truncated"), Some(true));
}

#[test]
fn a_path_into_a_value_sets_it() {
    let mut root = object(&[("a", object(&[("b", Json::Int(1))]))]);
    accepted(set_sync_json_path(&mut root, "a.b", Json::Int(2)));
    assert_eq!(root.get("a").unwrap().int_at("b"), Some(2));
    let (code, message) = refused(set_sync_json_path(&mut root, "x.y", Json::Int(2)));
    assert_eq!(code, ErrorCode::SyncResolutionInvalid);
    assert_eq!(message, "resolution path does not exist");
    assert_eq!(
        refused(set_sync_json_path(&mut root, "a[0]", Json::Int(2))).1,
        "resolution currently requires an object-field path"
    );
    assert_eq!(
        refused(set_sync_json_path(&mut root, "a.b.c", Json::Int(2))).1,
        "resolution path is not an object field"
    );
}

#[test]
fn lists_are_merged_by_what_was_added_and_removed() {
    let list = |items: &[&str]| Json::Array(items.iter().map(|item| Json::text(item)).collect());
    let base = list(&["a", "b"]);
    let mut conflicts = vec![];
    let merged = merge_sync_value_directional(
        Some(&base),
        &list(&["a", "b", "c"]),
        Some(&base),
        &list(&["b"]),
        "/tags",
        &mut conflicts,
    );
    assert_eq!(conflicts.len(), 0);
    assert!(merged.same(&list(&["b", "c"])));
}

#[test]
fn nested_edits_merge_the_same_from_either_side() {
    let item = |id: i64, said: &str| object(&[("id", Json::Int(id)), ("said", Json::text(said))]);
    let value = |title: &str, revision: i64, items: Vec<Json>, at: &str| {
        object(&[
            ("items", Json::Array(items)),
            ("large", Json::text(&title.repeat(20_000))),
            ("revision", Json::Int(revision)),
            ("title", Json::text(title)),
            ("updated_at", Json::text(at)),
        ])
    };
    let base = value("a", 1, vec![item(1, "x"), item(2, "y")], "2024");
    let left = value("b", 2, vec![item(1, "left"), item(3, "z")], "2025");
    let right = value("c", 3, vec![item(1, "right"), item(2, "y"), item(3, "other")], "2023");
    let merge = |a: &Json, b: &Json| {
        let mut conflicts = vec![];
        let merged = merge_sync_value_directional(Some(&base), a, Some(&base), b, "", &mut conflicts);
        (merged, Json::Array(conflicts))
    };
    let (one, found) = merge(&left, &right);
    let (other, turned) = merge(&right, &left);
    assert!(one.same(&other) && found.same(&turned));
    assert_eq!(one.int_at("revision"), Some(3));
    assert_eq!(one.text_at("updated_at"), Some(&text("2025")));
    match &found {
        Json::Array(items) => {
            let paths: Vec<&str> =
                items.iter().map(|item| item.text_at("path").unwrap().as_str()).collect();
            assert_eq!(paths, vec!["items", "large", "title"]);
        }
        _ => panic!("a list is expected"),
    }
}

// --- the normalised state --------------------------------------------------

#[test]
fn a_state_is_exported_and_digested() {
    let mut store = new_store();
    let (id, _) = add(&mut store, "raw text", None, 3);
    accepted(put(&mut store, page("alpha", None, "body", &[id]), 4));
    let said: Table<String, String> = Table::new();
    let export = accepted(store.export_sync_state(&said, vec![]));
    assert_eq!(export.blob_count, 1);
    assert_eq!(export.object_count, export.objects.len());
    let objects = accepted(load_sync_objects(&export.objects));
    let exported = at(&objects, "page", "alpha").unwrap();
    assert_eq!(exported.text_at("body"), Some(&text("body")));
    assert!(at(&objects, "source", &hash_content("raw text")).is_some());
    let blobs = store.export_sync_blobs();
    assert_eq!(blobs.get(&hash_content("raw text")), Some(&b"raw text".to_vec()));
    let mut hashes: Table<Pair, String> = Table::new();
    for row in &export.objects {
        hashes.put(Pair::new(&row.kind, &row.logical_key), row.payload_hash.clone());
    }
    let digest = accepted(sync_state_digest(&sync_manifest(), &hashes, &blobs));
    assert_eq!(digest, export.state_digest);
    // The same content in another store has the same digest.
    let mut other = new_store();
    let (id, _) = add(&mut other, "raw text", None, 7);
    accepted(put(&mut other, page("alpha", None, "body", &[id]), 8));
    assert_eq!(accepted(other.export_sync_state(&said, vec![])).state_digest, digest);
    accepted(put(&mut other, page("alpha", None, "changed", &[id]), 9));
    assert_ne!(accepted(other.export_sync_state(&said, vec![])).state_digest, digest);
}

#[test]
fn blobs_are_gathered_where_they_agree() {
    let blobs = |entries: &[(&str, &str)]| {
        let mut table: Table<String, Vec<u8>> = Table::new();
        for (name, content) in entries {
            table.put(text(name), content.as_bytes().to_vec());
        }
        table
    };
    let name = hash_content("x");
    let some = blobs(&[(&name, "x")]);
    let none = blobs(&[]);
    let wanted = vec![name.clone()];
    let merged = accepted(merge_sync_blobs_into(&none, &some, &none, &none, &wanted));
    assert_eq!(merged.get(&name), Some(&b"x".to_vec()));
    let odd = blobs(&[(&name, "y")]);
    assert!(merge_sync_blobs_into(&some, &odd, &none, &none, &wanted).is_err());
    assert!(merge_sync_blobs_into(&none, &none, &none, &none, &wanted).is_err());
    let mixed = blobs(&[(&name, "x"), ("sync-candidate:1", "c")]);
    assert_eq!(cleanup_sync_conflict_candidates(&mixed).len(), 1);
}

type Blobs = Table<String, Vec<u8>>;

fn blobs_of(contents: &[&str]) -> Blobs {
    let mut table: Blobs = Table::new();
    for content in contents {
        table.put(hash_content(content), content.as_bytes().to_vec());
    }
    table
}

fn draft_named(changeset: &str, required: &str, other: &str) -> DraftReading {
    let source = |content: &str, content_required: bool| DraftSource {
        content_hash: hash_content(content),
        content_required,
    };
    DraftReading {
        decoded: Ok(DraftHead {
            canonical: true,
            version: 1,
            origin_changeset_id: text(changeset),
            sources: vec![source(required, true), source(other, false)],
        }),
    }
}

#[test]
fn merged_sources_have_their_content() {
    let origin = "a".repeat(64);
    let key = format!("{origin}\0work");
    let draft = object(&[
        ("intent", Json::empty_object()),
        ("origin_store_id", Json::text(&origin)),
    ]);
    let objects = with(&[
        ("draft_intent", &key, draft),
        ("page", "alpha", said("A", "one")),
        ("source", &hash_content("s"), said("S", "s")),
    ]);
    let mut readings: Table<String, DraftReading> = Table::new();
    readings.put(key.clone(), draft_named("work", "d", "not wanted"));
    let mut names = vec![hash_content("s"), hash_content("d")];
    names.sort();
    assert_eq!(accepted(wanted_sync_blobs(&objects, &readings)), names);
    let none = blobs_of(&[]);
    let mut candidates: Blobs = Table::new();
    candidates.put(text("sync-candidate:1"), b"c".to_vec());
    let joined = accepted(join_sync_blobs(
        &objects,
        &readings,
        &candidates,
        &none,
        &blobs_of(&["s", "not wanted"]),
        &none,
        &blobs_of(&["d"]),
    ));
    assert_eq!(joined.len(), 3);
    assert_eq!(joined.get(&hash_content("s")), Some(&b"s".to_vec()));
    assert_eq!(joined.get(&hash_content("d")), Some(&b"d".to_vec()));
    assert_eq!(joined.get(&text("sync-candidate:1")), Some(&b"c".to_vec()));
    let (code, message) = refused(join_sync_blobs(
        &objects,
        &readings,
        &candidates,
        &none,
        &blobs_of(&["s"]),
        &none,
        &none,
    ));
    assert_eq!(code, ErrorCode::SyncStateInvalid);
    assert_eq!(message, format!("merged source {} has no content blob", hash_content("d")));
    readings.put(key.clone(), draft_named("other", "d", "x"));
    assert_eq!(
        refused(wanted_sync_blobs(&objects, &readings)).1,
        format!("normalized draft_intent '{key}' is not canonical")
    );
    let taken = with(&[("source", "sync-candidate:1", said("S", "c"))]);
    assert_eq!(
        refused(join_sync_blobs(
            &taken,
            &readings,
            &candidates,
            &candidates,
            &none,
            &none,
            &none,
        ))
        .0,
        ErrorCode::DatabaseError
    );
}

fn shape() -> FileShape {
    let column = |name: &str, declared: &str, key: i64| Column {
        name: text(name),
        declared: text(declared),
        not_null: 1,
        primary_key: key,
    };
    FileShape {
        regular: true,
        integrity: text("ok"),
        schema: vec![
            Pair::new("table", "sync_blobs"),
            Pair::new("table", "sync_manifest"),
            Pair::new("table", "sync_objects"),
        ],
        manifest: vec![column("key", "TEXT", 1), column("value", "TEXT", 0)],
        objects: vec![
            column("kind", "TEXT", 1),
            column("logical_key", "TEXT", 2),
            column("payload_json", "TEXT", 0),
            column("payload_hash", "TEXT", 0),
        ],
        blobs: vec![column("content_hash", "TEXT", 1), column("content", "BLOB", 0)],
        manifest_keys: vec![text("format"), text("store_format")],
    }
}

#[test]
fn a_state_file_has_its_tables_and_no_others() {
    assert!(validate_sync_state_file(&shape()).is_ok());
    let mut odd = shape();
    odd.regular = false;
    assert_eq!(refused(validate_sync_state_file(&odd)).1, "normalized Sync state must be a regular non-symlink file");
    let mut odd = shape();
    odd.integrity = text("row 1 missing");
    assert_eq!(
        refused(validate_sync_state_file(&odd)).1,
        "normalized Sync state integrity check failed: row 1 missing"
    );
    let mut odd = shape();
    odd.schema.pop();
    assert_eq!(refused(validate_sync_state_file(&odd)).1, "unexpected normalized Sync schema");
    let mut odd = shape();
    odd.objects.pop();
    assert_eq!(refused(validate_sync_state_file(&odd)).1, "unexpected normalized Sync schema for sync_objects");
    let mut odd = shape();
    odd.manifest_keys.pop();
    assert_eq!(refused(validate_sync_state_file(&odd)).1, "unexpected normalized Sync manifest keys");
}

#[test]
fn transfers_fit_their_baseline() {
    assert_eq!(select_sync_transfer(Some(5), 9), SyncTransferKind::Delta);
    assert_eq!(select_sync_transfer(Some(9), 9), SyncTransferKind::Full);
    assert_eq!(select_sync_transfer(None, 9), SyncTransferKind::Full);
    assert!(ensure_sync_store_format_matches("19", "19").is_ok());
    assert!(ensure_sync_store_format_matches("18", "19").is_err());
    let (a, b) = (Some(text("a")), Some(text("b")));
    assert!(check_transfer_baseline(SyncTransferKind::Delta, &a, &a).is_ok());
    assert_eq!(
        refused(check_transfer_baseline(SyncTransferKind::Delta, &a, &b)).0,
        ErrorCode::SyncBaselineMismatch
    );
    assert_eq!(
        refused(check_transfer_baseline(SyncTransferKind::Delta, &a, &None)).0,
        ErrorCode::SyncBaselineMissing
    );
    assert!(check_transfer_result("x", "x").is_ok());
    assert_eq!(refused(check_transfer_result("x", "y")).0, ErrorCode::SyncChecksumMismatch);
}

#[test]
fn variants_have_keys_of_their_own() {
    let hash = "ab".repeat(32);
    let first = accepted(sync_conflict_variant_key_at("page", "alpha", &hash, 0));
    let second = accepted(sync_conflict_variant_key_at("page", "alpha", &hash, 1));
    assert!(first.starts_with("alpha"));
    assert_ne!(first, second);
}

#[test]
fn portable_notes_lose_what_is_local() {
    let todo = vec![
        (text("id"), Json::text("t1")),
        (text("scope"), Json::text("project")),
        (text("title"), Json::text("do it")),
    ];
    let value = portable_todo(&todo);
    assert!(value.get("scope").is_none());
    assert_eq!(value.text_at("title"), Some(&text("do it")));
}

#[test]
fn zeros_of_either_sign_are_no_edit() {
    let weighed = |w: &str| {
        let mut value = said("a", "one");
        value.set("weight", Json::Number(text(w)));
        value
    };
    assert!(weighed("0.0").equals(&weighed("-0.0")) && !weighed("0.0").same(&weighed("-0.0")));
    let base = with(&[("page", "alpha", weighed("0.0"))]);
    let left = with(&[("page", "alpha", weighed("-0.0"))]);
    let right = with(&[("page", "alpha", weighed("1.5"))]);
    let merged = merge(&base, &left, &right);
    assert_eq!(merged.conflicts.len(), 0);
    assert!(at(&merged.objects, "page", "alpha").unwrap().same(&weighed("1.5")));
}

#[test]
fn it_does_not_matter_which_side_is_which() {
    let base = with(&[("page", "alpha", said("a", "one")), ("page", "beta", said("b", "x"))]);
    let left = with(&[("page", "alpha", said("a", "mine")), ("page", "beta", said("B", "x"))]);
    let right = with(&[("page", "alpha", said("a", "yours")), ("page", "beta", said("b", "y"))]);
    let (one, other) = (merge(&base, &left, &right), merge(&base, &right, &left));
    assert_eq!((one.conflicts.len(), other.conflicts.len()), (1, 1));
    for i in 0..one.objects.len() {
        let key = one.objects.key_at(i);
        assert!(one.objects.value_at(i).same(other.objects.get(key).unwrap()));
    }
    assert_eq!(one.objects.len(), other.objects.len());
}

#[test]
fn the_format_of_the_store_is_named_where_it_is_refused() {
    let digest = |manifest: &Table<String, String>| {
        refused(sync_state_digest(manifest, &Table::new(), &Table::new()))
    };
    let mut manifest = sync_manifest();
    manifest.put(text("store_format"), text("7"));
    assert_eq!(
        digest(&manifest),
        (ErrorCode::SyncStateInvalid, text("unsupported normalized store format: Some(\"7\")"))
    );
    manifest.remove(&text("store_format"));
    assert_eq!(digest(&manifest).1, "unsupported normalized store format: None");
    manifest.remove(&text("format"));
    assert_eq!(digest(&manifest).1, "unsupported normalized Sync state");
}
