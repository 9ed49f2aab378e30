//! Inverse patches: what a sparse changeset needs to be taken back.
use crate::changesets;
use crate::digest;
use crate::digest::hash_content;
use crate::error;
use crate::error::{AppError, AppErrorView, ErrorCode};
use crate::json;
use crate::json::{canonical_sync_value, Json, JsonView};
use crate::pages;
use crate::pages::{encode_optional, encode_texts, page_content_fingerprint};
use crate::rows::{
    IngestRow, IngestView, OperationRow, OperationView, PageRow, PageView, PathLog, PathRevision,
    PathRevisionView, SourceRow, SourceView,
};
use crate::sources;
use crate::sparse_merge;
use crate::spans;
use crate::staging;
use crate::staging::{tag_snapshot_fingerprint, TagSnapshot, TagSnapshotView};
use crate::store;
use crate::store::{Store, StoreView};
use crate::table;
use crate::table::{
    copy_record_opt, copy_records, same_record_opt, same_records, Pair, PairView, Record, Table,
};
use crate::text;
use crate::text::{copy_texts, decimal_text, hex, join2, join3, owned, same_text, same_texts};
use crate::touched;
use crate::touched::{list_created_sources, tag_action};
use vstd::prelude::*;

verus! {

// ---------------------------------------------------------------------------
// Patches
// ---------------------------------------------------------------------------

/// A page before and after a changeset.
pub struct PageInverse {
    pub slug: String,
    /// The other pages that linked to the page before.
    pub inbound_links: Vec<String>,
    pub before: Option<PageRow>,
    pub after: Option<PageRow>,
    pub after_fingerprint: String,
}

#[verifier::ext_equal]
pub struct PageInverseView {
    pub slug: Seq<char>,
    pub inbound_links: Seq<Seq<char>>,
    pub before: Option<PageView>,
    pub after: Option<PageView>,
    pub after_fingerprint: Seq<char>,
}

impl View for PageInverse {
    type V = PageInverseView;

    open spec fn view(&self) -> PageInverseView {
        PageInverseView {
            slug: self.slug@,
            inbound_links: text::views(self.inbound_links@),
            before: text::opt_view(self.before),
            after: text::opt_view(self.after),
            after_fingerprint: self.after_fingerprint@,
        }
    }
}

impl Record for PageInverse {
    fn duplicate(&self) -> (r: Self) {
        PageInverse {
            slug: owned(self.slug.as_str()),
            inbound_links: copy_texts(&self.inbound_links),
            before: copy_record_opt(&self.before),
            after: copy_record_opt(&self.after),
            after_fingerprint: owned(self.after_fingerprint.as_str()),
        }
    }

    fn same(&self, other: &Self) -> (r: bool) {
        same_text(self.slug.as_str(), other.slug.as_str())
            && same_texts(&self.inbound_links, &other.inbound_links)
            && same_record_opt(&self.before, &other.before)
            && same_record_opt(&self.after, &other.after)
            && same_text(self.after_fingerprint.as_str(), other.after_fingerprint.as_str())
    }
}


/// A key of the metadata before and after a changeset.
pub struct MetaInverse {
    pub key: String,
    pub before: String,
    pub after_fingerprint: String,
}

#[verifier::ext_equal]
pub struct MetaInverseView {
    pub key: Seq<char>,
    pub before: Seq<char>,
    pub after_fingerprint: Seq<char>,
}

impl View for MetaInverse {
    type V = MetaInverseView;

    open spec fn view(&self) -> MetaInverseView {
        MetaInverseView {
            key: self.key@,
            before: self.before@,
            after_fingerprint: self.after_fingerprint@,
        }
    }
}

impl Record for MetaInverse {
    fn duplicate(&self) -> (r: Self) {
        MetaInverse {
            key: owned(self.key.as_str()),
            before: owned(self.before.as_str()),
            after_fingerprint: owned(self.after_fingerprint.as_str()),
        }
    }

    fn same(&self, other: &Self) -> (r: bool) {
        same_text(self.key.as_str(), other.key.as_str())
            && same_text(self.before.as_str(), other.before.as_str())
            && same_text(self.after_fingerprint.as_str(), other.after_fingerprint.as_str())
    }
}


/// A path at which a source was observed.
pub struct SourcePath {
    pub tracked_path: String,
    pub revision: i64,
    pub observed_at: String,
}

#[verifier::ext_equal]
pub struct SourcePathView {
    pub tracked_path: Seq<char>,
    pub revision: i64,
    pub observed_at: Seq<char>,
}

impl View for SourcePath {
    type V = SourcePathView;

    open spec fn view(&self) -> SourcePathView {
        SourcePathView {
            tracked_path: self.tracked_path@,
            revision: self.revision,
            observed_at: self.observed_at@,
        }
    }
}

impl Record for SourcePath {
    fn duplicate(&self) -> (r: Self) {
        SourcePath {
            tracked_path: owned(self.tracked_path.as_str()),
            revision: self.revision,
            observed_at: owned(self.observed_at.as_str()),
        }
    }

    fn same(&self, other: &Self) -> (r: bool) {
        same_text(self.tracked_path.as_str(), other.tracked_path.as_str())
            && self.revision == other.revision
            && same_text(self.observed_at.as_str(), other.observed_at.as_str())
    }
}


/// A source at a moment, with its job and its paths.
pub struct SourceSnapshot {
    pub id: i64,
    pub source: SourceRow,
    pub ingest: IngestRow,
    pub paths: Vec<SourcePath>,
}

#[verifier::ext_equal]
pub struct SourceSnapshotView {
    pub id: i64,
    pub source: SourceView,
    pub ingest: IngestView,
    pub paths: Seq<SourcePathView>,
}

impl View for SourceSnapshot {
    type V = SourceSnapshotView;

    open spec fn view(&self) -> SourceSnapshotView {
        SourceSnapshotView {
            id: self.id,
            source: self.source@,
            ingest: self.ingest@,
            paths: text::views(self.paths@),
        }
    }
}

impl Record for SourceSnapshot {
    fn duplicate(&self) -> (r: Self) {
        SourceSnapshot {
            id: self.id,
            source: self.source.duplicate(),
            ingest: self.ingest.duplicate(),
            paths: copy_records(&self.paths),
        }
    }

    fn same(&self, other: &Self) -> (r: bool) {
        self.id == other.id
            && self.source.same(&other.source)
            && self.ingest.same(&other.ingest)
            && same_records(&self.paths, &other.paths)
    }
}


/// A source before and after a changeset.
pub struct SourceInverse {
    pub source_id: i64,
    pub before: Option<SourceSnapshot>,
    pub after_fingerprint: String,
}

#[verifier::ext_equal]
pub struct SourceInverseView {
    pub source_id: i64,
    pub before: Option<SourceSnapshotView>,
    pub after_fingerprint: Seq<char>,
}

impl View for SourceInverse {
    type V = SourceInverseView;

    open spec fn view(&self) -> SourceInverseView {
        SourceInverseView {
            source_id: self.source_id,
            before: text::opt_view(self.before),
            after_fingerprint: self.after_fingerprint@,
        }
    }
}

impl Record for SourceInverse {
    fn duplicate(&self) -> (r: Self) {
        SourceInverse {
            source_id: self.source_id,
            before: copy_record_opt(&self.before),
            after_fingerprint: owned(self.after_fingerprint.as_str()),
        }
    }

    fn same(&self, other: &Self) -> (r: bool) {
        self.source_id == other.source_id
            && same_record_opt(&self.before, &other.before)
            && same_text(self.after_fingerprint.as_str(), other.after_fingerprint.as_str())
    }
}


/// A tracked path before and after a changeset.
pub struct TrackedPathInverse {
    pub tracked_path: String,
    pub before: Vec<PathRevision>,
    pub after: Vec<PathRevision>,
    pub after_fingerprint: String,
}

#[verifier::ext_equal]
pub struct TrackedPathInverseView {
    pub tracked_path: Seq<char>,
    pub before: Seq<PathRevisionView>,
    pub after: Seq<PathRevisionView>,
    pub after_fingerprint: Seq<char>,
}

impl View for TrackedPathInverse {
    type V = TrackedPathInverseView;

    open spec fn view(&self) -> TrackedPathInverseView {
        TrackedPathInverseView {
            tracked_path: self.tracked_path@,
            before: text::views(self.before@),
            after: text::views(self.after@),
            after_fingerprint: self.after_fingerprint@,
        }
    }
}

impl Record for TrackedPathInverse {
    fn duplicate(&self) -> (r: Self) {
        TrackedPathInverse {
            tracked_path: owned(self.tracked_path.as_str()),
            before: copy_records(&self.before),
            after: copy_records(&self.after),
            after_fingerprint: owned(self.after_fingerprint.as_str()),
        }
    }

    fn same(&self, other: &Self) -> (r: bool) {
        same_text(self.tracked_path.as_str(), other.tracked_path.as_str())
            && same_records(&self.before, &other.before)
            && same_records(&self.after, &other.after)
            && same_text(self.after_fingerprint.as_str(), other.after_fingerprint.as_str())
    }
}


/// A tag before and after a changeset.
pub struct TagInverse {
    pub name: String,
    pub before: TagSnapshot,
    pub after_fingerprint: String,
}

#[verifier::ext_equal]
pub struct TagInverseView {
    pub name: Seq<char>,
    pub before: TagSnapshotView,
    pub after_fingerprint: Seq<char>,
}

impl View for TagInverse {
    type V = TagInverseView;

    open spec fn view(&self) -> TagInverseView {
        TagInverseView {
            name: self.name@,
            before: self.before@,
            after_fingerprint: self.after_fingerprint@,
        }
    }
}

impl Record for TagInverse {
    fn duplicate(&self) -> (r: Self) {
        TagInverse {
            name: owned(self.name.as_str()),
            before: self.before.duplicate(),
            after_fingerprint: owned(self.after_fingerprint.as_str()),
        }
    }

    fn same(&self, other: &Self) -> (r: bool) {
        same_text(self.name.as_str(), other.name.as_str())
            && self.before.same(&other.before)
            && same_text(self.after_fingerprint.as_str(), other.after_fingerprint.as_str())
    }
}


/// All that a sparse changeset needs to be taken back.
pub struct InversePayload {
    pub version: i64,
    pub changeset_id: String,
    pub store_id: String,
    pub pages: Vec<PageInverse>,
    pub meta: Vec<MetaInverse>,
    pub sources: Vec<SourceInverse>,
    pub source_paths: Vec<TrackedPathInverse>,
    pub tags: Vec<TagInverse>,
}

#[verifier::ext_equal]
pub struct InverseView {
    pub version: i64,
    pub changeset_id: Seq<char>,
    pub store_id: Seq<char>,
    pub pages: Seq<PageInverseView>,
    pub meta: Seq<MetaInverseView>,
    pub sources: Seq<SourceInverseView>,
    pub source_paths: Seq<TrackedPathInverseView>,
    pub tags: Seq<TagInverseView>,
}

impl View for InversePayload {
    type V = InverseView;

    open spec fn view(&self) -> InverseView {
        InverseView {
            version: self.version,
            changeset_id: self.changeset_id@,
            store_id: self.store_id@,
            pages: text::views(self.pages@),
            meta: text::views(self.meta@),
            sources: text::views(self.sources@),
            source_paths: text::views(self.source_paths@),
            tags: text::views(self.tags@),
        }
    }
}

impl Record for InversePayload {
    fn duplicate(&self) -> (r: Self) {
        InversePayload {
            version: self.version,
            changeset_id: owned(self.changeset_id.as_str()),
            store_id: owned(self.store_id.as_str()),
            pages: copy_records(&self.pages),
            meta: copy_records(&self.meta),
            sources: copy_records(&self.sources),
            source_paths: copy_records(&self.source_paths),
            tags: copy_records(&self.tags),
        }
    }

    fn same(&self, other: &Self) -> (r: bool) {
        self.version == other.version
            && same_text(self.changeset_id.as_str(), other.changeset_id.as_str())
            && same_text(self.store_id.as_str(), other.store_id.as_str())
            && same_records(&self.pages, &other.pages)
            && same_records(&self.meta, &other.meta)
            && same_records(&self.sources, &other.sources)
            && same_records(&self.source_paths, &other.source_paths)
            && same_records(&self.tags, &other.tags)
    }
}


/// The version of inverse patches that this library writes and reads.
pub const INVERSE_VERSION: i64 = 1;

/// Checks an inverse patch as it was read: its version, and that its text has the
/// digest that was kept beside it.
pub fn check_sparse_inverse(version: i64, payload: &str, checksum: &str) -> (r: Result<
    (),
    AppError,
>)
    ensures
        if version != INVERSE_VERSION {
            r matches Err(e) && e@ == error::app_error(
                ErrorCode::ChangesetCorrupt,
                "sparse inverse patch version is unsupported"@,
            )
        } else if digest::text_digest(payload@) != checksum@ {
            r matches Err(e) && e@ == error::app_error(
                ErrorCode::ChangesetCorrupt,
                "sparse inverse patch checksum does not match"@,
            )
        } else {
            r is Ok
        },
{
    if version != INVERSE_VERSION {
        return Err(
            AppError::new(
                ErrorCode::ChangesetCorrupt,
                "sparse inverse patch version is unsupported",
            ),
        );
    }
    if !same_text(hash_content(payload).as_str(), checksum) {
        return Err(
            AppError::new(
                ErrorCode::ChangesetCorrupt,
                "sparse inverse patch checksum does not match",
            ),
        );
    }
    Ok(())
}

// ---------------------------------------------------------------------------
// Snapshots
// ---------------------------------------------------------------------------

/// A page of a store, where it is there.
pub open spec fn page_of(store: StoreView, slug: Seq<char>) -> Option<PageView> {
    if store.pages.dom().contains(slug) {
        Some(store.pages[slug])
    } else {
        None
    }
}

/// The fingerprint of a page, or that there is none.
pub open spec fn page_state(page: Option<PageView>) -> Seq<char> {
    match page {
        Some(page) => pages::page_mark(page),
        None => "absent"@,
    }
}

/// The other pages that link to a page, by slug.
pub open spec fn inbound_links(store: StoreView, slug: Seq<char>) -> Seq<Seq<char>> {
    text::sorted(pages::linking(store, slug).remove(slug))
}

/// The observations of a source among the first `count` at a path.
pub open spec fn observations_at(
    path: Seq<char>,
    log: Seq<PathRevisionView>,
    id: i64,
    count: nat,
) -> Seq<SourcePathView>
    decreases count,
{
    if count == 0 || count > log.len() {
        Seq::empty()
    } else {
        let head = observations_at(path, log, id, (count - 1) as nat);
        let one = log[count - 1];
        if one.source_id == id {
            head.push(
                SourcePathView {
                    tracked_path: path,
                    revision: one.revision,
                    observed_at: one.observed_at,
                },
            )
        } else {
            head
        }
    }
}

/// The observations of a source at the first `count` paths.
pub open spec fn observations_of(
    paths: Map<Seq<char>, Seq<PathRevisionView>>,
    names: Seq<Seq<char>>,
    id: i64,
    count: nat,
) -> Seq<SourcePathView>
    decreases count,
{
    if count == 0 || count > names.len() {
        Seq::empty()
    } else {
        let path = names[count - 1];
        observations_of(paths, names, id, (count - 1) as nat) + observations_at(
            path,
            paths[path],
            id,
            paths[path].len(),
        )
    }
}

/// A source of a store with its job and its paths, where both are there.
pub open spec fn source_snapshot(store: StoreView, id: i64) -> Option<SourceSnapshotView> {
    if store.sources.dom().contains(id) && store.ingest_jobs.dom().contains(id) {
        let names = table::ordered::<String>(store.paths.dom());
        Some(
            SourceSnapshotView {
                id,
                source: store.sources[id],
                ingest: store.ingest_jobs[id],
                paths: observations_of(store.paths, names, id, names.len()),
            },
        )
    } else {
        None
    }
}

/// A job as JSON.
pub open spec fn ingest_json(job: IngestView) -> JsonView {
    JsonView::Object(
        seq![
            json::entry("analysis"@, spans::optional_text_json(job.analysis)),
            json::entry("attempts"@, JsonView::Int(job.attempts as int)),
            json::entry("last_error"@, spans::optional_text_json(job.last_error)),
            json::entry(
                "no_derived_pages_reason"@,
                spans::optional_text_json(job.no_derived_pages_reason),
            ),
            json::entry("status"@, JsonView::Text(job.status)),
            json::entry("updated_at"@, JsonView::Text(job.updated_at)),
        ],
    )
}

/// What the fingerprint of a source covers: of its paths the names alone.
pub open spec fn source_json(snapshot: SourceSnapshotView) -> JsonView {
    JsonView::Object(
        seq![
            json::entry("content"@, JsonView::Text(snapshot.source.content)),
            json::entry("content_hash"@, JsonView::Text(snapshot.source.content_hash)),
            json::entry("created_at"@, JsonView::Text(snapshot.source.created_at)),
            json::entry("id"@, JsonView::Int(snapshot.id as int)),
            json::entry("ingest"@, ingest_json(snapshot.ingest)),
            json::entry("origin"@, JsonView::Text(snapshot.source.origin)),
            json::entry(
                "paths"@,
                pages::texts_json(
                    snapshot.paths.map_values(|path: SourcePathView| path.tracked_path),
                ),
            ),
            json::entry(
                "structural_navigation"@,
                JsonView::Bool(snapshot.source.structural_navigation),
            ),
            json::entry("title"@, spans::optional_text_json(snapshot.source.title)),
        ],
    )
}

/// The fingerprint of a source.
pub open spec fn source_mark(snapshot: SourceSnapshotView) -> Seq<char> {
    digest::text_digest(json::canonical_text(source_json(snapshot)))
}

/// The fingerprint of a source, or that there is none.
pub open spec fn source_state(snapshot: Option<SourceSnapshotView>) -> Seq<char> {
    match snapshot {
        Some(snapshot) => source_mark(snapshot),
        None => "absent"@,
    }
}

/// The observations at a path as JSON.
pub open spec fn path_json(log: Seq<PathRevisionView>) -> JsonView {
    JsonView::Array(
        log.map_values(
            |one: PathRevisionView|
                JsonView::Object(
                    seq![
                        json::entry("observed_at"@, JsonView::Text(one.observed_at)),
                        json::entry("revision"@, JsonView::Int(one.revision as int)),
                        json::entry("source_id"@, JsonView::Int(one.source_id as int)),
                    ],
                ),
        ),
    )
}

/// The fingerprint of a tracked path.
pub open spec fn path_mark(log: Seq<PathRevisionView>) -> Seq<char> {
    digest::text_digest(json::canonical_text(path_json(log)))
}

fn encode_ingest(job: &IngestRow) -> (r: Json)
    ensures
        r@ == ingest_json(job@),
{
    let mut entries: Vec<(String, Json)> = Vec::new();
    entries.push((owned("analysis"), encode_optional(&job.analysis)));
    entries.push((owned("attempts"), Json::Int(job.attempts)));
    entries.push((owned("last_error"), encode_optional(&job.last_error)));
    entries.push(
        (owned("no_derived_pages_reason"), encode_optional(&job.no_derived_pages_reason)),
    );
    entries.push((owned("status"), Json::text(job.status.as_str())));
    entries.push((owned("updated_at"), Json::text(job.updated_at.as_str())));
    assert(json::entry_views(entries@) =~= ingest_json(job@)->Object_0);
    Json::object(entries)
}

/// The fingerprint of a source.
pub fn sparse_source_fingerprint(snapshot: &SourceSnapshot) -> (r: String)
    ensures
        r@ == source_mark(snapshot@),
{
    let mut names: Vec<String> = Vec::new();
    let mut i: usize = 0;
    while i < snapshot.paths.len()
        invariant
            i <= snapshot.paths@.len(),
            names@.len() == i,
            forall|j: int|
                0 <= j < i ==> #[trigger] names@[j]@ == snapshot.paths@[j]@.tracked_path,
        decreases snapshot.paths@.len() - i,
    {
        names.push(owned(snapshot.paths[i].tracked_path.as_str()));
        i += 1;
    }
    assert(text::views(names@) =~= snapshot@.paths.map_values(
        |path: SourcePathView| path.tracked_path,
    ));
    let mut entries: Vec<(String, Json)> = Vec::new();
    entries.push((owned("content"), Json::text(snapshot.source.content.as_str())));
    entries.push((owned("content_hash"), Json::text(snapshot.source.content_hash.as_str())));
    entries.push((owned("created_at"), Json::text(snapshot.source.created_at.as_str())));
    entries.push((owned("id"), Json::Int(snapshot.id)));
    entries.push((owned("ingest"), encode_ingest(&snapshot.ingest)));
    entries.push((owned("origin"), Json::text(snapshot.source.origin.as_str())));
    entries.push((owned("paths"), encode_texts(&names)));
    entries.push(
        (owned("structural_navigation"), Json::Bool(snapshot.source.structural_navigation)),
    );
    entries.push((owned("title"), encode_optional(&snapshot.source.title)));
    assert(json::entry_views(entries@) =~= source_json(snapshot@)->Object_0);
    let whole = Json::object(entries);
    hash_content(canonical_sync_value(&whole).as_str())
}

/// The fingerprint of a tracked path.
pub fn sparse_tracked_path_fingerprint(log: &Vec<PathRevision>) -> (r: String)
    ensures
        r@ == path_mark(text::views(log@)),
{
    let ghost goal = path_json(text::views(log@));
    let mut items: Vec<Json> = Vec::new();
    let mut i: usize = 0;
    while i < log.len()
        invariant
            i <= log@.len(),
            items@.len() == i,
            forall|j: int| 0 <= j < i ==> (#[trigger] items@[j])@ == goal->Array_0[j],
        decreases log@.len() - i,
    {
        let one = &log[i];
        let mut entries: Vec<(String, Json)> = Vec::new();
        entries.push((owned("observed_at"), Json::text(one.observed_at.as_str())));
        entries.push((owned("revision"), Json::Int(one.revision)));
        entries.push((owned("source_id"), Json::Int(one.source_id)));
        proof {
            assert(text::views(log@)[i as int] == one@);
            assert(json::entry_views(entries@) =~= goal->Array_0[i as int]->Object_0);
        }
        items.push(Json::object(entries));
        i += 1;
    }
    proof {
        json::lemma_array_view(items);
        assert(text::views(items@) =~= goal->Array_0);
    }
    let whole = Json::Array(items);
    hash_content(canonical_sync_value(&whole).as_str())
}

fn list_observations_at(path: &str, log: &PathLog, id: i64) -> (r: Vec<SourcePath>)
    ensures
        text::views(r@) == observations_at(path@, log@, id, log@.len()),
{
    assert(log@.len() == log.list@.len());
    let mut out: Vec<SourcePath> = Vec::new();
    assert(text::views(out@) =~= Seq::empty());
    let mut i: usize = 0;
    while i < log.list.len()
        invariant
            i <= log.list@.len() == log@.len(),
            text::views(out@) == observations_at(path@, log@, id, i as nat),
        decreases log.list@.len() - i,
    {
        let one = &log.list[i];
        assert(log@[i as int] == one@);
        if one.source_id == id {
            let seen = SourcePath {
                tracked_path: owned(path),
                revision: one.revision,
                observed_at: owned(one.observed_at.as_str()),
            };
            proof {
                text::lemma_views_push(out@, seen);
            }
            out.push(seen);
        }
        i += 1;
    }
    out
}

impl Store {
    /// A page, where it is there.
    pub fn load_sparse_page_snapshot(&self, slug: &str) -> (r: Option<PageRow>)
        ensures
            text::opt_view(r) == page_of(self@, slug@),
    {
        match self.pages.get(&owned(slug)) {
            Some(page) => Some(page.duplicate()),
            None => None,
        }
    }

    /// The other pages that link to a page, by slug.
    pub fn load_sparse_page_inbound_links(&self, slug: &str) -> (r: Vec<String>)
        ensures
            text::views(r@) == inbound_links(self@, slug@),
    {
        let all = self.backlinks(slug);
        let ghost from = text::views(all@);
        let ghost goal = pages::linking(self@, slug@).remove(slug@);
        let mut out: Vec<String> = Vec::new();
        let mut i: usize = 0;
        while i < all.len()
            invariant
                i <= all@.len() == from.len(),
                from == text::views(all@),
                text::ascending(text::views(out@)),
                forall|t: Seq<char>| #[trigger]
                    text::views(out@).to_set().contains(t) == (from.take(i as int).contains(t) && t
                        != slug@),
            decreases all@.len() - i,
        {
            proof {
                table::lemma_take_more(from, i as int);
                assert(from[i as int] == all@[i as int]@);
            }
            if !same_text(all[i].as_str(), slug) {
                text::add_text(&mut out, all[i].as_str());
            }
            i += 1;
        }
        proof {
            assert(from.take(i as int) =~= from);
            assert forall|t: Seq<char>| text::views(out@).to_set().contains(t) == goal.contains(
                t,
            ) by {
                assert(from.to_set().contains(t) == pages::linking(self@, slug@).contains(t));
            }
            assert(text::views(out@).to_set() =~= goal);
            text::lemma_sorted_is(text::views(out@));
        }
        out
    }

    /// A source with its job and its paths, where both are there.
    pub fn load_sparse_source_snapshot(&self, id: i64) -> (r: Option<SourceSnapshot>)
        ensures
            text::opt_view(r) == source_snapshot(self@, id),
    {
        let source = match self.sources.get(&id) {
            Some(source) => source,
            None => {
                return None;
            },
        };
        let ingest = match self.ingest_jobs.get(&id) {
            Some(ingest) => ingest,
            None => {
                return None;
            },
        };
        let n = self.paths.len();
        let ghost names = self.paths.keys();
        proof {
            table::lemma_ordered_is::<String>(names, self@.paths.dom());
        }
        let mut paths: Vec<SourcePath> = Vec::new();
        assert(text::views(paths@) =~= Seq::empty());
        let mut i: usize = 0;
        while i < n
            invariant
                i <= n == names.len(),
                names == self.paths.keys(),
                text::views(paths@) == observations_of(self@.paths, names, id, i as nat),
            decreases n - i,
        {
            let ghost was = paths@;
            let mut more = list_observations_at(
                self.paths.key_at(i).as_str(),
                self.paths.value_at(i),
                id,
            );
            let ghost added = more@;
            paths.append(&mut more);
            assert(text::views(paths@) =~= text::views(was) + text::views(added));
            i += 1;
        }
        Some(
            SourceSnapshot {
                id,
                source: source.duplicate(),
                ingest: ingest.duplicate(),
                paths,
            },
        )
    }

    /// The observations at a path.
    pub fn load_sparse_tracked_path(&self, path: &str) -> (r: Vec<PathRevision>)
        ensures
            text::views(r@) == sources::path_log(self@.paths, path@),
    {
        match self.paths.get(&owned(path)) {
            Some(log) => copy_records(&log.list),
            None => {
                let none: Vec<PathRevision> = Vec::new();
                assert(text::views(none@) =~= Seq::empty());
                none
            },
        }
    }
}

// ---------------------------------------------------------------------------
// Projections
// ---------------------------------------------------------------------------

/// A path after the first `count` of the staged observations: each that shows
/// another source than the last gets the next revision.
pub open spec fn path_projected(
    before: Seq<PathRevisionView>,
    staged: Seq<PathRevisionView>,
    count: nat,
) -> Result<Seq<PathRevisionView>, AppErrorView>
    decreases count,
{
    if count == 0 || count > staged.len() {
        Ok(before)
    } else {
        match path_projected(before, staged, (count - 1) as nat) {
            Err(e) => Err(e),
            Ok(log) => {
                let one = staged[count - 1];
                if log.len() > 0 && log.last().source_id == one.source_id {
                    Ok(log)
                } else if log.len() > 0 && log.last().revision >= i64::MAX {
                    error::refused(ErrorCode::DatabaseError, "path revisions are exhausted"@)
                } else {
                    Ok(
                        log.push(
                            PathRevisionView {
                                revision: if log.len() > 0 {
                                    (log.last().revision + 1) as i64
                                } else {
                                    1
                                },
                                ..one
                            },
                        ),
                    )
                }
            },
        }
    }
}

proof fn lemma_projected_stop(
    before: Seq<PathRevisionView>,
    staged: Seq<PathRevisionView>,
    count: nat,
    more: nat,
)
    requires
        count <= more <= staged.len(),
        path_projected(before, staged, count) is Err,
    ensures
        path_projected(before, staged, more) == path_projected(before, staged, count),
    decreases more,
{
    if count < more {
        lemma_projected_stop(before, staged, count, (more - 1) as nat);
    }
}

/// A path after the staged observations.
pub fn project_sparse_tracked_path(before: &Vec<PathRevision>, staged: &Vec<PathRevision>) -> (r:
    Result<Vec<PathRevision>, AppError>)
    ensures
        match path_projected(text::views(before@), text::views(staged@), staged@.len()) {
            Ok(log) => r matches Ok(got) && text::views(got@) == log,
            Err(e) => r matches Err(got) && got@ == e,
        },
{
    let ghost start = text::views(before@);
    let ghost all = text::views(staged@);
    let mut log = copy_records(before);
    let mut i: usize = 0;
    while i < staged.len()
        invariant
            i <= staged@.len() == all.len(),
            all == text::views(staged@),
            path_projected(start, all, i as nat) == Ok::<Seq<PathRevisionView>, AppErrorView>(
                text::views(log@),
            ),
        decreases staged@.len() - i,
    {
        let one = &staged[i];
        assert(all[i as int] == one@);
        let n = log.len();
        assert(text::views(log@).len() == n);
        let mut revision: i64 = 1;
        let mut repeated = false;
        if n > 0 {
            let head = &log[n - 1];
            assert(text::views(log@).last() == head@);
            repeated = head.source_id == one.source_id;
            if !repeated {
                if head.revision >= i64::MAX {
                    proof {
                        lemma_projected_stop(start, all, (i + 1) as nat, all.len());
                    }
                    return Err(
                        AppError::new(ErrorCode::DatabaseError, "path revisions are exhausted"),
                    );
                }
                revision = head.revision + 1;
            }
        }
        if !repeated {
            let next = PathRevision {
                revision,
                source_id: one.source_id,
                observed_at: owned(one.observed_at.as_str()),
            };
            proof {
                text::lemma_views_push(log@, next);
            }
            log.push(next);
        }
        i += 1;
    }
    Ok(log)
}

/// A tag after one more operation of a draft; `theirs` is the tag in the draft.
pub open spec fn tag_step(
    so_far: TagSnapshotView,
    theirs: TagSnapshotView,
    op: OperationView,
    tag: Seq<char>,
) -> Result<TagSnapshotView, AppErrorView> {
    if !touched::is_tag_action(op.action) || op.detail.text_at("tag"@) != Some(tag) {
        Ok(so_far)
    } else if op.action == "tag_set"@ {
        match op.detail.text_at("page"@) {
            None => Err(sparse_merge::lacks_page("tag_set"@)),
            Some(page) => Ok(
                TagSnapshotView {
                    policy: if so_far.policy is None {
                        theirs.policy
                    } else {
                        so_far.policy
                    },
                    memberships: if theirs.memberships.dom().contains(page) {
                        so_far.memberships.insert(page, theirs.memberships[page])
                    } else {
                        so_far.memberships.remove(page)
                    },
                },
            ),
        }
    } else if op.action == "tag_remove"@ {
        match op.detail.text_at("page"@) {
            None => Err(sparse_merge::lacks_page("tag_remove"@)),
            Some(page) => Ok(
                TagSnapshotView { memberships: so_far.memberships.remove(page), ..so_far },
            ),
        }
    } else if op.action == "tag_delete"@ {
        Ok(TagSnapshotView { policy: None, memberships: Map::empty() })
    } else {
        Ok(TagSnapshotView { policy: theirs.policy, ..so_far })
    }
}

/// A tag after the first `count` operations of a draft.
pub open spec fn tag_steps(
    before: TagSnapshotView,
    theirs: TagSnapshotView,
    operations: Seq<OperationView>,
    tag: Seq<char>,
    count: nat,
) -> Result<TagSnapshotView, AppErrorView>
    decreases count,
{
    if count == 0 || count > operations.len() {
        Ok(before)
    } else {
        match tag_steps(before, theirs, operations, tag, (count - 1) as nat) {
            Err(e) => Err(e),
            Ok(so_far) => tag_step(so_far, theirs, operations[count - 1], tag),
        }
    }
}

/// A tag as a draft will leave it.
pub open spec fn tag_projected(before: TagSnapshotView, draft: StoreView, tag: Seq<char>) -> Result<
    TagSnapshotView,
    AppErrorView,
> {
    if changesets::draft_of(draft, None) is None {
        Err(store::no_rows())
    } else {
        let operations = changesets::staged(draft);
        tag_steps(
            before,
            staging::tag_snapshot(draft, tag),
            operations,
            tag,
            operations.len(),
        )
    }
}

proof fn lemma_steps_stop(
    before: TagSnapshotView,
    theirs: TagSnapshotView,
    operations: Seq<OperationView>,
    tag: Seq<char>,
    count: nat,
    more: nat,
)
    requires
        count <= more <= operations.len(),
        tag_steps(before, theirs, operations, tag, count) is Err,
    ensures
        tag_steps(before, theirs, operations, tag, more) == tag_steps(
            before,
            theirs,
            operations,
            tag,
            count,
        ),
    decreases more,
{
    if count < more {
        lemma_steps_stop(before, theirs, operations, tag, count, (more - 1) as nat);
    }
}

fn step_tag(tag_state: &mut TagSnapshot, theirs: &TagSnapshot, op: &OperationRow, tag: &str) -> (r:
    Result<(), AppError>)
    ensures
        match tag_step(old(tag_state)@, theirs@, op@, tag@) {
            Ok(next) => r is Ok && final(tag_state)@ == next,
            Err(e) => r matches Err(got) && got@ == e,
        },
{
    let action = op.action.as_str();
    let named = match op.detail.text_at("tag") {
        Some(name) => same_text(name.as_str(), tag),
        None => false,
    };
    if !tag_action(action) || !named {
        return Ok(());
    }
    if same_text(action, "tag_set") {
        let page = match op.detail.text_at("page") {
            Some(page) => page,
            None => {
                return Err(
                    AppError::new(
                        ErrorCode::ChangesetCorrupt,
                        join2("tag_set", " operation lacks page").as_str(),
                    ),
                );
            },
        };
        if tag_state.policy.is_none() {
            tag_state.policy = copy_record_opt(&theirs.policy);
        }
        match theirs.memberships.get(page) {
            Some(member) => {
                tag_state.memberships.put(owned(page.as_str()), member.duplicate());
            },
            None => {
                tag_state.memberships.remove(page);
            },
        }
        return Ok(());
    }
    if same_text(action, "tag_remove") {
        return match op.detail.text_at("page") {
            Some(page) => {
                tag_state.memberships.remove(page);
                Ok(())
            },
            None => Err(
                AppError::new(
                    ErrorCode::ChangesetCorrupt,
                    join2("tag_remove", " operation lacks page").as_str(),
                ),
            ),
        };
    }
    if same_text(action, "tag_delete") {
        tag_state.policy = None;
        tag_state.memberships = Table::new();
        return Ok(());
    }
    tag_state.policy = copy_record_opt(&theirs.policy);
    Ok(())
}

/// A tag as a draft will leave it.
pub fn projected_sparse_tag_snapshot(before: &TagSnapshot, draft: &Store, tag: &str) -> (r: Result<
    TagSnapshot,
    AppError,
>)
    ensures
        error::outcome(r) == tag_projected(before@, draft@, tag@),
{
    if draft.find_draft(None).is_none() {
        return Err(store::no_rows_error());
    }
    let theirs = draft.load_tag_snapshot(tag);
    let operations = draft.staged_operations();
    let ghost all = text::views(operations@);
    let mut after = before.duplicate();
    let mut i: usize = 0;
    while i < operations.len()
        invariant
            i <= operations@.len() == all.len(),
            all == text::views(operations@),
            tag_steps(before@, theirs@, all, tag@, i as nat) == Ok::<TagSnapshotView, AppErrorView>(
                after@,
            ),
        decreases operations@.len() - i,
    {
        assert(all[i as int] == operations@[i as int]@);
        if let Err(e) = step_tag(&mut after, &theirs, &operations[i], tag) {
            proof {
                lemma_steps_stop(before@, theirs@, all, tag@, (i + 1) as nat, all.len());
            }
            return Err(e);
        }
        i += 1;
    }
    Ok(after)
}

// ---------------------------------------------------------------------------
// The inverse patch of a draft
// ---------------------------------------------------------------------------

/// The inverse of a page that a draft touched.
pub open spec fn page_inverse(live: StoreView, touched: PairView, draft: StoreView) -> Result<
    PageInverseView,
    AppErrorView,
> {
    let slug = touched.first;
    let before = page_of(live, slug);
    let after = page_of(draft, slug);
    if page_state(before) != touched.second {
        error::refused(
            ErrorCode::ChangesetConflict,
            "page "@ + slug + " changed while preparing its inverse patch"@,
        )
    } else {
        Ok(
            PageInverseView {
                slug,
                inbound_links: inbound_links(live, slug),
                before,
                after,
                after_fingerprint: page_state(after),
            },
        )
    }
}

fn invert_page(live: &Store, touched: &Pair, draft: &Store) -> (r: Result<PageInverse, AppError>)
    ensures
        error::outcome(r) == page_inverse(live@, touched@, draft@),
{
    let slug = touched.first.as_str();
    let before = live.load_sparse_page_snapshot(slug);
    let after = draft.load_sparse_page_snapshot(slug);
    if !same_text(state_of_page(&before).as_str(), touched.second.as_str()) {
        return Err(
            AppError::new(
                ErrorCode::ChangesetConflict,
                join3("page ", slug, " changed while preparing its inverse patch").as_str(),
            ),
        );
    }
    let after_fingerprint = state_of_page(&after);
    Ok(
        PageInverse {
            slug: owned(slug),
            inbound_links: live.load_sparse_page_inbound_links(slug),
            before,
            after,
            after_fingerprint,
        },
    )
}

/// The fingerprint of a page, or that there is none.
pub fn state_of_page(page: &Option<PageRow>) -> (r: String)
    ensures
        r@ == page_state(text::opt_view(*page)),
{
    match page {
        Some(page) => page_content_fingerprint(page),
        None => owned("absent"),
    }
}

/// The fingerprint of a source, or that there is none.
pub fn state_of_source(snapshot: &Option<SourceSnapshot>) -> (r: String)
    ensures
        r@ == source_state(text::opt_view(*snapshot)),
{
    match snapshot {
        Some(snapshot) => sparse_source_fingerprint(snapshot),
        None => owned("absent"),
    }
}

/// The inverses of the first `count` pages that a draft touched.
pub open spec fn page_inverses(
    store: StoreView,
    items: Seq<PairView>,
    draft: StoreView,
    count: nat,
) -> Result<Seq<PageInverseView>, AppErrorView>
    decreases count,
{
    if count == 0 || count > items.len() {
        Ok(Seq::empty())
    } else {
        match page_inverses(store, items, draft, (count - 1) as nat) {
            Err(e) => Err(e),
            Ok(head) => match page_inverse(store, items[count - 1], draft) {
                Err(e) => Err(e),
                Ok(one) => Ok(head.push(one)),
            },
        }
    }
}

proof fn lemma_page_inverses_stop(
    store: StoreView,
    items: Seq<PairView>,
    draft: StoreView,
    count: nat,
    more: nat,
)
    requires
        count <= more <= items.len(),
        page_inverses(store, items, draft, count) is Err,
    ensures
        page_inverses(store, items, draft, more) == page_inverses(store, items, draft, count),
    decreases more,
{
    if count < more {
        lemma_page_inverses_stop(store, items, draft, count, (more - 1) as nat);
    }
}

/// The inverses of the pages that a draft touched.
fn invert_pages(
    live: &Store,
    items: &Vec<Pair>,
    draft: &Store,
) -> (r: Result<Vec<PageInverse>, AppError>)
    ensures
        match page_inverses(live@, text::views(items@), draft@, items@.len()) {
            Ok(list) => r matches Ok(got) && text::views(got@) == list,
            Err(e) => r matches Err(got) && got@ == e,
        },
{
    let ghost all = text::views(items@);
    let mut out: Vec<PageInverse> = Vec::new();
    assert(text::views(out@) =~= Seq::empty());
    let mut i: usize = 0;
    while i < items.len()
        invariant
            i <= items@.len() == all.len(),
            all == text::views(items@),
            page_inverses(live@, all, draft@, i as nat) == Ok::<Seq<PageInverseView>, AppErrorView>(
                text::views(out@),
            ),
        decreases items@.len() - i,
    {
        assert(all[i as int] == items@[i as int]@);
        match invert_page(live, &items[i], draft) {
            Ok(one) => {
                proof {
                    text::lemma_views_push(out@, one);
                }
                out.push(one);
            },
            Err(e) => {
                proof {
                    lemma_page_inverses_stop(live@, all, draft@, (i + 1) as nat, all.len());
                }
                return Err(e);
            },
        }
        i += 1;
    }
    Ok(out)
}

/// The inverse of a key of the metadata that a draft set.
pub open spec fn meta_inverse(live: StoreView, touched: PairView, draft: StoreView) -> Result<
    MetaInverseView,
    AppErrorView,
> {
    match store::meta_value(live, touched.first) {
        None => Err(store::no_rows()),
        Some(before) => match store::meta_value(draft, touched.first) {
            None => Err(store::no_rows()),
            Some(after) => Ok(
                MetaInverseView {
                    key: touched.first,
                    before,
                    after_fingerprint: digest::text_digest(after),
                },
            ),
        },
    }
}

fn invert_meta(live: &Store, touched: &Pair, draft: &Store) -> (r: Result<MetaInverse, AppError>)
    ensures
        error::outcome(r) == meta_inverse(live@, touched@, draft@),
{
    let before = match live.meta_text(touched.first.as_str()) {
        Some(before) => before,
        None => {
            return Err(store::no_rows_error());
        },
    };
    match draft.meta_text(touched.first.as_str()) {
        Some(after) => Ok(
            MetaInverse {
                key: owned(touched.first.as_str()),
                before,
                after_fingerprint: hash_content(after.as_str()),
            },
        ),
        None => Err(store::no_rows_error()),
    }
}

/// The inverses of the first `count` keys of the metadata that a draft set.
pub open spec fn meta_inverses(
    store: StoreView,
    items: Seq<PairView>,
    draft: StoreView,
    count: nat,
) -> Result<Seq<MetaInverseView>, AppErrorView>
    decreases count,
{
    if count == 0 || count > items.len() {
        Ok(Seq::empty())
    } else {
        match meta_inverses(store, items, draft, (count - 1) as nat) {
            Err(e) => Err(e),
            Ok(head) => match meta_inverse(store, items[count - 1], draft) {
                Err(e) => Err(e),
                Ok(one) => Ok(head.push(one)),
            },
        }
    }
}

proof fn lemma_meta_inverses_stop(
    store: StoreView,
    items: Seq<PairView>,
    draft: StoreView,
    count: nat,
    more: nat,
)
    requires
        count <= more <= items.len(),
        meta_inverses(store, items, draft, count) is Err,
    ensures
        meta_inverses(store, items, draft, more) == meta_inverses(store, items, draft, count),
    decreases more,
{
    if count < more {
        lemma_meta_inverses_stop(store, items, draft, count, (more - 1) as nat);
    }
}

/// The inverses of the keys of the metadata that a draft set.
fn invert_metas(
    live: &Store,
    items: &Vec<Pair>,
    draft: &Store,
) -> (r: Result<Vec<MetaInverse>, AppError>)
    ensures
        match meta_inverses(live@, text::views(items@), draft@, items@.len()) {
            Ok(list) => r matches Ok(got) && text::views(got@) == list,
            Err(e) => r matches Err(got) && got@ == e,
        },
{
    let ghost all = text::views(items@);
    let mut out: Vec<MetaInverse> = Vec::new();
    assert(text::views(out@) =~= Seq::empty());
    let mut i: usize = 0;
    while i < items.len()
        invariant
            i <= items@.len() == all.len(),
            all == text::views(items@),
            meta_inverses(live@, all, draft@, i as nat) == Ok::<Seq<MetaInverseView>, AppErrorView>(
                text::views(out@),
            ),
        decreases items@.len() - i,
    {
        assert(all[i as int] == items@[i as int]@);
        match invert_meta(live, &items[i], draft) {
            Ok(one) => {
                proof {
                    text::lemma_views_push(out@, one);
                }
                out.push(one);
            },
            Err(e) => {
                proof {
                    lemma_meta_inverses_stop(live@, all, draft@, (i + 1) as nat, all.len());
                }
                return Err(e);
            },
        }
        i += 1;
    }
    Ok(out)
}

/// The inverse of a source that a draft created.
pub open spec fn source_inverse(draft: StoreView, id: i64) -> Result<
    SourceInverseView,
    AppErrorView,
> {
    match source_snapshot(draft, id) {
        None => error::refused(
            ErrorCode::ChangesetCorrupt,
            "staged source "@ + text::decimal(id as int) + " is missing"@,
        ),
        Some(after) => Ok(
            SourceInverseView { source_id: id, before: None, after_fingerprint: source_mark(after) },
        ),
    }
}

fn invert_source(draft: &Store, id: &i64) -> (r: Result<SourceInverse, AppError>)
    ensures
        error::outcome(r) == source_inverse(draft@, id@),
{
    match draft.load_sparse_source_snapshot(*id) {
        Some(after) => Ok(
            SourceInverse {
                source_id: *id,
                before: None,
                after_fingerprint: sparse_source_fingerprint(&after),
            },
        ),
        None => Err(
            AppError::new(
                ErrorCode::ChangesetCorrupt,
                join3("staged source ", decimal_text(*id).as_str(), " is missing").as_str(),
            ),
        ),
    }
}

/// The inverses of the first `count` sources that a draft created.
pub open spec fn source_inverses(
    store: StoreView,
    items: Seq<i64>,
    count: nat,
) -> Result<Seq<SourceInverseView>, AppErrorView>
    decreases count,
{
    if count == 0 || count > items.len() {
        Ok(Seq::empty())
    } else {
        match source_inverses(store, items, (count - 1) as nat) {
            Err(e) => Err(e),
            Ok(head) => match source_inverse(store, items[count - 1]) {
                Err(e) => Err(e),
                Ok(one) => Ok(head.push(one)),
            },
        }
    }
}

proof fn lemma_source_inverses_stop(
    store: StoreView,
    items: Seq<i64>,
    count: nat,
    more: nat,
)
    requires
        count <= more <= items.len(),
        source_inverses(store, items, count) is Err,
    ensures
        source_inverses(store, items, more) == source_inverses(store, items, count),
    decreases more,
{
    if count < more {
        lemma_source_inverses_stop(store, items, count, (more - 1) as nat);
    }
}

/// The inverses of the sources that a draft created.
fn invert_sources(
    live: &Store,
    items: &Vec<i64>,
) -> (r: Result<Vec<SourceInverse>, AppError>)
    ensures
        match source_inverses(live@, text::views(items@), items@.len()) {
            Ok(list) => r matches Ok(got) && text::views(got@) == list,
            Err(e) => r matches Err(got) && got@ == e,
        },
{
    let ghost all = text::views(items@);
    let mut out: Vec<SourceInverse> = Vec::new();
    assert(text::views(out@) =~= Seq::empty());
    let mut i: usize = 0;
    while i < items.len()
        invariant
            i <= items@.len() == all.len(),
            all == text::views(items@),
            source_inverses(live@, all, i as nat) == Ok::<Seq<SourceInverseView>, AppErrorView>(
                text::views(out@),
            ),
        decreases items@.len() - i,
    {
        assert(all[i as int] == items@[i as int]@);
        match invert_source(live, &items[i]) {
            Ok(one) => {
                proof {
                    text::lemma_views_push(out@, one);
                }
                out.push(one);
            },
            Err(e) => {
                proof {
                    lemma_source_inverses_stop(live@, all, (i + 1) as nat, all.len());
                }
                return Err(e);
            },
        }
        i += 1;
    }
    Ok(out)
}

/// The inverse of a path at which a draft observed sources.
pub open spec fn tracked_path_inverse(live: StoreView, path: Seq<char>, draft: StoreView) -> Result<
    TrackedPathInverseView,
    AppErrorView,
> {
    let before = sources::path_log(live.paths, path);
    let staged = sources::path_log(draft.paths, path);
    match path_projected(before, staged, staged.len()) {
        Err(e) => Err(e),
        Ok(after) => Ok(
            TrackedPathInverseView {
                tracked_path: path,
                before,
                after,
                after_fingerprint: path_mark(after),
            },
        ),
    }
}

fn invert_tracked_path(live: &Store, path: &String, draft: &Store) -> (r: Result<
    TrackedPathInverse,
    AppError,
>)
    ensures
        error::outcome(r) == tracked_path_inverse(live@, path@, draft@),
{
    let before = live.load_sparse_tracked_path(path.as_str());
    let staged = draft.load_sparse_tracked_path(path.as_str());
    assert(text::views(staged@).len() == staged@.len());
    match project_sparse_tracked_path(&before, &staged) {
        Ok(after) => {
            let after_fingerprint = sparse_tracked_path_fingerprint(&after);
            Ok(
                TrackedPathInverse {
                    tracked_path: owned(path.as_str()),
                    before,
                    after,
                    after_fingerprint,
                },
            )
        },
        Err(e) => Err(e),
    }
}

/// The inverses of the first `count` paths at which a draft observed sources.
pub open spec fn tracked_path_inverses(
    store: StoreView,
    items: Seq<Seq<char>>,
    draft: StoreView,
    count: nat,
) -> Result<Seq<TrackedPathInverseView>, AppErrorView>
    decreases count,
{
    if count == 0 || count > items.len() {
        Ok(Seq::empty())
    } else {
        match tracked_path_inverses(store, items, draft, (count - 1) as nat) {
            Err(e) => Err(e),
            Ok(head) => match tracked_path_inverse(store, items[count - 1], draft) {
                Err(e) => Err(e),
                Ok(one) => Ok(head.push(one)),
            },
        }
    }
}

proof fn lemma_tracked_path_inverses_stop(
    store: StoreView,
    items: Seq<Seq<char>>,
    draft: StoreView,
    count: nat,
    more: nat,
)
    requires
        count <= more <= items.len(),
        tracked_path_inverses(store, items, draft, count) is Err,
    ensures
        tracked_path_inverses(store, items, draft, more) == tracked_path_inverses(store, items, draft, count),
    decreases more,
{
    if count < more {
        lemma_tracked_path_inverses_stop(store, items, draft, count, (more - 1) as nat);
    }
}

/// The inverses of the paths at which a draft observed sources.
fn invert_tracked_paths(
    live: &Store,
    items: &Vec<String>,
    draft: &Store,
) -> (r: Result<Vec<TrackedPathInverse>, AppError>)
    ensures
        match tracked_path_inverses(live@, text::views(items@), draft@, items@.len()) {
            Ok(list) => r matches Ok(got) && text::views(got@) == list,
            Err(e) => r matches Err(got) && got@ == e,
        },
{
    let ghost all = text::views(items@);
    let mut out: Vec<TrackedPathInverse> = Vec::new();
    assert(text::views(out@) =~= Seq::empty());
    let mut i: usize = 0;
    while i < items.len()
        invariant
            i <= items@.len() == all.len(),
            all == text::views(items@),
            tracked_path_inverses(live@, all, draft@, i as nat) == Ok::<Seq<TrackedPathInverseView>, AppErrorView>(
                text::views(out@),
            ),
        decreases items@.len() - i,
    {
        assert(all[i as int] == items@[i as int]@);
        match invert_tracked_path(live, &items[i], draft) {
            Ok(one) => {
                proof {
                    text::lemma_views_push(out@, one);
                }
                out.push(one);
            },
            Err(e) => {
                proof {
                    lemma_tracked_path_inverses_stop(live@, all, draft@, (i + 1) as nat, all.len());
                }
                return Err(e);
            },
        }
        i += 1;
    }
    Ok(out)
}

/// The inverse of a tag that a draft touched.
pub open spec fn tag_inverse(live: StoreView, touched: PairView, draft: StoreView) -> Result<
    TagInverseView,
    AppErrorView,
> {
    let name = touched.first;
    let before = staging::tag_snapshot(live, name);
    if staging::tag_mark(before) != touched.second {
        error::refused(
            ErrorCode::ChangesetConflict,
            "tag "@ + name + " changed while preparing its inverse patch"@,
        )
    } else {
        match tag_projected(before, draft, name) {
            Err(e) => Err(e),
            Ok(after) => Ok(
                TagInverseView { name, before, after_fingerprint: staging::tag_mark(after) },
            ),
        }
    }
}

fn invert_tag(live: &Store, touched: &Pair, draft: &Store) -> (r: Result<TagInverse, AppError>)
    ensures
        error::outcome(r) == tag_inverse(live@, touched@, draft@),
{
    let name = touched.first.as_str();
    let before = live.load_tag_snapshot(name);
    if !same_text(tag_snapshot_fingerprint(&before).as_str(), touched.second.as_str()) {
        return Err(
            AppError::new(
                ErrorCode::ChangesetConflict,
                join3("tag ", name, " changed while preparing its inverse patch").as_str(),
            ),
        );
    }
    match projected_sparse_tag_snapshot(&before, draft, name) {
        Ok(after) => Ok(
            TagInverse {
                name: owned(name),
                before,
                after_fingerprint: tag_snapshot_fingerprint(&after),
            },
        ),
        Err(e) => Err(e),
    }
}

/// The inverses of the first `count` tags that a draft touched.
pub open spec fn tag_inverses(
    store: StoreView,
    items: Seq<PairView>,
    draft: StoreView,
    count: nat,
) -> Result<Seq<TagInverseView>, AppErrorView>
    decreases count,
{
    if count == 0 || count > items.len() {
        Ok(Seq::empty())
    } else {
        match tag_inverses(store, items, draft, (count - 1) as nat) {
            Err(e) => Err(e),
            Ok(head) => match tag_inverse(store, items[count - 1], draft) {
                Err(e) => Err(e),
                Ok(one) => Ok(head.push(one)),
            },
        }
    }
}

proof fn lemma_tag_inverses_stop(
    store: StoreView,
    items: Seq<PairView>,
    draft: StoreView,
    count: nat,
    more: nat,
)
    requires
        count <= more <= items.len(),
        tag_inverses(store, items, draft, count) is Err,
    ensures
        tag_inverses(store, items, draft, more) == tag_inverses(store, items, draft, count),
    decreases more,
{
    if count < more {
        lemma_tag_inverses_stop(store, items, draft, count, (more - 1) as nat);
    }
}

/// The inverses of the tags that a draft touched.
fn invert_tags(
    live: &Store,
    items: &Vec<Pair>,
    draft: &Store,
) -> (r: Result<Vec<TagInverse>, AppError>)
    ensures
        match tag_inverses(live@, text::views(items@), draft@, items@.len()) {
            Ok(list) => r matches Ok(got) && text::views(got@) == list,
            Err(e) => r matches Err(got) && got@ == e,
        },
{
    let ghost all = text::views(items@);
    let mut out: Vec<TagInverse> = Vec::new();
    assert(text::views(out@) =~= Seq::empty());
    let mut i: usize = 0;
    while i < items.len()
        invariant
            i <= items@.len() == all.len(),
            all == text::views(items@),
            tag_inverses(live@, all, draft@, i as nat) == Ok::<Seq<TagInverseView>, AppErrorView>(
                text::views(out@),
            ),
        decreases items@.len() - i,
    {
        assert(all[i as int] == items@[i as int]@);
        match invert_tag(live, &items[i], draft) {
            Ok(one) => {
                proof {
                    text::lemma_views_push(out@, one);
                }
                out.push(one);
            },
            Err(e) => {
                proof {
                    lemma_tag_inverses_stop(live@, all, draft@, (i + 1) as nat, all.len());
                }
                return Err(e);
            },
        }
        i += 1;
    }
    Ok(out)
}

/// A changeset identifier that is none.
pub open spec fn bad_changeset_id() -> AppErrorView {
    error::app_error(
        ErrorCode::ChangesetCorrupt,
        "changeset id is not a 64-character hexadecimal value"@,
    )
}

/// Checks the identifier of a changeset.
pub fn validate_changeset_id(id: &str) -> (r: Result<(), AppError>)
    ensures
        if text::is_hex(id@, 64) {
            r is Ok
        } else {
            r matches Err(e) && e@ == bad_changeset_id()
        },
{
    if hex(id, 64) {
        Ok(())
    } else {
        Err(
            AppError::new(
                ErrorCode::ChangesetCorrupt,
                "changeset id is not a 64-character hexadecimal value",
            ),
        )
    }
}

/// What takes a draft back after it was committed to the live store.
pub open spec fn inverse_goal(live: StoreView, draft: StoreView, changeset_id: Seq<char>) -> Result<
    InverseView,
    AppErrorView,
> {
    if !text::is_hex(changeset_id, 64) {
        Err(bad_changeset_id())
    } else {
        let slugs = touched::touched_pages(draft);
        let keys = touched::touched_meta(draft);
        let names = touched::touched_tags(draft);
        let paths = text::sorted(touched::path_targets(changesets::staged(draft)));
        match store::live_identity(live) {
            Err(e) => Err(e),
            Ok(identity) => match page_inverses(live, slugs, draft, slugs.len()) {
                Err(e) => Err(e),
                Ok(pages) => match meta_inverses(live, keys, draft, keys.len()) {
                    Err(e) => Err(e),
                    Ok(meta) => match touched::created_sources(changesets::staged_anywhere(draft)) {
                        Err(e) => Err(e),
                        Ok(created) => {
                            let ids = table::ordered::<i64>(created);
                            match source_inverses(draft, ids, ids.len()) {
                                Err(e) => Err(e),
                                Ok(sources) => if changesets::draft_of(draft, None) is None {
                                    Err(store::no_rows())
                                } else {
                                    match tracked_path_inverses(live, paths, draft, paths.len()) {
                                        Err(e) => Err(e),
                                        Ok(source_paths) => match tag_inverses(
                                            live,
                                            names,
                                            draft,
                                            names.len(),
                                        ) {
                                            Err(e) => Err(e),
                                            Ok(tags) => Ok(
                                                InverseView {
                                                    version: INVERSE_VERSION,
                                                    changeset_id,
                                                    store_id: identity.store_id,
                                                    pages,
                                                    meta,
                                                    sources,
                                                    source_paths,
                                                    tags,
                                                },
                                            ),
                                        },
                                    }
                                },
                            }
                        },
                    },
                },
            },
        }
    }
}

impl Store {
    /// What takes a draft back after it was committed to this store.
    pub fn changeset_sparse_checkpoint_create(&self, changeset_id: &str, draft: &Store) -> (r:
        Result<InversePayload, AppError>)
        ensures
            error::outcome(r) == inverse_goal(self@, draft@, changeset_id@),
    {
        if let Err(e) = validate_changeset_id(changeset_id) {
            return Err(e);
        }
        let identity = match self.identity() {
            Ok(identity) => identity,
            Err(e) => {
                return Err(e);
            },
        };
        let slugs = draft.changeset_touched_pages();
        assert(text::views(slugs@).len() == slugs@.len());
        let pages = match invert_pages(self, &slugs, draft) {
            Ok(pages) => pages,
            Err(e) => {
                return Err(e);
            },
        };
        let keys = draft.changeset_touched_meta();
        assert(text::views(keys@).len() == keys@.len());
        let meta = match invert_metas(self, &keys, draft) {
            Ok(meta) => meta,
            Err(e) => {
                return Err(e);
            },
        };
        let operations = draft.all_staged_operations();
        let ids = match list_created_sources(&operations) {
            Ok(ids) => ids,
            Err(e) => {
                return Err(e);
            },
        };
        assert(text::views(ids@) =~= ids@);
        let sources = match invert_sources(draft, &ids) {
            Ok(sources) => sources,
            Err(e) => {
                return Err(e);
            },
        };
        let paths = match draft.changeset_touched_source_paths() {
            Ok(paths) => paths,
            Err(e) => {
                return Err(e);
            },
        };
        assert(text::views(paths@).len() == paths@.len());
        let source_paths = match invert_tracked_paths(self, &paths, draft) {
            Ok(source_paths) => source_paths,
            Err(e) => {
                return Err(e);
            },
        };
        let names = draft.changeset_touched_tags();
        assert(text::views(names@).len() == names@.len());
        let tags = match invert_tags(self, &names, draft) {
            Ok(tags) => tags,
            Err(e) => {
                return Err(e);
            },
        };
        Ok(
            InversePayload {
                version: INVERSE_VERSION,
                changeset_id: owned(changeset_id),
                store_id: identity.store_id,
                pages,
                meta,
                sources,
                source_paths,
                tags,
            },
        )
    }
}

} // verus!
