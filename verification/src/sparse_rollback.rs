//! Taking a sparse changeset back.
use crate::changeset_log;
use crate::changeset_log::{encode_documents, ChangesetRollbackState, RollbackView};
use crate::changesets;
use crate::changesets::{ChangesetHistoryState, HistoryView};
use crate::digest;
use crate::digest::hash_content;
use crate::error;
use crate::error::{AppError, AppErrorView, ErrorCode};
use crate::json;
use crate::json::{Json, JsonView};
use crate::pages;
use crate::pages::page_content_fingerprint;
use crate::refusals;
use crate::refusals::{
    check_failed, fits_as_job, fits_as_observation, fits_as_policy, keep_page, refuse_page,
    unique_failed,
};
use crate::rows::{
    ChangesetView, PageRow, PageView, PathLog, PathRevision, PathRevisionView, TagRow, TagView,
};
use crate::sources;
use crate::spans;
use crate::spans::{Segments, SegmentsView};
use crate::sparse_inverse;
use crate::sparse_inverse::{
    sparse_tracked_path_fingerprint, state_of_page, state_of_source, InversePayload, InverseView,
    MetaInverse, MetaInverseView, PageInverse, PageInverseView, SourceInverse, SourceInverseView,
    SourcePath, SourcePathView, SourceSnapshot, SourceSnapshotView, TagInverse, TagInverseView,
    TrackedPathInverse, TrackedPathInverseView,
};
use crate::sparse_merge;
use crate::sparse_merge::{find_remap, RemapView, SourceIdRemap};
use crate::staging;
use crate::staging::tag_snapshot_fingerprint;
use crate::store;
use crate::store::{Store, StoreView};
use crate::table;
use crate::table::{Pair, PairView, Record, Table};
use crate::text;
use crate::text::{
    decimal_text, join2, join3, join5, natural_text, owned, same_opt, same_text, same_texts,
};
use crate::touched::pairs_of;
use vstd::prelude::*;

verus! {

// ---------------------------------------------------------------------------
// Sources under other identifiers
// ---------------------------------------------------------------------------

/// The identifiers that the first `count` moved sources have in the live store.
pub open spec fn moved_ids(remaps: Seq<RemapView>, count: nat) -> Map<i64, i64>
    decreases count,
{
    if count == 0 || count > remaps.len() {
        Map::empty()
    } else {
        moved_ids(remaps, (count - 1) as nat).insert(
            remaps[count - 1].draft_id,
            remaps[count - 1].live_id,
        )
    }
}

/// The identifiers that moved sources have in the live store.
pub fn index_remaps(remaps: &Vec<SourceIdRemap>) -> (r: Table<i64, i64>)
    ensures
        r@ == moved_ids(text::views(remaps@), remaps@.len()),
{
    let ghost all = text::views(remaps@);
    let mut ids: Table<i64, i64> = Table::new();
    let mut i: usize = 0;
    while i < remaps.len()
        invariant
            i <= remaps@.len() == all.len(),
            all == text::views(remaps@),
            ids@ == moved_ids(all, i as nat),
        decreases remaps@.len() - i,
    {
        assert(all[i as int] == remaps@[i as int]@);
        ids.put(remaps[i].draft_id, remaps[i].live_id);
        i += 1;
    }
    ids
}

/// The identifier of a source of the draft in the live store.
pub fn id_in_live(ids: &Table<i64, i64>, id: i64) -> (r: i64)
    ensures
        r == sparse_merge::live_id(ids@, id),
{
    match ids.get(&id) {
        Some(found) => *found,
        None => id,
    }
}

/// A page whose citations are told of the live store.
pub open spec fn page_moved(page: PageView, ids: Map<i64, i64>) -> PageView {
    PageView {
        source_ids: page.source_ids.map_values(|id: i64| sparse_merge::live_id(ids, id)),
        ..page
    }
}

/// Observations that are told of the live store.
pub open spec fn path_moved(log: Seq<PathRevisionView>, ids: Map<i64, i64>) -> Seq<
    PathRevisionView,
> {
    log.map_values(
        |one: PathRevisionView|
            PathRevisionView { source_id: sparse_merge::live_id(ids, one.source_id), ..one },
    )
}

fn move_page(page: &PageRow, ids: &Table<i64, i64>) -> (r: PageRow)
    ensures
        r@ == page_moved(page@, ids@),
{
    let mut next = page.duplicate();
    let mut moved: Vec<i64> = Vec::new();
    let mut i: usize = 0;
    while i < page.source_ids.len()
        invariant
            i <= page.source_ids@.len(),
            moved@.len() == i,
            forall|j: int|
                0 <= j < i ==> #[trigger] moved@[j] == sparse_merge::live_id(
                    ids@,
                    page.source_ids@[j],
                ),
        decreases page.source_ids@.len() - i,
    {
        moved.push(id_in_live(ids, page.source_ids[i]));
        i += 1;
    }
    assert(moved@ =~= page_moved(page@, ids@).source_ids);
    next.source_ids = moved;
    next
}

fn move_path(log: &Vec<PathRevision>, ids: &Table<i64, i64>) -> (r: Vec<PathRevision>)
    ensures
        text::views(r@) == path_moved(text::views(log@), ids@),
{
    let mut out: Vec<PathRevision> = Vec::new();
    let mut i: usize = 0;
    while i < log.len()
        invariant
            i <= log@.len(),
            out@.len() == i,
            forall|j: int|
                0 <= j < i ==> (#[trigger] out@[j])@ == (PathRevisionView {
                    source_id: sparse_merge::live_id(ids@, log@[j]@.source_id),
                    ..log@[j]@
                }),
        decreases log@.len() - i,
    {
        let mut one = log[i].duplicate();
        one.source_id = id_in_live(ids, one.source_id);
        out.push(one);
        i += 1;
    }
    assert(text::views(out@) =~= path_moved(text::views(log@), ids@));
    out
}

// ---------------------------------------------------------------------------
// Obstacles
// ---------------------------------------------------------------------------

/// An entity that changed after the changeset was committed.
pub open spec fn later_change(subject: Seq<char>, entity: Seq<char>, identifier: JsonView)
    -> AppErrorView {
    error::entity_error(
        ErrorCode::ChangesetRollbackConflict,
        subject + " changed after this changeset committed"@,
        entity,
        identifier,
    )
}

fn later_change_error(subject: &str, entity: &str, identifier: Json) -> (r: AppError)
    ensures
        r@ == later_change(subject@, entity@, identifier@),
{
    AppError::about(
        ErrorCode::ChangesetRollbackConflict,
        join2(subject, " changed after this changeset committed").as_str(),
        entity,
        identifier,
    )
}

/// What stands in the way of a page.
pub open spec fn page_obstacle(store: StoreView, page: PageInverseView, ids: Map<i64, i64>)
    -> Option<AppErrorView> {
    let observed = sparse_inverse::page_state(sparse_inverse::page_of(store, page.slug));
    let expected = match page.after {
        Some(after) => pages::page_mark(page_moved(after, ids)),
        None => page.after_fingerprint,
    };
    if observed != expected {
        Some(later_change("page "@ + page.slug, "page"@, JsonView::Text(page.slug)))
    } else {
        None
    }
}

fn find_page_obstacle(live: &Store, page: &PageInverse, ids: &Table<i64, i64>) -> (r: Option<
    AppError,
>)
    ensures
        text::opt_view(r) == page_obstacle(live@, page@, ids@),
{
    let slug = page.slug.as_str();
    let observed = state_of_page(&live.load_sparse_page_snapshot(slug));
    let expected = match &page.after {
        Some(after) => page_content_fingerprint(&move_page(after, ids)),
        None => owned(page.after_fingerprint.as_str()),
    };
    if same_text(observed.as_str(), expected.as_str()) {
        None
    } else {
        Some(later_change_error(join2("page ", slug).as_str(), "page", Json::text(slug)))
    }
}

/// What stands in the way of pages.
pub open spec fn page_obstacles(
    store: StoreView,
    items: Seq<PageInverseView>,
    ids: Map<i64, i64>,
) -> Option<AppErrorView>
    decreases items.len(),
{
    if items.len() == 0 {
        None
    } else {
        match page_obstacle(store, items[0], ids) {
            Some(e) => Some(e),
            None => page_obstacles(store, items.drop_first(), ids),
        }
    }
}

/// What stands in the way of pages.
fn find_page_obstacles(
    live: &Store,
    items: &Vec<PageInverse>,
    ids: &Table<i64, i64>,
) -> (r: Option<AppError>)
    ensures
        text::opt_view(r) == page_obstacles(live@, text::views(items@), ids@),
{
    let ghost all = text::views(items@);
    let mut i: usize = 0;
    assert(all.skip(0) =~= all);
    while i < items.len()
        invariant
            i <= items@.len() == all.len(),
            all == text::views(items@),
            page_obstacles(live@, all, ids@) == page_obstacles(live@, all.skip(i as int), ids@),
        decreases items@.len() - i,
    {
        assert(all.skip(i as int)[0] == items@[i as int]@);
        assert(all.skip(i as int).drop_first() =~= all.skip(i + 1));
        if let Some(e) = find_page_obstacle(live, &items[i], ids) {
            return Some(e);
        }
        i += 1;
    }
    None
}

/// What stands in the way of a key of the metadata.
pub open spec fn meta_obstacle(store: StoreView, entry: MetaInverseView) -> Option<AppErrorView> {
    match store::meta_value(store, entry.key) {
        None => Some(store::no_rows()),
        Some(observed) => if digest::text_digest(observed) != entry.after_fingerprint {
            Some(later_change(entry.key, "meta"@, JsonView::Text(entry.key)))
        } else {
            None
        },
    }
}

fn find_meta_obstacle(live: &Store, entry: &MetaInverse) -> (r: Option<AppError>)
    ensures
        text::opt_view(r) == meta_obstacle(live@, entry@),
{
    let key = entry.key.as_str();
    let observed = match live.meta_text(key) {
        Some(observed) => observed,
        None => {
            return Some(store::no_rows_error());
        },
    };
    if same_text(hash_content(observed.as_str()).as_str(), entry.after_fingerprint.as_str()) {
        None
    } else {
        Some(later_change_error(key, "meta", Json::text(key)))
    }
}

/// What stands in the way of the metadata.
pub open spec fn meta_obstacles(
    store: StoreView,
    items: Seq<MetaInverseView>,
) -> Option<AppErrorView>
    decreases items.len(),
{
    if items.len() == 0 {
        None
    } else {
        match meta_obstacle(store, items[0]) {
            Some(e) => Some(e),
            None => meta_obstacles(store, items.drop_first()),
        }
    }
}

/// What stands in the way of the metadata.
fn find_meta_obstacles(
    live: &Store,
    items: &Vec<MetaInverse>,
) -> (r: Option<AppError>)
    ensures
        text::opt_view(r) == meta_obstacles(live@, text::views(items@)),
{
    let ghost all = text::views(items@);
    let mut i: usize = 0;
    assert(all.skip(0) =~= all);
    while i < items.len()
        invariant
            i <= items@.len() == all.len(),
            all == text::views(items@),
            meta_obstacles(live@, all) == meta_obstacles(live@, all.skip(i as int)),
        decreases items@.len() - i,
    {
        assert(all.skip(i as int)[0] == items@[i as int]@);
        assert(all.skip(i as int).drop_first() =~= all.skip(i + 1));
        if let Some(e) = find_meta_obstacle(live, &items[i]) {
            return Some(e);
        }
        i += 1;
    }
    None
}

/// A source of the draft is said somewhere to have been known in the live store already.
pub open spec fn was_known(remaps: Seq<RemapView>, id: i64) -> bool {
    exists|k: int|
        0 <= k < remaps.len() && (#[trigger] remaps[k]).draft_id == id && !remaps[k].created
}

/// A source of the draft was known in the live store already, by what is said of it first.
pub open spec fn first_known(remaps: Seq<RemapView>, id: i64) -> bool {
    sparse_merge::remap_of(remaps, id) is Some && !sparse_merge::remap_of(remaps, id)->0.created
}

/// A source under the identifier that it had in the draft.
pub open spec fn renamed(snapshot: Option<SourceSnapshotView>, id: i64) -> Option<
    SourceSnapshotView,
> {
    match snapshot {
        Some(snapshot) => Some(SourceSnapshotView { id, ..snapshot }),
        None => None,
    }
}

/// What stands in the way of a source.
pub open spec fn source_obstacle(
    store: StoreView,
    source: SourceInverseView,
    remaps: Seq<RemapView>,
    ids: Map<i64, i64>,
) -> Option<AppErrorView> {
    let id = sparse_merge::live_id(ids, source.source_id);
    let observed = sparse_inverse::source_state(
        renamed(sparse_inverse::source_snapshot(store, id), source.source_id),
    );
    if !was_known(remaps, source.source_id) && observed != source.after_fingerprint {
        Some(
            later_change(
                "source "@ + text::decimal(source.source_id as int),
                "source"@,
                JsonView::Int(source.source_id as int),
            ),
        )
    } else {
        None
    }
}

fn known_before(remaps: &Vec<SourceIdRemap>, id: i64) -> (r: bool)
    ensures
        r == was_known(text::views(remaps@), id),
{
    let ghost all = text::views(remaps@);
    let mut i: usize = 0;
    while i < remaps.len()
        invariant
            i <= remaps@.len() == all.len(),
            all == text::views(remaps@),
            forall|k: int| 0 <= k < i ==> !((#[trigger] all[k]).draft_id == id && !all[k].created),
        decreases remaps@.len() - i,
    {
        assert(all[i as int] == remaps@[i as int]@);
        if remaps[i].draft_id == id && !remaps[i].created {
            return true;
        }
        i += 1;
    }
    false
}

fn first_known_before(remaps: &Vec<SourceIdRemap>, id: i64) -> (r: bool)
    ensures
        r == first_known(text::views(remaps@), id),
{
    match find_remap(remaps, id) {
        Some(remap) => !remap.created,
        None => false,
    }
}

pub fn load_renamed(live: &Store, at: i64, id: i64) -> (r: Option<SourceSnapshot>)
    ensures
        text::opt_view(r) == renamed(sparse_inverse::source_snapshot(live@, at), id),
{
    match live.load_sparse_source_snapshot(at) {
        Some(snapshot) => {
            let mut snapshot = snapshot;
            snapshot.id = id;
            Some(snapshot)
        },
        None => None,
    }
}

fn find_source_obstacle(
    live: &Store,
    source: &SourceInverse,
    remaps: &Vec<SourceIdRemap>,
    ids: &Table<i64, i64>,
) -> (r: Option<AppError>)
    ensures
        text::opt_view(r) == source_obstacle(live@, source@, text::views(remaps@), ids@),
{
    if known_before(remaps, source.source_id) {
        return None;
    }
    let at = id_in_live(ids, source.source_id);
    let observed = state_of_source(&load_renamed(live, at, source.source_id));
    if same_text(observed.as_str(), source.after_fingerprint.as_str()) {
        None
    } else {
        Some(
            later_change_error(
                join2("source ", decimal_text(source.source_id).as_str()).as_str(),
                "source",
                Json::Int(source.source_id),
            ),
        )
    }
}

/// What stands in the way of sources.
pub open spec fn source_obstacles(
    store: StoreView,
    items: Seq<SourceInverseView>,
    remaps: Seq<RemapView>,
    ids: Map<i64, i64>,
) -> Option<AppErrorView>
    decreases items.len(),
{
    if items.len() == 0 {
        None
    } else {
        match source_obstacle(store, items[0], remaps, ids) {
            Some(e) => Some(e),
            None => source_obstacles(store, items.drop_first(), remaps, ids),
        }
    }
}

/// What stands in the way of sources.
fn find_source_obstacles(
    live: &Store,
    items: &Vec<SourceInverse>,
    remaps: &Vec<SourceIdRemap>,
    ids: &Table<i64, i64>,
) -> (r: Option<AppError>)
    ensures
        text::opt_view(r) == source_obstacles(live@, text::views(items@), text::views(remaps@), ids@),
{
    let ghost all = text::views(items@);
    let mut i: usize = 0;
    assert(all.skip(0) =~= all);
    while i < items.len()
        invariant
            i <= items@.len() == all.len(),
            all == text::views(items@),
            source_obstacles(live@, all, text::views(remaps@), ids@) == source_obstacles(live@, all.skip(i as int), text::views(remaps@), ids@),
        decreases items@.len() - i,
    {
        assert(all.skip(i as int)[0] == items@[i as int]@);
        assert(all.skip(i as int).drop_first() =~= all.skip(i + 1));
        if let Some(e) = find_source_obstacle(live, &items[i], remaps, ids) {
            return Some(e);
        }
        i += 1;
    }
    None
}

/// What stands in the way of a tracked path.
pub open spec fn path_obstacle(
    store: StoreView,
    path: TrackedPathInverseView,
    ids: Map<i64, i64>,
) -> Option<AppErrorView> {
    let observed = sparse_inverse::path_mark(sources::path_log(store.paths, path.tracked_path));
    let expected = if path.after.len() == 0 {
        path.after_fingerprint
    } else {
        sparse_inverse::path_mark(path_moved(path.after, ids))
    };
    if observed != expected {
        Some(
            later_change(
                "source path "@ + path.tracked_path,
                "source_path"@,
                JsonView::Text(path.tracked_path),
            ),
        )
    } else {
        None
    }
}

fn find_path_obstacle(live: &Store, path: &TrackedPathInverse, ids: &Table<i64, i64>) -> (r: Option<
    AppError,
>)
    ensures
        text::opt_view(r) == path_obstacle(live@, path@, ids@),
{
    let name = path.tracked_path.as_str();
    let observed = sparse_tracked_path_fingerprint(&live.load_sparse_tracked_path(name));
    assert(text::views(path.after@).len() == path.after@.len());
    let expected = if path.after.len() == 0 {
        owned(path.after_fingerprint.as_str())
    } else {
        sparse_tracked_path_fingerprint(&move_path(&path.after, ids))
    };
    if same_text(observed.as_str(), expected.as_str()) {
        None
    } else {
        Some(
            later_change_error(
                join2("source path ", name).as_str(),
                "source_path",
                Json::text(name),
            ),
        )
    }
}

/// What stands in the way of tracked paths.
pub open spec fn path_obstacles(
    store: StoreView,
    items: Seq<TrackedPathInverseView>,
    ids: Map<i64, i64>,
) -> Option<AppErrorView>
    decreases items.len(),
{
    if items.len() == 0 {
        None
    } else {
        match path_obstacle(store, items[0], ids) {
            Some(e) => Some(e),
            None => path_obstacles(store, items.drop_first(), ids),
        }
    }
}

/// What stands in the way of tracked paths.
fn find_path_obstacles(
    live: &Store,
    items: &Vec<TrackedPathInverse>,
    ids: &Table<i64, i64>,
) -> (r: Option<AppError>)
    ensures
        text::opt_view(r) == path_obstacles(live@, text::views(items@), ids@),
{
    let ghost all = text::views(items@);
    let mut i: usize = 0;
    assert(all.skip(0) =~= all);
    while i < items.len()
        invariant
            i <= items@.len() == all.len(),
            all == text::views(items@),
            path_obstacles(live@, all, ids@) == path_obstacles(live@, all.skip(i as int), ids@),
        decreases items@.len() - i,
    {
        assert(all.skip(i as int)[0] == items@[i as int]@);
        assert(all.skip(i as int).drop_first() =~= all.skip(i + 1));
        if let Some(e) = find_path_obstacle(live, &items[i], ids) {
            return Some(e);
        }
        i += 1;
    }
    None
}

/// What stands in the way of a tag.
pub open spec fn tag_obstacle(store: StoreView, tag: TagInverseView) -> Option<AppErrorView> {
    if staging::tag_mark(staging::tag_snapshot(store, tag.name)) != tag.after_fingerprint {
        Some(later_change("tag "@ + tag.name, "tag"@, JsonView::Text(tag.name)))
    } else {
        None
    }
}

fn find_tag_obstacle(live: &Store, tag: &TagInverse) -> (r: Option<AppError>)
    ensures
        text::opt_view(r) == tag_obstacle(live@, tag@),
{
    let name = tag.name.as_str();
    let observed = tag_snapshot_fingerprint(&live.load_tag_snapshot(name));
    if same_text(observed.as_str(), tag.after_fingerprint.as_str()) {
        None
    } else {
        Some(later_change_error(join2("tag ", name).as_str(), "tag", Json::text(name)))
    }
}

/// What stands in the way of tags.
pub open spec fn tag_obstacles(
    store: StoreView,
    items: Seq<TagInverseView>,
) -> Option<AppErrorView>
    decreases items.len(),
{
    if items.len() == 0 {
        None
    } else {
        match tag_obstacle(store, items[0]) {
            Some(e) => Some(e),
            None => tag_obstacles(store, items.drop_first()),
        }
    }
}

/// What stands in the way of tags.
fn find_tag_obstacles(
    live: &Store,
    items: &Vec<TagInverse>,
) -> (r: Option<AppError>)
    ensures
        text::opt_view(r) == tag_obstacles(live@, text::views(items@)),
{
    let ghost all = text::views(items@);
    let mut i: usize = 0;
    assert(all.skip(0) =~= all);
    while i < items.len()
        invariant
            i <= items@.len() == all.len(),
            all == text::views(items@),
            tag_obstacles(live@, all) == tag_obstacles(live@, all.skip(i as int)),
        decreases items@.len() - i,
    {
        assert(all.skip(i as int)[0] == items@[i as int]@);
        assert(all.skip(i as int).drop_first() =~= all.skip(i + 1));
        if let Some(e) = find_tag_obstacle(live, &items[i]) {
            return Some(e);
        }
        i += 1;
    }
    None
}

/// What stands in the way of taking a changeset back: whatever it changed has to be
/// as it left it.
pub open spec fn obstacle(
    store: StoreView,
    inverse: InverseView,
    remaps: Seq<RemapView>,
    ids: Map<i64, i64>,
) -> Option<AppErrorView> {
    match page_obstacles(store, inverse.pages, ids) {
        Some(e) => Some(e),
        None => match meta_obstacles(store, inverse.meta) {
            Some(e) => Some(e),
            None => match source_obstacles(store, inverse.sources, remaps, ids) {
                Some(e) => Some(e),
                None => match path_obstacles(store, inverse.source_paths, ids) {
                    Some(e) => Some(e),
                    None => tag_obstacles(store, inverse.tags),
                },
            },
        },
    }
}

fn find_obstacle(
    live: &Store,
    inverse: &InversePayload,
    remaps: &Vec<SourceIdRemap>,
    ids: &Table<i64, i64>,
) -> (r: Option<AppError>)
    ensures
        text::opt_view(r) == obstacle(live@, inverse@, text::views(remaps@), ids@),
{
    if let Some(e) = find_page_obstacles(live, &inverse.pages, ids) {
        return Some(e);
    }
    if let Some(e) = find_meta_obstacles(live, &inverse.meta) {
        return Some(e);
    }
    if let Some(e) = find_source_obstacles(live, &inverse.sources, remaps, ids) {
        return Some(e);
    }
    if let Some(e) = find_path_obstacles(live, &inverse.source_paths, ids) {
        return Some(e);
    }
    find_tag_obstacles(live, &inverse.tags)
}

// ---------------------------------------------------------------------------
// Restoring
// ---------------------------------------------------------------------------

/// The details of an operation that takes something back.
pub open spec fn rollback_note() -> JsonView {
    JsonView::Object(seq![json::entry("rollback"@, JsonView::Bool(true))])
}

/// A page without its links.
pub open spec fn unlinked(store: StoreView, page: PageInverseView) -> Result<
    StoreView,
    AppErrorView,
> {
    if store.pages.dom().contains(page.slug) {
        Ok(
            StoreView {
                pages: store.pages.insert(
                    page.slug,
                    PageView { links: Seq::empty(), ..store.pages[page.slug] },
                ),
                ..store
            },
        )
    } else {
        Ok(store)
    }
}

fn unlink_page(live: &mut Store, page: &PageInverse) -> (r: Result<(), AppError>)
    ensures
        match unlinked(old(live)@, page@) {
            Ok(next) => r is Ok && final(live)@ == next,
            Err(e) => r matches Err(got) && got@ == e,
        },
{
    let row = match live.pages.get(&page.slug) {
        Some(row) => {
            let mut row = row.duplicate();
            row.links = Vec::new();
            assert(text::views(row.links@) =~= Seq::empty());
            row
        },
        None => {
            return Ok(());
        },
    };
    live.pages.put(owned(page.slug.as_str()), row);
    Ok(())
}

/// The first `count` pages without their links.
pub open spec fn all_unlinked(
    store: StoreView,
    items: Seq<PageInverseView>,
    count: nat,
) -> Result<StoreView, AppErrorView>
    decreases count,
{
    if count == 0 || count > items.len() {
        Ok(store)
    } else {
        match all_unlinked(store, items, (count - 1) as nat) {
            Err(e) => Err(e),
            Ok(so_far) => unlinked(so_far, items[count - 1]),
        }
    }
}

proof fn lemma_all_unlinked_stop(
    store: StoreView,
    items: Seq<PageInverseView>,
    count: nat,
    more: nat,
)
    requires
        count <= more <= items.len(),
        all_unlinked(store, items, count) is Err,
    ensures
        all_unlinked(store, items, more) == all_unlinked(store, items, count),
    decreases more,
{
    if count < more {
        lemma_all_unlinked_stop(store, items, count, (more - 1) as nat);
    }
}

/// Takes the links of pages away.
fn unlink_pages(
    live: &mut Store,
    items: &Vec<PageInverse>,
) -> (r: Result<(), AppError>)
    ensures
        match all_unlinked(old(live)@, text::views(items@), items@.len()) {
            Ok(next) => r is Ok && final(live)@ == next,
            Err(e) => r matches Err(got) && got@ == e,
        },
{
    let ghost all = text::views(items@);
    let ghost start = live@;
    let mut i: usize = 0;
    while i < items.len()
        invariant
            i <= items@.len() == all.len(),
            all == text::views(items@),
            all_unlinked(start, all, i as nat) == Ok::<StoreView, AppErrorView>(live@),
        decreases items@.len() - i,
    {
        assert(all[i as int] == items@[i as int]@);
        if let Err(e) = unlink_page(live, &items[i]) {
            proof {
                lemma_all_unlinked_stop(start, all, (i + 1) as nat, all.len());
            }
            return Err(e);
        }
        i += 1;
    }
    Ok(())
}

/// A page as it was before.
#[verifier::opaque]
pub open spec fn page_restored(
    store: StoreView,
    inverse: PageInverseView,
    segments: SegmentsView,
    now: Seq<char>,
    revision: Seq<char>,
) -> Result<StoreView, AppErrorView> {
    match inverse.before {
        None => match store::recorded(
            store,
            "page_remove"@,
            inverse.slug,
            rollback_note(),
            now,
            revision,
        ) {
            Err(e) => Err(e),
            Ok(next) => Ok(pages::page_dropped(next, inverse.slug)),
        },
        Some(page) => match refusals::page_refused(store, page) {
            Some(e) => Err(e),
            None => match spans::indexed(
                StoreView {
                    pages: store.pages.insert(inverse.slug, refusals::page_kept(page)),
                    ..store
                },
                segments,
                "page"@,
                inverse.slug,
                page.body,
            ) {
                Err(e) => Err(e),
                Ok(next) => store::recorded(
                    next,
                    "page_put"@,
                    inverse.slug,
                    rollback_note(),
                    now,
                    revision,
                ),
            },
        },
    }
}

/// Restores a page in a store that is given up on an error.
pub fn restore_sparse_page(
    live: &mut Store,
    inverse: &PageInverse,
    segments: &Segments,
    now: &str,
    revision: &str,
) -> (r: Result<(), AppError>)
    ensures
        match page_restored(old(live)@, inverse@, segments@, now@, revision@) {
            Ok(next) => r is Ok && final(live)@ == next,
            Err(e) => r matches Err(got) && got@ == e,
        },
{
    proof {
        reveal(page_restored);
    }
    let slug = inverse.slug.as_str();
    let note = Json::object1("rollback", Json::Bool(true));
    let page = match &inverse.before {
        Some(page) => page,
        None => {
            if let Err(e) = live.record_operation("page_remove", slug, note, now, revision) {
                return Err(e);
            }
            live.drop_page(slug);
            return Ok(());
        },
    };
    if let Some(e) = refuse_page(live, page) {
        return Err(e);
    }
    live.pages.put(owned(slug), keep_page(page));
    if let Err(e) = live.index_spans(segments, "page", slug, page.body.as_str()) {
        return Err(e);
    }
    live.record_operation("page_put", slug, note, now, revision)
}

/// The first `count` pages as they were before.
pub open spec fn pages_restored(
    store: StoreView,
    items: Seq<PageInverseView>,
    segments: SegmentsView,
    now: Seq<char>,
    revision: Seq<char>,
    count: nat,
) -> Result<StoreView, AppErrorView>
    decreases count,
{
    if count == 0 || count > items.len() {
        Ok(store)
    } else {
        match pages_restored(store, items, segments, now, revision, (count - 1) as nat) {
            Err(e) => Err(e),
            Ok(so_far) => page_restored(so_far, items[count - 1], segments, now, revision),
        }
    }
}

proof fn lemma_pages_restored_stop(
    store: StoreView,
    items: Seq<PageInverseView>,
    segments: SegmentsView,
    now: Seq<char>,
    revision: Seq<char>,
    count: nat,
    more: nat,
)
    requires
        count <= more <= items.len(),
        pages_restored(store, items, segments, now, revision, count) is Err,
    ensures
        pages_restored(store, items, segments, now, revision, more) == pages_restored(store, items, segments, now, revision, count),
    decreases more,
{
    if count < more {
        lemma_pages_restored_stop(store, items, segments, now, revision, count, (more - 1) as nat);
    }
}

/// Restores pages in a store that is given up on an error.
fn restore_pages(
    live: &mut Store,
    items: &Vec<PageInverse>,
    segments: &Segments,
    now: &str,
    revision: &str,
) -> (r: Result<(), AppError>)
    ensures
        match pages_restored(old(live)@, text::views(items@), segments@, now@, revision@, items@.len()) {
            Ok(next) => r is Ok && final(live)@ == next,
            Err(e) => r matches Err(got) && got@ == e,
        },
{
    let ghost all = text::views(items@);
    let ghost start = live@;
    let mut i: usize = 0;
    while i < items.len()
        invariant
            i <= items@.len() == all.len(),
            all == text::views(items@),
            pages_restored(start, all, segments@, now@, revision@, i as nat) == Ok::<StoreView, AppErrorView>(live@),
        decreases items@.len() - i,
    {
        assert(all[i as int] == items@[i as int]@);
        if let Err(e) = restore_sparse_page(live, &items[i], segments, now, revision) {
            proof {
                lemma_pages_restored_stop(start, all, segments@, now@, revision@, (i + 1) as nat, all.len());
            }
            return Err(e);
        }
        i += 1;
    }
    Ok(())
}

/// A page that is gone again must be linked to as it was before it came.
pub open spec fn inbound_obstacle(store: StoreView, page: PageInverseView) -> Option<AppErrorView> {
    if page.before is None && sparse_inverse::inbound_links(store, page.slug)
        != page.inbound_links {
        Some(
            error::app_error(
                ErrorCode::ChangesetRollbackConflict,
                "page "@ + page.slug + " inbound Wiki links changed after commit"@,
            ),
        )
    } else {
        None
    }
}

fn find_inbound_obstacle(live: &Store, page: &PageInverse) -> (r: Option<AppError>)
    ensures
        text::opt_view(r) == inbound_obstacle(live@, page@),
{
    if page.before.is_some() {
        return None;
    }
    let links = live.load_sparse_page_inbound_links(page.slug.as_str());
    if same_texts(&links, &page.inbound_links) {
        None
    } else {
        Some(
            AppError::new(
                ErrorCode::ChangesetRollbackConflict,
                join3(
                    "page ",
                    page.slug.as_str(),
                    " inbound Wiki links changed after commit",
                ).as_str(),
            ),
        )
    }
}

/// The first page that is linked to otherwise than before.
pub open spec fn inbound_obstacles(
    store: StoreView,
    items: Seq<PageInverseView>,
) -> Option<AppErrorView>
    decreases items.len(),
{
    if items.len() == 0 {
        None
    } else {
        match inbound_obstacle(store, items[0]) {
            Some(e) => Some(e),
            None => inbound_obstacles(store, items.drop_first()),
        }
    }
}

/// The first page that is linked to otherwise than before.
fn find_inbound_obstacles(
    live: &Store,
    items: &Vec<PageInverse>,
) -> (r: Option<AppError>)
    ensures
        text::opt_view(r) == inbound_obstacles(live@, text::views(items@)),
{
    let ghost all = text::views(items@);
    let mut i: usize = 0;
    assert(all.skip(0) =~= all);
    while i < items.len()
        invariant
            i <= items@.len() == all.len(),
            all == text::views(items@),
            inbound_obstacles(live@, all) == inbound_obstacles(live@, all.skip(i as int)),
        decreases items@.len() - i,
    {
        assert(all.skip(i as int)[0] == items@[i as int]@);
        assert(all.skip(i as int).drop_first() =~= all.skip(i + 1));
        if let Some(e) = find_inbound_obstacle(live, &items[i]) {
            return Some(e);
        }
        i += 1;
    }
    None
}

/// All pages of a tag are there.
pub open spec fn members_there(store: StoreView, tag: TagInverseView) -> bool {
    forall|slug: Seq<char>| #[trigger]
        tag.before.memberships.dom().contains(slug) ==> store.pages.dom().contains(slug)
}

/// A tag as it was before.
#[verifier::opaque]
pub open spec fn tag_restored(
    store: StoreView,
    tag: TagInverseView,
    now: Seq<char>,
    revision: Seq<char>,
) -> Result<StoreView, AppErrorView> {
    match tag.before.policy {
        None => store::recorded(
            StoreView { tags: store.tags.remove(tag.name), ..store },
            "tag_restore"@,
            tag.name,
            rollback_note(),
            now,
            revision,
        ),
        Some(policy) => if !refusals::policy_fits(policy) {
            Err(changesets::check_failed())
        } else if !members_there(store, tag) {
            Err(store::broken_reference())
        } else {
            store::recorded(
                StoreView {
                    tags: store.tags.insert(
                        tag.name,
                        TagView { policy, members: tag.before.memberships },
                    ),
                    ..store
                },
                "tag_restore"@,
                tag.name,
                rollback_note(),
                now,
                revision,
            )
        },
    }
}

fn all_members_there(live: &Store, tag: &TagInverse) -> (r: bool)
    ensures
        r == members_there(live@, tag@),
{
    let n = tag.before.memberships.len();
    let ghost keys = tag.before.memberships.keys();
    let mut i: usize = 0;
    while i < n
        invariant
            i <= n == keys.len(),
            keys == tag.before.memberships.keys(),
            forall|j: int| 0 <= j < i ==> live@.pages.dom().contains(#[trigger] keys[j]),
        decreases n - i,
    {
        let slug = tag.before.memberships.key_at(i);
        if !live.pages.has(slug) {
            assert(keys.to_set().contains(slug@));
            assert(tag@.before.memberships.dom().contains(slug@));
            return false;
        }
        i += 1;
    }
    proof {
        assert forall|slug: Seq<char>| #[trigger]
            tag@.before.memberships.dom().contains(slug) implies live@.pages.dom().contains(
            slug,
        ) by {
            assert(keys.to_set().contains(slug));
            let j = keys.index_of(slug);
            assert(keys[j] == slug);
        }
    }
    true
}

fn restore_tag(live: &mut Store, tag: &TagInverse, now: &str, revision: &str) -> (r: Result<
    (),
    AppError,
>)
    ensures
        match tag_restored(old(live)@, tag@, now@, revision@) {
            Ok(next) => r is Ok && final(live)@ == next,
            Err(e) => r matches Err(got) && got@ == e,
        },
{
    proof {
        reveal(tag_restored);
    }
    match &tag.before.policy {
        None => {
            live.tags.remove(&tag.name);
        },
        Some(policy) => {
            if !fits_as_policy(policy) {
                return Err(check_failed());
            }
            if !all_members_there(live, tag) {
                return Err(store::broken_reference_error());
            }
            live.tags.put(
                owned(tag.name.as_str()),
                TagRow { policy: policy.duplicate(), members: tag.before.memberships.copy() },
            );
        },
    }
    let note = Json::object1("rollback", Json::Bool(true));
    live.record_operation("tag_restore", tag.name.as_str(), note, now, revision)
}

/// The first `count` tags as they were before.
pub open spec fn tags_restored(
    store: StoreView,
    items: Seq<TagInverseView>,
    now: Seq<char>,
    revision: Seq<char>,
    count: nat,
) -> Result<StoreView, AppErrorView>
    decreases count,
{
    if count == 0 || count > items.len() {
        Ok(store)
    } else {
        match tags_restored(store, items, now, revision, (count - 1) as nat) {
            Err(e) => Err(e),
            Ok(so_far) => tag_restored(so_far, items[count - 1], now, revision),
        }
    }
}

proof fn lemma_tags_restored_stop(
    store: StoreView,
    items: Seq<TagInverseView>,
    now: Seq<char>,
    revision: Seq<char>,
    count: nat,
    more: nat,
)
    requires
        count <= more <= items.len(),
        tags_restored(store, items, now, revision, count) is Err,
    ensures
        tags_restored(store, items, now, revision, more) == tags_restored(store, items, now, revision, count),
    decreases more,
{
    if count < more {
        lemma_tags_restored_stop(store, items, now, revision, count, (more - 1) as nat);
    }
}

/// Restores tags in a store that is given up on an error.
fn restore_tags(
    live: &mut Store,
    items: &Vec<TagInverse>,
    now: &str,
    revision: &str,
) -> (r: Result<(), AppError>)
    ensures
        match tags_restored(old(live)@, text::views(items@), now@, revision@, items@.len()) {
            Ok(next) => r is Ok && final(live)@ == next,
            Err(e) => r matches Err(got) && got@ == e,
        },
{
    let ghost all = text::views(items@);
    let ghost start = live@;
    let mut i: usize = 0;
    while i < items.len()
        invariant
            i <= items@.len() == all.len(),
            all == text::views(items@),
            tags_restored(start, all, now@, revision@, i as nat) == Ok::<StoreView, AppErrorView>(live@),
        decreases items@.len() - i,
    {
        assert(all[i as int] == items@[i as int]@);
        if let Err(e) = restore_tag(live, &items[i], now, revision) {
            proof {
                lemma_tags_restored_stop(start, all, now@, revision@, (i + 1) as nat, all.len());
            }
            return Err(e);
        }
        i += 1;
    }
    Ok(())
}

/// A key of the metadata as it was before.
#[verifier::opaque]
pub open spec fn meta_restored(
    store: StoreView,
    entry: MetaInverseView,
    now: Seq<char>,
    revision: Seq<char>,
) -> Result<StoreView, AppErrorView> {
    let next = if store.meta.dom().contains(entry.key) {
        StoreView { meta: store.meta.insert(entry.key, entry.before), ..store }
    } else {
        store
    };
    store::recorded(
        next,
        if entry.key == "schema"@ {
            "schema_set"@
        } else {
            "purpose_set"@
        },
        entry.key,
        rollback_note(),
        now,
        revision,
    )
}

fn restore_meta(live: &mut Store, entry: &MetaInverse, now: &str, revision: &str) -> (r: Result<
    (),
    AppError,
>)
    ensures
        match meta_restored(old(live)@, entry@, now@, revision@) {
            Ok(next) => r is Ok && final(live)@ == next,
            Err(e) => r matches Err(got) && got@ == e,
        },
{
    proof {
        reveal(meta_restored);
    }
    if live.meta.has(&entry.key) {
        live.meta.put(owned(entry.key.as_str()), owned(entry.before.as_str()));
    }
    let action = if same_text(entry.key.as_str(), "schema") {
        "schema_set"
    } else {
        "purpose_set"
    };
    let note = Json::object1("rollback", Json::Bool(true));
    live.record_operation(action, entry.key.as_str(), note, now, revision)
}

/// The first `count` keys of the metadata as they were before.
pub open spec fn metas_restored(
    store: StoreView,
    items: Seq<MetaInverseView>,
    now: Seq<char>,
    revision: Seq<char>,
    count: nat,
) -> Result<StoreView, AppErrorView>
    decreases count,
{
    if count == 0 || count > items.len() {
        Ok(store)
    } else {
        match metas_restored(store, items, now, revision, (count - 1) as nat) {
            Err(e) => Err(e),
            Ok(so_far) => meta_restored(so_far, items[count - 1], now, revision),
        }
    }
}

proof fn lemma_metas_restored_stop(
    store: StoreView,
    items: Seq<MetaInverseView>,
    now: Seq<char>,
    revision: Seq<char>,
    count: nat,
    more: nat,
)
    requires
        count <= more <= items.len(),
        metas_restored(store, items, now, revision, count) is Err,
    ensures
        metas_restored(store, items, now, revision, more) == metas_restored(store, items, now, revision, count),
    decreases more,
{
    if count < more {
        lemma_metas_restored_stop(store, items, now, revision, count, (more - 1) as nat);
    }
}

/// Restores keys of the metadata in a store that is given up on an error.
fn restore_metas(
    live: &mut Store,
    items: &Vec<MetaInverse>,
    now: &str,
    revision: &str,
) -> (r: Result<(), AppError>)
    ensures
        match metas_restored(old(live)@, text::views(items@), now@, revision@, items@.len()) {
            Ok(next) => r is Ok && final(live)@ == next,
            Err(e) => r matches Err(got) && got@ == e,
        },
{
    let ghost all = text::views(items@);
    let ghost start = live@;
    let mut i: usize = 0;
    while i < items.len()
        invariant
            i <= items@.len() == all.len(),
            all == text::views(items@),
            metas_restored(start, all, now@, revision@, i as nat) == Ok::<StoreView, AppErrorView>(live@),
        decreases items@.len() - i,
    {
        assert(all[i as int] == items@[i as int]@);
        if let Err(e) = restore_meta(live, &items[i], now, revision) {
            proof {
                lemma_metas_restored_stop(start, all, now@, revision@, (i + 1) as nat, all.len());
            }
            return Err(e);
        }
        i += 1;
    }
    Ok(())
}

/// The tracked paths without the observations of a source; one that showed nothing
/// else is gone.
pub open spec fn paths_without(paths: Map<Seq<char>, Seq<PathRevisionView>>, id: i64) -> Map<
    Seq<char>,
    Seq<PathRevisionView>,
> {
    Map::new(
        |path: Seq<char>|
            paths.dom().contains(path) && sources::of_others(paths[path], id).len() > 0,
        |path: Seq<char>| sources::of_others(paths[path], id),
    )
}

fn drop_observations(paths: &Table<String, PathLog>, id: i64) -> (r: Table<String, PathLog>)
    ensures
        r@ == paths_without(paths@, id),
{
    let n = paths.len();
    let ghost keys = paths.keys();
    let ghost goal = paths_without(paths@, id);
    let mut out: Table<String, PathLog> = Table::new();
    let mut i: usize = 0;
    while i < n
        invariant
            i <= n == keys.len(),
            keys == paths.keys(),
            forall|k: Seq<char>| #[trigger]
                out@.dom().contains(k) == (keys.take(i as int).contains(k) && goal.dom().contains(
                    k,
                )),
            forall|k: Seq<char>| #[trigger] out@.dom().contains(k) ==> out@[k] == goal[k],
        decreases n - i,
    {
        let path = paths.key_at(i);
        let kept = sources::keep_others(paths.value_at(i), id);
        assert(kept@.len() == kept.list@.len());
        proof {
            table::lemma_take_more(keys, i as int);
        }
        if kept.list.len() > 0 {
            out.put(owned(path.as_str()), kept);
        }
        i += 1;
    }
    proof {
        assert(keys.take(n as int) =~= keys);
        assert forall|k: Seq<char>| out@.dom().contains(k) == goal.dom().contains(k) by {
            assert(keys.to_set().contains(k) == paths@.dom().contains(k));
        }
        assert(out@ =~= goal);
    }
    out
}

/// The place of a revision among observations.
pub open spec fn place_of(log: Seq<PathRevisionView>, revision: i64) -> nat
    decreases log.len(),
{
    if log.len() == 0 || log[0].revision >= revision {
        0
    } else {
        1 + place_of(log.drop_first(), revision)
    }
}

/// A revision above all others stands behind them.
pub proof fn lemma_place_at_end(log: Seq<PathRevisionView>, revision: i64)
    requires
        forall|i: int| 0 <= i < log.len() ==> (#[trigger] log[i]).revision < revision,
    ensures
        place_of(log, revision) == log.len(),
    decreases log.len(),
{
    if log.len() > 0 {
        let rest = log.drop_first();
        assert forall|i: int| 0 <= i < rest.len() implies (#[trigger] rest[i]).revision
            < revision by {
            assert(rest[i] == log[i + 1]);
        }
        lemma_place_at_end(rest, revision);
    }
}

/// An observation of a source entered at its path.
pub open spec fn observation_entered(store: StoreView, one: SourcePathView, id: i64) -> Result<
    StoreView,
    AppErrorView,
> {
    let log = sources::path_log(store.paths, one.tracked_path);
    let at = place_of(log, one.revision);
    if !refusals::observation_fits(one.tracked_path, one.revision) {
        Err(changesets::check_failed())
    } else if at < log.len() && log[at as int].revision == one.revision {
        Err(sparse_merge::unique_failed())
    } else {
        Ok(
            StoreView {
                paths: store.paths.insert(
                    one.tracked_path,
                    log.insert(
                        at as int,
                        PathRevisionView {
                            revision: one.revision,
                            source_id: id,
                            observed_at: one.observed_at,
                        },
                    ),
                ),
                ..store
            },
        )
    }
}

proof fn lemma_place(log: Seq<PathRevisionView>, revision: i64)
    ensures
        place_of(log, revision) <= log.len(),
    decreases log.len(),
{
    if log.len() > 0 && log[0].revision < revision {
        lemma_place(log.drop_first(), revision);
    }
}

fn enter_observation(live: &mut Store, one: &SourcePath, id: i64) -> (r: Result<(), AppError>)
    ensures
        match observation_entered(old(live)@, one@, id) {
            Ok(next) => r is Ok && final(live)@ == next,
            Err(e) => r matches Err(got) && got@ == e,
        },
{
    if !fits_as_observation(one.tracked_path.as_str(), one.revision) {
        return Err(check_failed());
    }
    let mut list = live.load_sparse_tracked_path(one.tracked_path.as_str());
    let ghost log = text::views(list@);
    let mut at: usize = 0;
    proof {
        assert(log.skip(0) =~= log);
        lemma_place(log, one.revision);
    }
    while at < list.len() && list[at].revision < one.revision
        invariant
            at <= list@.len() == log.len(),
            log == text::views(list@),
            place_of(log, one.revision) == at + place_of(log.skip(at as int), one.revision),
        decreases list@.len() - at,
    {
        assert(log.skip(at as int)[0] == list@[at as int]@);
        assert(log.skip(at as int).drop_first() =~= log.skip(at + 1));
        at += 1;
    }
    proof {
        if at < log.len() {
            assert(log.skip(at as int)[0] == list@[at as int]@);
        }
        assert(place_of(log.skip(at as int), one.revision) == 0);
    }
    if at < list.len() && list[at].revision == one.revision {
        assert(log[at as int] == list@[at as int]@);
        return Err(AppError::new(ErrorCode::DatabaseError, "UNIQUE constraint failed"));
    }
    let entry = PathRevision {
        revision: one.revision,
        source_id: id,
        observed_at: owned(one.observed_at.as_str()),
    };
    let ghost entered = entry@;
    proof {
        if at < log.len() {
            assert(log[at as int] == list@[at as int]@);
        }
    }
    list.insert(at, entry);
    assert(text::views(list@) =~= log.insert(at as int, entered));
    live.paths.put(owned(one.tracked_path.as_str()), PathLog { list });
    Ok(())
}

/// The first `count` observations of a source entered again.
pub open spec fn observations_entered(
    store: StoreView,
    items: Seq<SourcePathView>,
    id: i64,
    count: nat,
) -> Result<StoreView, AppErrorView>
    decreases count,
{
    if count == 0 || count > items.len() {
        Ok(store)
    } else {
        match observations_entered(store, items, id, (count - 1) as nat) {
            Err(e) => Err(e),
            Ok(so_far) => observation_entered(so_far, items[count - 1], id),
        }
    }
}

proof fn lemma_observations_entered_stop(
    store: StoreView,
    items: Seq<SourcePathView>,
    id: i64,
    count: nat,
    more: nat,
)
    requires
        count <= more <= items.len(),
        observations_entered(store, items, id, count) is Err,
    ensures
        observations_entered(store, items, id, more) == observations_entered(store, items, id, count),
    decreases more,
{
    if count < more {
        lemma_observations_entered_stop(store, items, id, count, (more - 1) as nat);
    }
}

/// Enters observations of a source in a store that is given up on an error.
fn enter_observations(
    live: &mut Store,
    items: &Vec<SourcePath>,
    id: i64,
) -> (r: Result<(), AppError>)
    ensures
        match observations_entered(old(live)@, text::views(items@), id, items@.len()) {
            Ok(next) => r is Ok && final(live)@ == next,
            Err(e) => r matches Err(got) && got@ == e,
        },
{
    let ghost all = text::views(items@);
    let ghost start = live@;
    let mut i: usize = 0;
    while i < items.len()
        invariant
            i <= items@.len() == all.len(),
            all == text::views(items@),
            observations_entered(start, all, id, i as nat) == Ok::<StoreView, AppErrorView>(live@),
        decreases items@.len() - i,
    {
        assert(all[i as int] == items@[i as int]@);
        if let Err(e) = enter_observation(live, &items[i], id) {
            proof {
                lemma_observations_entered_stop(start, all, id, (i + 1) as nat, all.len());
            }
            return Err(e);
        }
        i += 1;
    }
    Ok(())
}

/// Another source than this has the same content.
pub open spec fn hash_taken(store: StoreView, id: i64, hash: Seq<char>) -> bool {
    exists|other: i64| #[trigger]
        store.sources.dom().contains(other) && other != id && store.sources[other].content_hash
            == hash
}

fn is_hash_taken(live: &Store, id: i64, hash: &str) -> (r: bool)
    ensures
        r == hash_taken(live@, id, hash@),
{
    let n = live.sources.len();
    let ghost keys = live.sources.keys();
    let mut i: usize = 0;
    while i < n
        invariant
            i <= n == keys.len(),
            keys == live.sources.keys(),
            forall|j: int|
                0 <= j < i ==> (#[trigger] keys[j]) == id || live@.sources[keys[j]].content_hash
                    != hash@,
        decreases n - i,
    {
        let other = *live.sources.key_at(i);
        let source = live.sources.value_at(i);
        if other != id && same_text(source.content_hash.as_str(), hash) {
            assert(live@.sources.dom().contains(other));
            return true;
        }
        i += 1;
    }
    proof {
        assert forall|other: i64| #[trigger] live@.sources.dom().contains(other) && other
            != id implies live@.sources[other].content_hash != hash@ by {
            assert(keys.to_set().contains(other));
            let j = keys.index_of(other);
            assert(keys[j] == other);
        }
    }
    false
}

/// The store with a source as it was, its job and its paths.
pub open spec fn source_reinstated(
    store: StoreView,
    snapshot: SourceSnapshotView,
    segments: SegmentsView,
    now: Seq<char>,
    revision: Seq<char>,
) -> Result<StoreView, AppErrorView> {
    let id = snapshot.id;
    if hash_taken(store, id, snapshot.source.content_hash) {
        Err(sparse_merge::unique_failed())
    } else if !refusals::job_fits(snapshot.ingest) {
        Err(changesets::check_failed())
    } else {
        let bare = StoreView {
            sources: store.sources.insert(id, snapshot.source),
            source_sequence: if id > store.source_sequence {
                id
            } else {
                store.source_sequence
            },
            ingest_jobs: store.ingest_jobs.insert(id, snapshot.ingest),
            paths: paths_without(store.paths, id),
            ..store
        };
        match observations_entered(bare, snapshot.paths, id, snapshot.paths.len()) {
            Err(e) => Err(e),
            Ok(seen) => match spans::indexed(
                seen,
                segments,
                "source"@,
                text::decimal(id as int),
                snapshot.source.content,
            ) {
                Err(e) => Err(e),
                Ok(next) => store::recorded(
                    next,
                    "source_add"@,
                    snapshot.source.origin,
                    JsonView::Object(
                        seq![
                            json::entry("rollback"@, JsonView::Bool(true)),
                            json::entry("source_id"@, JsonView::Int(id as int)),
                        ],
                    ),
                    now,
                    revision,
                ),
            },
        }
    }
}

/// The store without a source that came with a changeset.
pub open spec fn source_withdrawn(
    store: StoreView,
    id: i64,
    now: Seq<char>,
    revision: Seq<char>,
) -> Result<StoreView, AppErrorView> {
    let references = sources::citing(store, id).len();
    if references > 0 {
        error::refused(
            ErrorCode::ChangesetRollbackConflict,
            "source "@ + text::decimal(id as int) + " gained "@ + text::natural(references)
                + " page reference(s) after commit"@,
        )
    } else {
        match store::recorded(
            store,
            "source_remove"@,
            text::decimal(id as int),
            rollback_note(),
            now,
            revision,
        ) {
            Err(e) => Err(e),
            Ok(noted) => {
                let quiet = pages::forgotten(noted, "source"@, text::decimal(id as int));
                Ok(
                    sources::source_dropped(
                        StoreView { paths: paths_without(quiet.paths, id), ..quiet },
                        id,
                    ),
                )
            },
        }
    }
}

/// A source as it was before.
#[verifier::opaque]
pub open spec fn source_restored(
    store: StoreView,
    inverse: SourceInverseView,
    remaps: Seq<RemapView>,
    segments: SegmentsView,
    now: Seq<char>,
    revision: Seq<char>,
) -> Result<StoreView, AppErrorView> {
    match inverse.before {
        Some(snapshot) => source_reinstated(store, snapshot, segments, now, revision),
        None => if first_known(remaps, inverse.source_id) {
            Ok(store)
        } else {
            let remap = sparse_merge::remap_of(remaps, inverse.source_id);
            let id = if remap is Some {
                remap->0.live_id
            } else {
                inverse.source_id
            };
            source_withdrawn(store, id, now, revision)
        },
    }
}

/// Puts a source back as it was, in a store that is given up on an error.
fn reinstate_source(
    live: &mut Store,
    snapshot: &SourceSnapshot,
    segments: &Segments,
    now: &str,
    revision: &str,
) -> (r: Result<(), AppError>)
    ensures
        match source_reinstated(old(live)@, snapshot@, segments@, now@, revision@) {
            Ok(next) => r is Ok && final(live)@ == next,
            Err(e) => r matches Err(got) && got@ == e,
        },
{
    let id = snapshot.id;
    if is_hash_taken(live, id, snapshot.source.content_hash.as_str()) {
        return Err(unique_failed());
    }
    if !fits_as_job(&snapshot.ingest) {
        return Err(check_failed());
    }
    live.sources.put(id, snapshot.source.duplicate());
    if id > live.source_sequence {
        live.source_sequence = id;
    }
    live.ingest_jobs.put(id, snapshot.ingest.duplicate());
    let paths = drop_observations(&live.paths, id);
    live.paths = paths;
    assert(text::views(snapshot.paths@).len() == snapshot.paths@.len());
    if let Err(e) = enter_observations(live, &snapshot.paths, id) {
        return Err(e);
    }
    if let Err(e) = live.index_spans(
        segments,
        "source",
        decimal_text(id).as_str(),
        snapshot.source.content.as_str(),
    ) {
        return Err(e);
    }
    let note = Json::object2("rollback", Json::Bool(true), "source_id", Json::Int(id));
    live.record_operation("source_add", snapshot.source.origin.as_str(), note, now, revision)
}

/// Takes a source away that came with a changeset, in a store that is given up on an
/// error.
fn withdraw_source(live: &mut Store, id: i64, now: &str, revision: &str) -> (r: Result<
    (),
    AppError,
>)
    ensures
        match source_withdrawn(old(live)@, id, now@, revision@) {
            Ok(next) => r is Ok && final(live)@ == next,
            Err(e) => r matches Err(got) && got@ == e,
        },
{
    let references = live.citing_pages(id);
    proof {
        text::lemma_ascending_len(text::views(references@));
        assert(text::views(references@).len() == references@.len());
    }
    let label = decimal_text(id);
    if references.len() > 0 {
        return Err(
            AppError::new(
                ErrorCode::ChangesetRollbackConflict,
                join5(
                    "source ",
                    label.as_str(),
                    " gained ",
                    natural_text(references.len() as u128).as_str(),
                    " page reference(s) after commit",
                ).as_str(),
            ),
        );
    }
    let note = Json::object1("rollback", Json::Bool(true));
    if let Err(e) = live.record_operation("source_remove", label.as_str(), note, now, revision) {
        return Err(e);
    }
    live.forget_target("source", label.as_str());
    let paths = drop_observations(&live.paths, id);
    live.paths = paths;
    live.drop_source(id);
    Ok(())
}

fn restore_source(
    live: &mut Store,
    inverse: &SourceInverse,
    remaps: &Vec<SourceIdRemap>,
    segments: &Segments,
    now: &str,
    revision: &str,
) -> (r: Result<(), AppError>)
    ensures
        match source_restored(
            old(live)@,
            inverse@,
            text::views(remaps@),
            segments@,
            now@,
            revision@,
        ) {
            Ok(next) => r is Ok && final(live)@ == next,
            Err(e) => r matches Err(got) && got@ == e,
        },
{
    proof {
        reveal(source_restored);
    }
    if let Some(snapshot) = &inverse.before {
        return reinstate_source(live, snapshot, segments, now, revision);
    }
    if first_known_before(remaps, inverse.source_id) {
        return Ok(());
    }
    let id: i64 = match find_remap(remaps, inverse.source_id) {
        Some(remap) => remap.live_id,
        None => inverse.source_id,
    };
    withdraw_source(live, id, now, revision)
}

/// The first `count` sources as they were before.
pub open spec fn sources_restored(
    store: StoreView,
    items: Seq<SourceInverseView>,
    remaps: Seq<RemapView>,
    segments: SegmentsView,
    now: Seq<char>,
    revision: Seq<char>,
    count: nat,
) -> Result<StoreView, AppErrorView>
    decreases count,
{
    if count == 0 || count > items.len() {
        Ok(store)
    } else {
        match sources_restored(store, items, remaps, segments, now, revision, (count - 1) as nat) {
            Err(e) => Err(e),
            Ok(so_far) => source_restored(so_far, items[count - 1], remaps, segments, now, revision),
        }
    }
}

proof fn lemma_sources_restored_stop(
    store: StoreView,
    items: Seq<SourceInverseView>,
    remaps: Seq<RemapView>,
    segments: SegmentsView,
    now: Seq<char>,
    revision: Seq<char>,
    count: nat,
    more: nat,
)
    requires
        count <= more <= items.len(),
        sources_restored(store, items, remaps, segments, now, revision, count) is Err,
    ensures
        sources_restored(store, items, remaps, segments, now, revision, more) == sources_restored(store, items, remaps, segments, now, revision, count),
    decreases more,
{
    if count < more {
        lemma_sources_restored_stop(store, items, remaps, segments, now, revision, count, (more - 1) as nat);
    }
}

/// Restores sources in a store that is given up on an error.
fn restore_sources(
    live: &mut Store,
    items: &Vec<SourceInverse>,
    remaps: &Vec<SourceIdRemap>,
    segments: &Segments,
    now: &str,
    revision: &str,
) -> (r: Result<(), AppError>)
    ensures
        match sources_restored(old(live)@, text::views(items@), text::views(remaps@), segments@, now@, revision@, items@.len()) {
            Ok(next) => r is Ok && final(live)@ == next,
            Err(e) => r matches Err(got) && got@ == e,
        },
{
    let ghost all = text::views(items@);
    let ghost start = live@;
    let mut i: usize = 0;
    while i < items.len()
        invariant
            i <= items@.len() == all.len(),
            all == text::views(items@),
            sources_restored(start, all, text::views(remaps@), segments@, now@, revision@, i as nat) == Ok::<StoreView, AppErrorView>(live@),
        decreases items@.len() - i,
    {
        assert(all[i as int] == items@[i as int]@);
        if let Err(e) = restore_source(live, &items[i], remaps, segments, now, revision) {
            proof {
                lemma_sources_restored_stop(start, all, text::views(remaps@), segments@, now@, revision@, (i + 1) as nat, all.len());
            }
            return Err(e);
        }
        i += 1;
    }
    Ok(())
}

/// An observation at a path, entered after those before it.
pub open spec fn path_step_entered(
    store: StoreView,
    path: Seq<char>,
    step: PathRevisionView,
) -> Result<StoreView, AppErrorView> {
    match observation_entered(
        store,
        SourcePathView {
            tracked_path: path,
            revision: step.revision,
            observed_at: step.observed_at,
        },
        step.source_id,
    ) {
        Err(e) => Err(e),
        Ok(next) => if store.sources.dom().contains(step.source_id) {
            Ok(next)
        } else {
            Err(store::broken_reference())
        },
    }
}

/// The first `count` observations at a path, and no others.
pub open spec fn path_steps_entered(
    store: StoreView,
    path: Seq<char>,
    log: Seq<PathRevisionView>,
    count: nat,
) -> Result<StoreView, AppErrorView>
    decreases count,
{
    if count == 0 || count > log.len() {
        Ok(StoreView { paths: store.paths.remove(path), ..store })
    } else {
        match path_steps_entered(store, path, log, (count - 1) as nat) {
            Err(e) => Err(e),
            Ok(so_far) => path_step_entered(so_far, path, log[count - 1]),
        }
    }
}

/// A tracked path as it was before.
pub open spec fn path_restored(store: StoreView, path: TrackedPathInverseView) -> Result<
    StoreView,
    AppErrorView,
> {
    path_steps_entered(store, path.tracked_path, path.before, path.before.len())
}

proof fn lemma_path_steps_stop(
    store: StoreView,
    path: Seq<char>,
    log: Seq<PathRevisionView>,
    count: nat,
    more: nat,
)
    requires
        count <= more <= log.len(),
        path_steps_entered(store, path, log, count) is Err,
    ensures
        path_steps_entered(store, path, log, more) == path_steps_entered(store, path, log, count),
    decreases more,
{
    if count < more {
        lemma_path_steps_stop(store, path, log, count, (more - 1) as nat);
    }
}

/// Restores a tracked path in a store that is given up on an error.
pub fn restore_sparse_tracked_path(live: &mut Store, path: &TrackedPathInverse) -> (r: Result<
    (),
    AppError,
>)
    ensures
        match path_restored(old(live)@, path@) {
            Ok(next) => r is Ok && final(live)@ == next,
            Err(e) => r matches Err(got) && got@ == e,
        },
{
    let ghost log = text::views(path.before@);
    let ghost start = live@;
    live.paths.remove(&path.tracked_path);
    let mut i: usize = 0;
    while i < path.before.len()
        invariant
            i <= path.before@.len() == log.len(),
            log == text::views(path.before@),
            path_steps_entered(start, path.tracked_path@, log, i as nat) == Ok::<
                StoreView,
                AppErrorView,
            >(live@),
        decreases path.before@.len() - i,
    {
        let step = &path.before[i];
        assert(log[i as int] == step@);
        proof {
            if path_steps_entered(start, path.tracked_path@, log, (i + 1) as nat) is Err {
                lemma_path_steps_stop(
                    start,
                    path.tracked_path@,
                    log,
                    (i + 1) as nat,
                    log.len(),
                );
            }
        }
        let there = live.sources.has(&step.source_id);
        let one = SourcePath {
            tracked_path: owned(path.tracked_path.as_str()),
            revision: step.revision,
            observed_at: owned(step.observed_at.as_str()),
        };
        if let Err(e) = enter_observation(live, &one, step.source_id) {
            return Err(e);
        }
        if !there {
            return Err(store::broken_reference_error());
        }
        i += 1;
    }
    Ok(())
}

/// The first `count` tracked paths as they were before.
pub open spec fn paths_restored(
    store: StoreView,
    items: Seq<TrackedPathInverseView>,
    count: nat,
) -> Result<StoreView, AppErrorView>
    decreases count,
{
    if count == 0 || count > items.len() {
        Ok(store)
    } else {
        match paths_restored(store, items, (count - 1) as nat) {
            Err(e) => Err(e),
            Ok(so_far) => path_restored(so_far, items[count - 1]),
        }
    }
}

proof fn lemma_paths_restored_stop(
    store: StoreView,
    items: Seq<TrackedPathInverseView>,
    count: nat,
    more: nat,
)
    requires
        count <= more <= items.len(),
        paths_restored(store, items, count) is Err,
    ensures
        paths_restored(store, items, more) == paths_restored(store, items, count),
    decreases more,
{
    if count < more {
        lemma_paths_restored_stop(store, items, count, (more - 1) as nat);
    }
}

/// Restores tracked paths in a store that is given up on an error.
fn restore_paths(
    live: &mut Store,
    items: &Vec<TrackedPathInverse>,
) -> (r: Result<(), AppError>)
    ensures
        match paths_restored(old(live)@, text::views(items@), items@.len()) {
            Ok(next) => r is Ok && final(live)@ == next,
            Err(e) => r matches Err(got) && got@ == e,
        },
{
    let ghost all = text::views(items@);
    let ghost start = live@;
    let mut i: usize = 0;
    while i < items.len()
        invariant
            i <= items@.len() == all.len(),
            all == text::views(items@),
            paths_restored(start, all, i as nat) == Ok::<StoreView, AppErrorView>(live@),
        decreases items@.len() - i,
    {
        assert(all[i as int] == items@[i as int]@);
        if let Err(e) = restore_sparse_tracked_path(live, &items[i]) {
            proof {
                lemma_paths_restored_stop(start, all, (i + 1) as nat, all.len());
            }
            return Err(e);
        }
        i += 1;
    }
    Ok(())
}

// ---------------------------------------------------------------------------
// Documents
// ---------------------------------------------------------------------------

/// The documents of pages.
pub open spec fn page_documents(pages: Seq<PageInverseView>) -> Set<PairView>
    decreases pages.len(),
{
    if pages.len() == 0 {
        Set::empty()
    } else {
        page_documents(pages.drop_last()).insert(table::pair("page"@, pages.last().slug))
    }
}

/// The documents of sources.
pub open spec fn source_documents(sources: Seq<SourceInverseView>, ids: Map<i64, i64>) -> Set<
    PairView,
>
    decreases sources.len(),
{
    if sources.len() == 0 {
        Set::empty()
    } else {
        source_documents(sources.drop_last(), ids).insert(
            sources::source_document(sparse_merge::live_id(ids, sources.last().source_id)),
        )
    }
}

/// A set of documents with the source that a path shows.
pub open spec fn with_shown(documents: Set<PairView>, log: Seq<PathRevisionView>) -> Set<PairView> {
    if log.len() > 0 {
        documents.insert(sources::source_document(log.last().source_id))
    } else {
        documents
    }
}

/// The documents of the sources that paths show and showed before.
pub open spec fn path_documents(store: StoreView, paths: Seq<TrackedPathInverseView>) -> Set<
    PairView,
>
    decreases paths.len(),
{
    if paths.len() == 0 {
        Set::empty()
    } else {
        let path = paths.last();
        with_shown(
            with_shown(
                path_documents(store, paths.drop_last()),
                sources::path_log(store.paths, path.tracked_path),
            ),
            path.before,
        )
    }
}

/// The documents that taking a changeset back touches.
pub open spec fn rollback_documents(
    store: StoreView,
    inverse: InverseView,
    ids: Map<i64, i64>,
) -> Set<PairView> {
    page_documents(inverse.pages) + source_documents(inverse.sources, ids) + path_documents(
        store,
        inverse.source_paths,
    )
}

fn mark_shown(marks: &mut Table<Pair, bool>, log: &Vec<PathRevision>)
    ensures
        final(marks)@.dom() == with_shown(old(marks)@.dom(), text::views(log@)),
{
    let n = log.len();
    assert(text::views(log@).len() == n);
    if n > 0 {
        assert(text::views(log@).last() == log@[n - 1]@);
        marks.put(Pair::new("source", decimal_text(log[n - 1].source_id).as_str()), true);
    }
}

/// The documents that taking a changeset back touches.
fn list_rollback_documents(live: &Store, inverse: &InversePayload, ids: &Table<i64, i64>) -> (r: Vec<
    Pair,
>)
    ensures
        text::views(r@) == table::ordered::<Pair>(rollback_documents(live@, inverse@, ids@)),
{
    let ghost pages = inverse@.pages;
    let mut a: Table<Pair, bool> = Table::new();
    let mut i: usize = 0;
    while i < inverse.pages.len()
        invariant
            i <= inverse.pages@.len() == pages.len(),
            pages == text::views(inverse.pages@),
            a@.dom() == page_documents(pages.take(i as int)),
        decreases inverse.pages@.len() - i,
    {
        assert(pages.take(i + 1).drop_last() =~= pages.take(i as int));
        assert(pages.take(i + 1).last() == inverse.pages@[i as int]@);
        a.put(Pair::new("page", inverse.pages[i].slug.as_str()), true);
        i += 1;
    }
    assert(pages.take(i as int) =~= pages);
    let ghost listed = inverse@.sources;
    let mut b: Table<Pair, bool> = Table::new();
    let mut i: usize = 0;
    while i < inverse.sources.len()
        invariant
            i <= inverse.sources@.len() == listed.len(),
            listed == text::views(inverse.sources@),
            b@.dom() == source_documents(listed.take(i as int), ids@),
        decreases inverse.sources@.len() - i,
    {
        assert(listed.take(i + 1).drop_last() =~= listed.take(i as int));
        assert(listed.take(i + 1).last() == inverse.sources@[i as int]@);
        let id = id_in_live(ids, inverse.sources[i].source_id);
        b.put(Pair::new("source", decimal_text(id).as_str()), true);
        i += 1;
    }
    assert(listed.take(i as int) =~= listed);
    let ghost paths = inverse@.source_paths;
    let mut c: Table<Pair, bool> = Table::new();
    let mut i: usize = 0;
    while i < inverse.source_paths.len()
        invariant
            i <= inverse.source_paths@.len() == paths.len(),
            paths == text::views(inverse.source_paths@),
            c@.dom() == path_documents(live@, paths.take(i as int)),
        decreases inverse.source_paths@.len() - i,
    {
        assert(paths.take(i + 1).drop_last() =~= paths.take(i as int));
        assert(paths.take(i + 1).last() == inverse.source_paths@[i as int]@);
        let path = &inverse.source_paths[i];
        let log = live.load_sparse_tracked_path(path.tracked_path.as_str());
        mark_shown(&mut c, &log);
        mark_shown(&mut c, &path.before);
        i += 1;
    }
    assert(paths.take(i as int) =~= paths);
    a.mark_keys(&b);
    a.mark_keys(&c);
    pairs_of(&a)
}

// ---------------------------------------------------------------------------
// The whole changeset
// ---------------------------------------------------------------------------

/// The request to take a changeset back.
pub struct ChangesetRollbackInput {
    pub store_id: String,
    pub history: ChangesetHistoryState,
    pub pre_rollback_checkpoint: String,
}

#[verifier::ext_equal]
pub struct RollbackInputView {
    pub store_id: Seq<char>,
    pub history: HistoryView,
    pub pre_rollback_checkpoint: Seq<char>,
}

impl View for ChangesetRollbackInput {
    type V = RollbackInputView;

    open spec fn view(&self) -> RollbackInputView {
        RollbackInputView {
            store_id: self.store_id@,
            history: self.history@,
            pre_rollback_checkpoint: self.pre_rollback_checkpoint@,
        }
    }
}

/// The row of the changeset is still as the history says.
pub open spec fn is_committed_as(store: StoreView, history: HistoryView) -> bool {
    &&& store.changesets.dom().contains(history.id)
    &&& store.changesets[history.id].status == "committed"@
    &&& store.changesets[history.id].post_revision == history.post_revision
    &&& store.changesets[history.id].pre_commit_checkpoint == history.pre_commit_checkpoint
}

/// What the log says of a changeset that was taken back.
pub open spec fn rollback_detail(
    input: RollbackInputView,
    documents: Seq<PairView>,
    revision: Seq<char>,
) -> JsonView {
    JsonView::Object(
        seq![
            json::entry(
                "committed_post_revision"@,
                spans::optional_text_json(input.history.post_revision),
            ),
            json::entry("graph_documents"@, changeset_log::documents_json(documents)),
            json::entry("name"@, JsonView::Text(input.history.name)),
            json::entry(
                "pre_commit_checkpoint"@,
                spans::optional_text_json(input.history.pre_commit_checkpoint),
            ),
            json::entry("pre_rollback_checkpoint"@, JsonView::Text(input.pre_rollback_checkpoint)),
            json::entry("rollback_revision"@, JsonView::Text(revision)),
            json::entry("storage"@, JsonView::Text("sparse-v1"@)),
        ],
    )
}

/// What is restored: pages, tags, metadata, sources and paths, in this order.
pub open spec fn all_restored(
    store: StoreView,
    inverse: InverseView,
    remaps: Seq<RemapView>,
    segments: SegmentsView,
    now: Seq<char>,
    revision: Seq<char>,
) -> Result<StoreView, AppErrorView> {
    match all_unlinked(store, inverse.pages, inverse.pages.len()) {
        Err(e) => Err(e),
        Ok(a) => match pages_restored(
            a,
            inverse.pages,
            segments,
            now,
            revision,
            inverse.pages.len(),
        ) {
            Err(e) => Err(e),
            Ok(b) => match inbound_obstacles(b, inverse.pages) {
                Some(e) => Err(e),
                None => match tags_restored(b, inverse.tags, now, revision, inverse.tags.len()) {
                    Err(e) => Err(e),
                    Ok(c) => match metas_restored(
                        c,
                        inverse.meta,
                        now,
                        revision,
                        inverse.meta.len(),
                    ) {
                        Err(e) => Err(e),
                        Ok(d) => match sources_restored(
                            d,
                            inverse.sources,
                            remaps,
                            segments,
                            now,
                            revision,
                            inverse.sources.len(),
                        ) {
                            Err(e) => Err(e),
                            Ok(f) => paths_restored(
                                f,
                                inverse.source_paths,
                                inverse.source_paths.len(),
                            ),
                        },
                    },
                },
            },
        },
    }
}

/// The store with a changeset marked as taken back.
pub open spec fn marked_rolled_back(store: StoreView, id: Seq<char>, now: Seq<char>) -> StoreView {
    if store.changesets.dom().contains(id) {
        StoreView {
            changesets: store.changesets.insert(
                id,
                ChangesetView {
                    status: "rolled_back"@,
                    rolled_back_at: Some(now),
                    ..store.changesets[id]
                },
            ),
            ..store
        }
    } else {
        store
    }
}

/// A changeset that was taken back, and the store after it.
#[verifier::ext_equal]
pub struct RolledBackView {
    pub store: StoreView,
    pub state: RollbackView,
}

/// What stands in the way of taking a changeset back, before its patch is looked at.
pub open spec fn rollback_refusal(
    store: StoreView,
    inverse: InverseView,
    input: RollbackInputView,
) -> Option<AppErrorView> {
    if inverse.store_id != input.store_id || inverse.changeset_id != input.history.id {
        Some(
            error::app_error(
                ErrorCode::ChangesetCorrupt,
                "sparse inverse patch belongs to another Wiki or changeset"@,
            ),
        )
    } else if input.history.post_revision is None {
        Some(
            error::app_error(
                ErrorCode::ChangesetCorrupt,
                "committed changeset has no post revision"@,
            ),
        )
    } else if input.history.pre_commit_checkpoint is None {
        Some(
            error::app_error(
                ErrorCode::ChangesetCorrupt,
                "committed changeset has no pre-commit checkpoint"@,
            ),
        )
    } else {
        match store::live_identity(store) {
            Err(e) => Some(e),
            Ok(identity) => if identity.store_id != input.store_id {
                Some(
                    error::app_error(
                        ErrorCode::ChangesetScopeMismatch,
                        "changeset is not bound to this live Wiki"@,
                    ),
                )
            } else if !is_committed_as(store, input.history) {
                Some(
                    error::app_error(
                        ErrorCode::ChangesetRollbackConflict,
                        "changeset history changed before rollback"@,
                    ),
                )
            } else {
                None
            },
        }
    }
}

/// What taking a sparse changeset back comes to.
pub open spec fn rollback_goal(
    store: StoreView,
    inverse: InverseView,
    input: RollbackInputView,
    segments: SegmentsView,
    now: Seq<char>,
    revision: Seq<char>,
) -> Result<RolledBackView, AppErrorView> {
    match rollback_refusal(store, inverse, input) {
        Some(e) => Err(e),
        None => match changeset_log::committed_remaps(store, input.history.id) {
            Err(e) => Err(e),
            Ok(remaps) => {
                let ids = moved_ids(remaps, remaps.len());
                let documents = table::ordered::<Pair>(rollback_documents(store, inverse, ids));
                match obstacle(store, inverse, remaps, ids) {
                    Some(e) => Err(e),
                    None => match all_restored(store, inverse, remaps, segments, now, revision) {
                        Err(e) => Err(e),
                        Ok(restored) => match store::recorded(
                            restored,
                            "changeset_rollback"@,
                            input.history.id,
                            rollback_detail(input, documents, revision),
                            now,
                            revision,
                        ) {
                            Err(e) => Err(e),
                            Ok(noted) => Ok(
                                RolledBackView {
                                    store: marked_rolled_back(noted, input.history.id, now),
                                    state: RollbackView {
                                        changeset_id: input.history.id,
                                        name: input.history.name,
                                        rollback_revision: revision,
                                        checkpoint: input.pre_rollback_checkpoint,
                                        graph_documents: documents,
                                    },
                                },
                            ),
                        },
                    },
                }
            },
        },
    }
}

/// The row of the changeset is still as the history says.
pub fn committed_as(live: &Store, history: &ChangesetHistoryState) -> (r: bool)
    ensures
        r == is_committed_as(live@, history@),
{
    match live.changesets.get(&history.id) {
        Some(row) => same_text(row.status.as_str(), "committed") && same_opt(
            &row.post_revision,
            &history.post_revision,
        ) && same_opt(&row.pre_commit_checkpoint, &history.pre_commit_checkpoint),
        None => false,
    }
}

fn find_refusal(live: &Store, inverse: &InversePayload, input: &ChangesetRollbackInput) -> (r: Option<
    AppError,
>)
    ensures
        text::opt_view(r) == rollback_refusal(live@, inverse@, input@),
{
    if !same_text(inverse.store_id.as_str(), input.store_id.as_str()) || !same_text(
        inverse.changeset_id.as_str(),
        input.history.id.as_str(),
    ) {
        return Some(
            AppError::new(
                ErrorCode::ChangesetCorrupt,
                "sparse inverse patch belongs to another Wiki or changeset",
            ),
        );
    }
    if input.history.post_revision.is_none() {
        return Some(
            AppError::new(
                ErrorCode::ChangesetCorrupt,
                "committed changeset has no post revision",
            ),
        );
    }
    if input.history.pre_commit_checkpoint.is_none() {
        return Some(
            AppError::new(
                ErrorCode::ChangesetCorrupt,
                "committed changeset has no pre-commit checkpoint",
            ),
        );
    }
    let identity = match live.identity() {
        Ok(identity) => identity,
        Err(e) => {
            return Some(e);
        },
    };
    if !same_text(identity.store_id.as_str(), input.store_id.as_str()) {
        return Some(
            AppError::new(
                ErrorCode::ChangesetScopeMismatch,
                "changeset is not bound to this live Wiki",
            ),
        );
    }
    if !committed_as(live, &input.history) {
        return Some(
            AppError::new(
                ErrorCode::ChangesetRollbackConflict,
                "changeset history changed before rollback",
            ),
        );
    }
    None
}

/// Restores all that a changeset changed, in a store that is given up on an error.
fn restore_all(
    live: &mut Store,
    inverse: &InversePayload,
    remaps: &Vec<SourceIdRemap>,
    segments: &Segments,
    now: &str,
    revision: &str,
) -> (r: Result<(), AppError>)
    ensures
        match all_restored(
            old(live)@,
            inverse@,
            text::views(remaps@),
            segments@,
            now@,
            revision@,
        ) {
            Ok(next) => r is Ok && final(live)@ == next,
            Err(e) => r matches Err(got) && got@ == e,
        },
{
    proof {
        assert(inverse@.pages.len() == inverse.pages@.len());
        assert(inverse@.tags.len() == inverse.tags@.len());
        assert(inverse@.meta.len() == inverse.meta@.len());
        assert(inverse@.sources.len() == inverse.sources@.len());
        assert(inverse@.source_paths.len() == inverse.source_paths@.len());
    }
    if let Err(e) = unlink_pages(live, &inverse.pages) {
        return Err(e);
    }
    if let Err(e) = restore_pages(live, &inverse.pages, segments, now, revision) {
        return Err(e);
    }
    if let Some(e) = find_inbound_obstacles(live, &inverse.pages) {
        return Err(e);
    }
    if let Err(e) = restore_tags(live, &inverse.tags, now, revision) {
        return Err(e);
    }
    if let Err(e) = restore_metas(live, &inverse.meta, now, revision) {
        return Err(e);
    }
    if let Err(e) = restore_sources(live, &inverse.sources, remaps, segments, now, revision) {
        return Err(e);
    }
    restore_paths(live, &inverse.source_paths)
}

fn encode_rollback(input: &ChangesetRollbackInput, documents: &Vec<Pair>, revision: &str) -> (r:
    Json)
    ensures
        r@ == rollback_detail(input@, text::views(documents@), revision@),
{
    let ghost goal = rollback_detail(input@, text::views(documents@), revision@);
    let mut entries: Vec<(String, Json)> = Vec::new();
    entries.push(
        (owned("committed_post_revision"), pages::encode_optional(&input.history.post_revision)),
    );
    entries.push((owned("graph_documents"), encode_documents(documents)));
    entries.push((owned("name"), Json::text(input.history.name.as_str())));
    entries.push(
        (
            owned("pre_commit_checkpoint"),
            pages::encode_optional(&input.history.pre_commit_checkpoint),
        ),
    );
    entries.push(
        (owned("pre_rollback_checkpoint"), Json::text(input.pre_rollback_checkpoint.as_str())),
    );
    entries.push((owned("rollback_revision"), Json::text(revision)));
    entries.push((owned("storage"), Json::text("sparse-v1")));
    assert(json::entry_views(entries@) =~= goal->Object_0);
    Json::object(entries)
}

impl Store {
    /// Marks a changeset as taken back.
    fn mark_rolled_back(&mut self, id: &str, now: &str)
        ensures
            final(self)@ == marked_rolled_back(old(self)@, id@, now@),
    {
        let key = owned(id);
        let row = match self.changesets.get(&key) {
            Some(row) => {
                let mut row = row.duplicate();
                row.status = owned("rolled_back");
                row.rolled_back_at = Some(owned(now));
                row
            },
            None => {
                return;
            },
        };
        self.changesets.put(key, row);
    }

    /// Takes a sparse changeset back.
    pub fn rollback_sparse_changeset(
        &mut self,
        inverse: &InversePayload,
        input: &ChangesetRollbackInput,
        segments: &Segments,
        now: &str,
        revision: &str,
    ) -> (r: Result<ChangesetRollbackState, AppError>)
        ensures
            match rollback_goal(old(self)@, inverse@, input@, segments@, now@, revision@) {
                Ok(done) => (r matches Ok(got) && got@ == done.state) && final(self)@
                    == done.store,
                Err(e) => (r matches Err(got) && got@ == e) && final(self)@ == old(self)@,
            },
    {
        if let Some(e) = find_refusal(self, inverse, input) {
            return Err(e);
        }
        let id = input.history.id.as_str();
        let remaps = match self.load_sparse_source_id_remap(id) {
            Ok(remaps) => remaps,
            Err(e) => {
                return Err(e);
            },
        };
        assert(text::views(remaps@).len() == remaps@.len());
        let ids = index_remaps(&remaps);
        let documents = list_rollback_documents(self, inverse, &ids);
        if let Some(e) = find_obstacle(self, inverse, &remaps, &ids) {
            return Err(e);
        }
        let mut next = self.duplicate();
        if let Err(e) = restore_all(&mut next, inverse, &remaps, segments, now, revision) {
            return Err(e);
        }
        let detail = encode_rollback(input, &documents, revision);
        if let Err(e) = next.record_operation("changeset_rollback", id, detail, now, revision) {
            return Err(e);
        }
        next.mark_rolled_back(id, now);
        *self = next;
        Ok(
            ChangesetRollbackState {
                changeset_id: owned(id),
                name: owned(input.history.name.as_str()),
                rollback_revision: owned(revision),
                checkpoint: owned(input.pre_rollback_checkpoint.as_str()),
                graph_documents: documents,
            },
        )
    }
}

} // verus!
