//! Merging a sparse draft into the live store.
use crate::changesets;
use crate::changesets::operations_since;
use crate::digest;
use crate::digest::hash_content;
use crate::error;
use crate::error::{AppError, AppErrorView, ErrorCode};
use crate::json;
use crate::json::{Json, JsonView};
use crate::pages;
use crate::pages::dedupe_i64;
use crate::rows::{OperationRow, OperationView, PageView, PathRevisionView, TagRow, TagView};
use crate::sources;
use crate::sources::has_id;
use crate::spans;
use crate::spans::{Segments, SegmentsView};
use crate::staging;
use crate::staging::tag_snapshot_fingerprint;
use crate::store;
use crate::store::{Store, StoreView};
use crate::table;
use crate::table::{Record, Table};
use crate::text;
use crate::text::{begins_with, decimal_text, has_text, join2, join3, owned, parse_i64, same_text};
use crate::touched;
use crate::touched::{
    list_page_targets, list_path_targets, list_source_targets, list_tag_targets, meta_key_of,
    tag_action, validate_sparse_operation_actions,
};
use vstd::prelude::*;

verus! {

// ---------------------------------------------------------------------------
// Obstacles
// ---------------------------------------------------------------------------

/// A change of the live store that stands in the way of a draft.
pub open spec fn conflict(message: Seq<char>, entity: Seq<char>, identifier: Seq<char>)
    -> AppErrorView {
    error::entity_error(
        ErrorCode::ChangesetConflict,
        message,
        entity,
        JsonView::Text(identifier),
    )
}

fn conflict_error(message: &str, entity: &str, identifier: &str) -> (r: AppError)
    ensures
        r@ == conflict(message@, entity@, identifier@),
{
    AppError::about(ErrorCode::ChangesetConflict, message, entity, Json::text(identifier))
}

/// What stands in the way of a key of the metadata.
pub open spec fn meta_obstacle(live: StoreView, draft: StoreView, key: Seq<char>) -> Option<
    AppErrorView,
> {
    match touched::meta_base(draft, key) {
        None => Some(store::no_rows()),
        Some(expected) => match store::meta_value(live, key) {
            None => Some(store::no_rows()),
            Some(observed) => if digest::text_digest(observed) != expected {
                Some(conflict(key + " changed after the changeset began"@, "meta"@, key))
            } else {
                None
            },
        },
    }
}

/// What stands in the way of the metadata that operations set.
pub open spec fn meta_obstacles(
    live: StoreView,
    draft: StoreView,
    operations: Seq<OperationView>,
) -> Option<AppErrorView>
    decreases operations.len(),
{
    if operations.len() == 0 {
        None
    } else {
        let rest = meta_obstacles(live, draft, operations.drop_first());
        match touched::meta_key(operations[0].action) {
            None => rest,
            Some(key) => match meta_obstacle(live, draft, key) {
                Some(e) => Some(e),
                None => rest,
            },
        }
    }
}

/// A page that changed since the draft first touched it.
pub open spec fn page_conflict(slug: Seq<char>) -> AppErrorView {
    conflict("page "@ + slug + " changed after it was first touched"@, "page"@, slug)
}

/// What stands in the way of a page.
pub open spec fn page_obstacle(live: StoreView, draft: StoreView, slug: Seq<char>) -> Option<
    AppErrorView,
> {
    let base = touched::page_base(draft, slug);
    let known = base is Some && base->0 != "absent"@;
    if !known && live.pages.dom().contains(slug) {
        Some(page_conflict(slug))
    } else if known && touched::or_absent(pages::content_mark(live, slug)) != base->0 {
        Some(page_conflict(slug))
    } else if !draft.pages.dom().contains(slug) && !live.pages.dom().contains(slug) {
        Some(
            error::app_error(
                ErrorCode::ChangesetCorrupt,
                "page mutation "@ + slug + " has neither an after image nor a live base"@,
            ),
        )
    } else {
        None
    }
}

/// What stands in the way of pages.
pub open spec fn page_obstacles(live: StoreView, draft: StoreView, slugs: Seq<Seq<char>>) -> Option<
    AppErrorView,
>
    decreases slugs.len(),
{
    if slugs.len() == 0 {
        None
    } else {
        match page_obstacle(live, draft, slugs[0]) {
            Some(e) => Some(e),
            None => page_obstacles(live, draft, slugs.drop_first()),
        }
    }
}

/// All operations on tags name their tag.
pub open spec fn tags_named(operations: Seq<OperationView>) -> bool {
    forall|k: int|
        0 <= k < operations.len() && touched::is_tag_action((#[trigger] operations[k]).action)
            ==> operations[k].detail.text_at("tag"@) is Some
}

/// What stands in the way of a tag.
pub open spec fn tag_obstacle(live: StoreView, draft: StoreView, tag: Seq<char>) -> Option<
    AppErrorView,
> {
    match touched::tag_base(draft, tag) {
        None => Some(store::no_rows()),
        Some(expected) => if staging::tag_mark(staging::tag_snapshot(live, tag)) != expected {
            Some(conflict("tag "@ + tag + " changed after it was first touched"@, "tag"@, tag))
        } else {
            None
        },
    }
}

/// What stands in the way of tags.
pub open spec fn tag_obstacles(live: StoreView, draft: StoreView, tags: Seq<Seq<char>>) -> Option<
    AppErrorView,
>
    decreases tags.len(),
{
    if tags.len() == 0 {
        None
    } else {
        match tag_obstacle(live, draft, tags[0]) {
            Some(e) => Some(e),
            None => tag_obstacles(live, draft, tags.drop_first()),
        }
    }
}

/// What stands in the way of a draft, before anything is merged.
pub open spec fn obstacle(
    live: StoreView,
    draft: StoreView,
    operations: Seq<OperationView>,
    validate: bool,
) -> Option<AppErrorView> {
    let unsupported = touched::first_unsupported(operations);
    if validate && unsupported is Some {
        Some(touched::sparse_unsupported(unsupported->0))
    } else {
        match meta_obstacles(live, draft, operations) {
            Some(e) => Some(e),
            None => match page_obstacles(
                live,
                draft,
                text::sorted(touched::page_targets(operations)),
            ) {
                Some(e) => Some(e),
                None => if !tags_named(operations) {
                    Some(
                        error::app_error(ErrorCode::ChangesetCorrupt, "tag operation lacks tag"@),
                    )
                } else {
                    tag_obstacles(live, draft, text::sorted(touched::tag_targets(operations)))
                },
            },
        }
    }
}

/// Finds what stands in the way of a draft.
fn find_obstacle(
    live: &Store,
    draft: &Store,
    operations: &Vec<OperationRow>,
    validate: bool,
) -> (r: Option<AppError>)
    ensures
        text::opt_view(r) == obstacle(live@, draft@, text::views(operations@), validate),
{
    let ghost all = text::views(operations@);
    if validate {
        if let Err(e) = validate_sparse_operation_actions(operations) {
            return Some(e);
        }
    }
    let mut i: usize = 0;
    assert(all.skip(0) =~= all);
    while i < operations.len()
        invariant
            i <= operations@.len() == all.len(),
            all == text::views(operations@),
            meta_obstacles(live@, draft@, all) == meta_obstacles(
                live@,
                draft@,
                all.skip(i as int),
            ),
        decreases operations@.len() - i,
    {
        assert(all.skip(i as int)[0] == operations@[i as int]@);
        assert(all.skip(i as int).drop_first() =~= all.skip(i + 1));
        if let Some(key) = meta_key_of(operations[i].action.as_str()) {
            let base_key = join2("changeset_base_meta:", key);
            let expected = match draft.meta_text(base_key.as_str()) {
                Some(expected) => expected,
                None => {
                    return Some(store::no_rows_error());
                },
            };
            let observed = match live.meta_text(key) {
                Some(observed) => observed,
                None => {
                    return Some(store::no_rows_error());
                },
            };
            if !same_text(hash_content(observed.as_str()).as_str(), expected.as_str()) {
                return Some(
                    conflict_error(
                        join2(key, " changed after the changeset began").as_str(),
                        "meta",
                        key,
                    ),
                );
            }
        }
        i += 1;
    }
    let slugs = list_page_targets(operations);
    let ghost names = text::views(slugs@);
    let mut i: usize = 0;
    assert(names.skip(0) =~= names);
    while i < slugs.len()
        invariant
            i <= slugs@.len() == names.len(),
            names == text::views(slugs@),
            page_obstacles(live@, draft@, names) == page_obstacles(
                live@,
                draft@,
                names.skip(i as int),
            ),
        decreases slugs@.len() - i,
    {
        assert(names.skip(i as int)[0] == slugs@[i as int]@);
        assert(names.skip(i as int).drop_first() =~= names.skip(i + 1));
        if let Some(e) = find_page_obstacle(live, draft, slugs[i].as_str()) {
            return Some(e);
        }
        i += 1;
    }
    let mut i: usize = 0;
    while i < operations.len()
        invariant
            i <= operations@.len() == all.len(),
            all == text::views(operations@),
            forall|k: int|
                0 <= k < i && touched::is_tag_action((#[trigger] all[k]).action)
                    ==> all[k].detail.text_at("tag"@) is Some,
        decreases operations@.len() - i,
    {
        assert(all[i as int] == operations@[i as int]@);
        if tag_action(operations[i].action.as_str()) && operations[i].detail.text_at(
            "tag",
        ).is_none() {
            return Some(AppError::new(ErrorCode::ChangesetCorrupt, "tag operation lacks tag"));
        }
        i += 1;
    }
    let tags = list_tag_targets(operations);
    let ghost names = text::views(tags@);
    let mut i: usize = 0;
    assert(names.skip(0) =~= names);
    while i < tags.len()
        invariant
            i <= tags@.len() == names.len(),
            names == text::views(tags@),
            tag_obstacles(live@, draft@, names) == tag_obstacles(
                live@,
                draft@,
                names.skip(i as int),
            ),
        decreases tags@.len() - i,
    {
        let tag = tags[i].as_str();
        assert(names.skip(i as int)[0] == tag@);
        assert(names.skip(i as int).drop_first() =~= names.skip(i + 1));
        let base_key = join2("changeset_base_tag:", tag);
        let expected = match draft.meta_text(base_key.as_str()) {
            Some(expected) => expected,
            None => {
                return Some(store::no_rows_error());
            },
        };
        let observed = tag_snapshot_fingerprint(&live.load_tag_snapshot(tag));
        if !same_text(observed.as_str(), expected.as_str()) {
            return Some(
                conflict_error(
                    join3("tag ", tag, " changed after it was first touched").as_str(),
                    "tag",
                    tag,
                ),
            );
        }
        i += 1;
    }
    None
}

fn find_page_obstacle(live: &Store, draft: &Store, slug: &str) -> (r: Option<AppError>)
    ensures
        text::opt_view(r) == page_obstacle(live@, draft@, slug@),
{
    let base_key = join2("changeset_base_page:", slug);
    let base = draft.meta_text(base_key.as_str());
    let known = match &base {
        Some(mark) => !same_text(mark.as_str(), "absent"),
        None => false,
    };
    let live_exists = live.pages.has(&owned(slug));
    if !known && live_exists {
        return Some(
            conflict_error(
                join3("page ", slug, " changed after it was first touched").as_str(),
                "page",
                slug,
            ),
        );
    }
    if known {
        let observed = match live.page_mutation_fingerprint(slug) {
            Some(mark) => mark,
            None => owned("absent"),
        };
        let expected = match base {
            Some(mark) => mark,
            None => String::new(),
        };
        if !same_text(observed.as_str(), expected.as_str()) {
            return Some(
                conflict_error(
                    join3("page ", slug, " changed after it was first touched").as_str(),
                    "page",
                    slug,
                ),
            );
        }
    }
    if !draft.pages.has(&owned(slug)) && !live_exists {
        return Some(
            AppError::new(
                ErrorCode::ChangesetCorrupt,
                join3(
                    "page mutation ",
                    slug,
                    " has neither an after image nor a live base",
                ).as_str(),
            ),
        );
    }
    None
}

// ---------------------------------------------------------------------------
// Sources
// ---------------------------------------------------------------------------

/// Where a source of a draft stands in the live store.
pub struct SourceIdRemap {
    pub draft_id: i64,
    pub live_id: i64,
    pub created: bool,
}

#[verifier::ext_equal]
pub struct RemapView {
    pub draft_id: i64,
    pub live_id: i64,
    pub created: bool,
}

impl View for SourceIdRemap {
    type V = RemapView;

    open spec fn view(&self) -> RemapView {
        RemapView {
            draft_id: self.draft_id,
            live_id: self.live_id,
            created: self.created,
        }
    }
}

impl Record for SourceIdRemap {
    fn duplicate(&self) -> (r: Self) {
        SourceIdRemap {
            draft_id: self.draft_id,
            live_id: self.live_id,
            created: self.created,
        }
    }

    fn same(&self, other: &Self) -> (r: bool) {
        self.draft_id == other.draft_id
            && self.live_id == other.live_id
            && self.created == other.created
    }
}


/// The texts of a list.
pub open spec fn texts_in(items: Seq<JsonView>) -> Seq<Seq<char>>
    decreases items.len(),
{
    if items.len() == 0 {
        Seq::empty()
    } else {
        let head = texts_in(items.drop_last());
        match items.last() {
            JsonView::Text(said) => head.push(said),
            _ => head,
        }
    }
}

/// The paths that an operation of the live store changed.
pub open spec fn changed_paths(op: OperationView) -> Seq<Seq<char>> {
    if op.action == "source_add"@ && op.detail.bool_at("path_advanced"@) == Some(true) {
        match op.detail.text_at("tracked_path"@) {
            Some(path) => seq![path],
            None => Seq::empty(),
        }
    } else if op.action == "source_remove"@ {
        let list = if op.detail.get("affected_paths"@) is Some {
            op.detail.array_at("affected_paths"@)
        } else {
            op.detail.array_at("untracked_paths"@)
        };
        match list {
            Some(items) => texts_in(items),
            None => Seq::empty(),
        }
    } else {
        Seq::empty()
    }
}

/// The first of a list that is also in a set.
pub open spec fn first_shared(list: Seq<Seq<char>>, set: Set<Seq<char>>) -> Option<Seq<char>>
    decreases list.len(),
{
    if list.len() == 0 {
        None
    } else if set.contains(list[0]) {
        Some(list[0])
    } else {
        first_shared(list.drop_first(), set)
    }
}

/// The first path that both the draft and the live store changed.
pub open spec fn path_clash(operations: Seq<OperationView>, paths: Set<Seq<char>>) -> Option<
    Seq<char>,
>
    decreases operations.len(),
{
    if operations.len() == 0 {
        None
    } else {
        match first_shared(changed_paths(operations[0]), paths) {
            Some(path) => Some(path),
            None => path_clash(operations.drop_first(), paths),
        }
    }
}

/// The sources of a draft so far in the live store.
#[verifier::ext_equal]
pub struct PlacedView {
    pub store: StoreView,
    pub remaps: Seq<RemapView>,
    pub ids: Map<i64, i64>,
}

/// The live store with a job of the draft, where it has one.
pub open spec fn job_carried(store: StoreView, draft: StoreView, from: i64, to: i64) -> StoreView {
    if draft.ingest_jobs.dom().contains(from) {
        StoreView {
            ingest_jobs: store.ingest_jobs.insert(to, draft.ingest_jobs[from]),
            ..store
        }
    } else {
        store
    }
}

/// A source of the draft noted under its identifier in the live store.
pub open spec fn placed_at(
    so_far: PlacedView,
    store: StoreView,
    draft: StoreView,
    id: i64,
    at: i64,
    created: bool,
    now: Seq<char>,
) -> PlacedView {
    let with_job = sources::with_job(store, at, now);
    PlacedView {
        store: if created {
            job_carried(with_job, draft, id, at)
        } else {
            with_job
        },
        remaps: if id != at || !created {
            so_far.remaps.push(RemapView { draft_id: id, live_id: at, created })
        } else {
            so_far.remaps
        },
        ids: so_far.ids.insert(id, at),
    }
}

/// A source of the draft placed in the live store: where its content is known, under
/// its identifier there; else under its own, or under a fresh one.
#[verifier::opaque]
pub open spec fn source_placed(
    so_far: PlacedView,
    draft: StoreView,
    segments: SegmentsView,
    id: i64,
    now: Seq<char>,
) -> Result<PlacedView, AppErrorView> {
    if !draft.sources.dom().contains(id) {
        error::refused(
            ErrorCode::ChangesetCorrupt,
            "staged source "@ + text::decimal(id as int) + " is missing"@,
        )
    } else {
        let source = draft.sources[id];
        match sources::source_with_hash(so_far.store, source.content_hash) {
            Some(known) => Ok(placed_at(so_far, so_far.store, draft, id, known, false, now)),
            None => if !so_far.store.sources.dom().contains(id) {
                match sources::source_kept(so_far.store, segments, id, source) {
                    Err(e) => Err(e),
                    Ok(next) => Ok(placed_at(so_far, next, draft, id, id, true, now)),
                }
            } else {
                match sources::source_created(so_far.store, segments, source) {
                    Err(e) => Err(e),
                    Ok(next) => Ok(
                        placed_at(
                            so_far,
                            next,
                            draft,
                            id,
                            (so_far.store.source_sequence + 1) as i64,
                            true,
                            now,
                        ),
                    ),
                }
            },
        }
    }
}

/// The first `count` sources of the draft placed in the live store.
pub open spec fn sources_placed(
    live: StoreView,
    draft: StoreView,
    segments: SegmentsView,
    ids: Seq<i64>,
    now: Seq<char>,
    count: nat,
) -> Result<PlacedView, AppErrorView>
    decreases count,
{
    if count == 0 || count > ids.len() {
        Ok(PlacedView { store: live, remaps: Seq::empty(), ids: Map::empty() })
    } else {
        match sources_placed(live, draft, segments, ids, now, (count - 1) as nat) {
            Err(e) => Err(e),
            Ok(so_far) => source_placed(so_far, draft, segments, ids[count - 1], now),
        }
    }
}

/// Where a source of a draft stands, if it moved.
pub open spec fn remap_of(remaps: Seq<RemapView>, id: i64) -> Option<RemapView>
    decreases remaps.len(),
{
    if remaps.len() == 0 {
        None
    } else if remaps[0].draft_id == id {
        Some(remaps[0])
    } else {
        remap_of(remaps.drop_first(), id)
    }
}

/// An operation on a job, told of the source as the live store knows it.
pub open spec fn ingest_retold(op: OperationView, remaps: Seq<RemapView>) -> Result<
    OperationView,
    AppErrorView,
> {
    let id = text::reads_as_i64(op.target);
    if !"ingest_"@.is_prefix_of(op.action) || id is None {
        Ok(op)
    } else {
        match remap_of(remaps, id->0 as i64) {
            None => Ok(op),
            Some(remap) => if !remap.created {
                error::refused(
                    ErrorCode::ChangesetConflict,
                    "source content for "@ + text::decimal(id->0 as i64 as int)
                        + " was added concurrently before ingest state could merge"@,
                )
            } else {
                Ok(OperationView { target: text::decimal(remap.live_id as int), ..op })
            },
        }
    }
}

/// The first `count` operations, told of the sources as the live store knows them.
pub open spec fn ingests_retold(
    operations: Seq<OperationView>,
    remaps: Seq<RemapView>,
    count: nat,
) -> Result<Seq<OperationView>, AppErrorView>
    decreases count,
{
    if count == 0 || count > operations.len() {
        Ok(Seq::empty())
    } else {
        match ingests_retold(operations, remaps, (count - 1) as nat) {
            Err(e) => Err(e),
            Ok(head) => match ingest_retold(operations[count - 1], remaps) {
                Err(e) => Err(e),
                Ok(op) => Ok(head.push(op)),
            },
        }
    }
}

/// When a draft observed a source at a revision of a path.
pub open spec fn observed_at(
    log: Seq<PathRevisionView>,
    revision: i64,
    source_id: i64,
) -> Option<Seq<char>>
    decreases log.len(),
{
    if log.len() == 0 {
        None
    } else if log[0].revision == revision && log[0].source_id == source_id {
        Some(log[0].observed_at)
    } else {
        observed_at(log.drop_first(), revision, source_id)
    }
}

/// Operations that were carried over so far, and the store.
#[verifier::ext_equal]
pub struct CarriedView {
    pub store: StoreView,
    pub operations: Seq<OperationView>,
}

/// The identifier of a source of the draft in the live store.
pub open spec fn live_id(ids: Map<i64, i64>, id: i64) -> i64 {
    if ids.dom().contains(id) {
        ids[id]
    } else {
        id
    }
}

/// The details of an added source, told of the live store.
pub open spec fn retold_detail(
    detail: JsonView,
    source_id: i64,
    created: bool,
    revision: i64,
    advanced: bool,
) -> JsonView {
    match detail {
        JsonView::Object(entries) => JsonView::Object(
            json::with_entry(
                json::with_entry(
                    json::with_entry(
                        json::with_entry(
                            entries,
                            "path_revision"@,
                            JsonView::Int(revision as int),
                        ),
                        "path_advanced"@,
                        JsonView::Bool(advanced),
                    ),
                    "source_id"@,
                    JsonView::Int(source_id as int),
                ),
                "created"@,
                JsonView::Bool(created),
            ),
        ),
        other => other,
    }
}

/// An observation of the draft, repeated in the live store.
pub open spec fn observation_carried(
    so_far: CarriedView,
    draft: StoreView,
    op: OperationView,
    remaps: Seq<RemapView>,
    ids: Map<i64, i64>,
) -> Result<CarriedView, AppErrorView> {
    if op.action != "source_add"@ {
        Ok(CarriedView { operations: so_far.operations.push(op), ..so_far })
    } else {
        match op.detail.text_at("tracked_path"@) {
            None => Ok(CarriedView { operations: so_far.operations.push(op), ..so_far }),
            Some(path) => match op.detail.int_at("source_id"@) {
                None => error::refused(
                    ErrorCode::ChangesetCorrupt,
                    "source_add lacks source_id"@,
                ),
                Some(draft_id) => match op.detail.int_at("path_revision"@) {
                    None => error::refused(
                        ErrorCode::ChangesetCorrupt,
                        "source_add lacks path_revision"@,
                    ),
                    Some(revision) => match observed_at(
                        sources::path_log(draft.paths, path),
                        revision,
                        draft_id,
                    ) {
                        None => Err(store::no_rows()),
                        Some(at) => {
                            let source_id = live_id(ids, draft_id);
                            let remap = remap_of(remaps, draft_id);
                            let created = remap is None || remap->0.created;
                            match sources::observed(so_far.store.paths, path, source_id, at) {
                                Err(e) => Err(e),
                                Ok(o) => Ok(
                                    CarriedView {
                                        store: StoreView { paths: o.paths, ..so_far.store },
                                        operations: so_far.operations.push(
                                            OperationView {
                                                detail: retold_detail(
                                                    op.detail,
                                                    source_id,
                                                    created,
                                                    o.revision,
                                                    o.advanced,
                                                ),
                                                ..op
                                            },
                                        ),
                                    },
                                ),
                            }
                        },
                    },
                },
            },
        }
    }
}

/// The first `count` observations of the draft, repeated in the live store.
pub open spec fn observations_carried(
    live: StoreView,
    draft: StoreView,
    operations: Seq<OperationView>,
    remaps: Seq<RemapView>,
    ids: Map<i64, i64>,
    count: nat,
) -> Result<CarriedView, AppErrorView>
    decreases count,
{
    if count == 0 || count > operations.len() {
        Ok(CarriedView { store: live, operations: Seq::empty() })
    } else {
        match observations_carried(live, draft, operations, remaps, ids, (count - 1) as nat) {
            Err(e) => Err(e),
            Ok(so_far) => observation_carried(so_far, draft, operations[count - 1], remaps, ids),
        }
    }
}

/// The sources of a draft merged into the live store.
#[verifier::ext_equal]
pub struct MergedSourcesView {
    pub store: StoreView,
    pub operations: Seq<OperationView>,
    pub remaps: Seq<RemapView>,
    pub ids: Map<i64, i64>,
}

/// What merging the sources of a draft comes to.
pub open spec fn sources_merged(
    live: StoreView,
    draft: StoreView,
    segments: SegmentsView,
    operations: Seq<OperationView>,
    now: Seq<char>,
) -> Result<MergedSourcesView, AppErrorView> {
    match changesets::draft_of(draft, None) {
        None => Err(store::no_rows()),
        Some(changeset) => {
            let base = draft.changesets[changeset].base_operation_id;
            let since = store::operations_after(live.operations, base);
            match path_clash(since, touched::path_targets(operations)) {
                Some(path) => error::refused(
                    ErrorCode::ChangesetConflict,
                    "source path "@ + path + " advanced while the changeset was open"@,
                ),
                None => {
                    let ids = table::ordered::<i64>(touched::source_targets(operations));
                    match sources_placed(live, draft, segments, ids, now, ids.len()) {
                        Err(e) => Err(e),
                        Ok(placed) => match ingests_retold(
                            operations,
                            placed.remaps,
                            operations.len(),
                        ) {
                            Err(e) => Err(e),
                            Ok(retold) => match observations_carried(
                                placed.store,
                                draft,
                                retold,
                                placed.remaps,
                                placed.ids,
                                retold.len(),
                            ) {
                                Err(e) => Err(e),
                                Ok(carried) => Ok(
                                    MergedSourcesView {
                                        store: carried.store,
                                        operations: carried.operations,
                                        remaps: placed.remaps,
                                        ids: placed.ids,
                                    },
                                ),
                            },
                        },
                    }
                },
            }
        },
    }
}

/// Where a source of a draft stands, if it moved.
pub fn find_remap<'a>(remaps: &'a Vec<SourceIdRemap>, id: i64) -> (r: Option<&'a SourceIdRemap>)
    ensures
        match remap_of(text::views(remaps@), id) {
            Some(remap) => r matches Some(found) && found@ == remap,
            None => r is None,
        },
{
    let ghost all = text::views(remaps@);
    let mut i: usize = 0;
    assert(all.skip(0) =~= all);
    while i < remaps.len()
        invariant
            i <= remaps@.len() == all.len(),
            all == text::views(remaps@),
            remap_of(all, id) == remap_of(all.skip(i as int), id),
        decreases remaps@.len() - i,
    {
        assert(all.skip(i as int)[0] == remaps@[i as int]@);
        assert(all.skip(i as int).drop_first() =~= all.skip(i + 1));
        if remaps[i].draft_id == id {
            return Some(&remaps[i]);
        }
        i += 1;
    }
    None
}

/// The texts of a list.
fn list_texts(items: &Vec<Json>) -> (r: Vec<String>)
    ensures
        text::views(r@) == texts_in(text::views(items@)),
{
    let ghost all = text::views(items@);
    let mut out: Vec<String> = Vec::new();
    assert(text::views(out@) =~= Seq::empty());
    let mut i: usize = 0;
    while i < items.len()
        invariant
            i <= items@.len() == all.len(),
            all == text::views(items@),
            text::views(out@) == texts_in(all.take(i as int)),
        decreases items@.len() - i,
    {
        assert(all.take(i + 1).drop_last() =~= all.take(i as int));
        assert(all.take(i + 1).last() == items@[i as int]@);
        if let Json::Text(said) = &items[i] {
            let copy = owned(said.as_str());
            proof {
                text::lemma_views_push(out@, copy);
            }
            out.push(copy);
        }
        i += 1;
    }
    assert(all.take(i as int) =~= all);
    out
}

/// The paths that an operation of the live store changed.
fn list_changed_paths(op: &OperationRow) -> (r: Vec<String>)
    ensures
        text::views(r@) == changed_paths(op@),
{
    let mut out: Vec<String> = Vec::new();
    assert(text::views(out@) =~= Seq::empty());
    let advanced = match op.detail.bool_at("path_advanced") {
        Some(b) => b,
        None => false,
    };
    if same_text(op.action.as_str(), "source_add") && advanced {
        if let Some(path) = op.detail.text_at("tracked_path") {
            out.push(owned(path.as_str()));
            assert(text::views(out@) =~= seq![path@]);
        }
        return out;
    }
    if same_text(op.action.as_str(), "source_remove") {
        let list = if op.detail.get("affected_paths").is_some() {
            op.detail.array_at("affected_paths")
        } else {
            op.detail.array_at("untracked_paths")
        };
        if let Some(items) = list {
            return list_texts(items);
        }
    }
    out
}

/// The first path that both the draft and the live store changed.
fn find_path_clash(operations: &Vec<OperationRow>, paths: &Vec<String>) -> (r: Option<String>)
    ensures
        text::opt_text(r) == path_clash(
            text::views(operations@),
            text::views(paths@).to_set(),
        ),
{
    let ghost all = text::views(operations@);
    let ghost set = text::views(paths@).to_set();
    let mut i: usize = 0;
    assert(all.skip(0) =~= all);
    while i < operations.len()
        invariant
            i <= operations@.len() == all.len(),
            all == text::views(operations@),
            path_clash(all, set) == path_clash(all.skip(i as int), set),
        decreases operations@.len() - i,
    {
        assert(all.skip(i as int)[0] == operations@[i as int]@);
        assert(all.skip(i as int).drop_first() =~= all.skip(i + 1));
        let changed = list_changed_paths(&operations[i]);
        let ghost list = text::views(changed@);
        let mut k: usize = 0;
        assert(list.skip(0) =~= list);
        while k < changed.len()
            invariant
                k <= changed@.len() == list.len(),
                list == text::views(changed@),
                first_shared(list, set) == first_shared(list.skip(k as int), set),
            decreases changed@.len() - k,
        {
            assert(list.skip(k as int)[0] == changed@[k as int]@);
            assert(list.skip(k as int).drop_first() =~= list.skip(k + 1));
            if has_text(paths, changed[k].as_str()) {
                return Some(owned(changed[k].as_str()));
            }
            k += 1;
        }
        i += 1;
    }
    None
}

proof fn lemma_placed_stop(
    live: StoreView,
    draft: StoreView,
    segments: SegmentsView,
    ids: Seq<i64>,
    now: Seq<char>,
    count: nat,
    more: nat,
)
    requires
        count <= more <= ids.len(),
        sources_placed(live, draft, segments, ids, now, count) is Err,
    ensures
        sources_placed(live, draft, segments, ids, now, more) == sources_placed(
            live,
            draft,
            segments,
            ids,
            now,
            count,
        ),
    decreases more,
{
    if count < more {
        lemma_placed_stop(live, draft, segments, ids, now, count, (more - 1) as nat);
    }
}

proof fn lemma_retold_stop(
    operations: Seq<OperationView>,
    remaps: Seq<RemapView>,
    count: nat,
    more: nat,
)
    requires
        count <= more <= operations.len(),
        ingests_retold(operations, remaps, count) is Err,
    ensures
        ingests_retold(operations, remaps, more) == ingests_retold(operations, remaps, count),
    decreases more,
{
    if count < more {
        lemma_retold_stop(operations, remaps, count, (more - 1) as nat);
    }
}

proof fn lemma_carried_stop(
    live: StoreView,
    draft: StoreView,
    operations: Seq<OperationView>,
    remaps: Seq<RemapView>,
    ids: Map<i64, i64>,
    count: nat,
    more: nat,
)
    requires
        count <= more <= operations.len(),
        observations_carried(live, draft, operations, remaps, ids, count) is Err,
    ensures
        observations_carried(live, draft, operations, remaps, ids, more) == observations_carried(
            live,
            draft,
            operations,
            remaps,
            ids,
            count,
        ),
    decreases more,
{
    if count < more {
        lemma_carried_stop(live, draft, operations, remaps, ids, count, (more - 1) as nat);
    }
}

/// Where the sources of a draft stand in the live store.
struct Placement {
    remaps: Vec<SourceIdRemap>,
    ids: Table<i64, i64>,
}

fn place_source(
    live: &mut Store,
    placement: &mut Placement,
    draft: &Store,
    segments: &Segments,
    id: i64,
    now: &str,
) -> (r: Result<(), AppError>)
    ensures
        match source_placed(
            PlacedView {
                store: old(live)@,
                remaps: text::views(old(placement).remaps@),
                ids: old(placement).ids@,
            },
            draft@,
            segments@,
            id,
            now@,
        ) {
            Ok(next) => r is Ok && next == (PlacedView {
                store: final(live)@,
                remaps: text::views(final(placement).remaps@),
                ids: final(placement).ids@,
            }),
            Err(e) => r matches Err(got) && got@ == e,
        },
{
    proof {
        reveal(source_placed);
    }
    let source = match draft.sources.get(&id) {
        Some(source) => source,
        None => {
            return Err(
                AppError::new(
                    ErrorCode::ChangesetCorrupt,
                    join3("staged source ", decimal_text(id).as_str(), " is missing").as_str(),
                ),
            );
        },
    };
    let known = live.source_id_by_content_hash(source.content_hash.as_str());
    let (at, created) = match known {
        Some(known) => (known, false),
        None => {
            let at: i64 = if !live.sources.has(&id) {
                id
            } else {
                if live.source_sequence >= i64::MAX {
                    return Err(
                        AppError::new(
                            ErrorCode::DatabaseError,
                            "source identifiers are exhausted",
                        ),
                    );
                }
                live.source_sequence + 1
            };
            if let Err(e) = live.keep_source(segments, at, source.duplicate()) {
                return Err(e);
            }
            (at, true)
        },
    };
    live.ensure_job(at, now);
    if created {
        if let Some(job) = draft.ingest_jobs.get(&id) {
            live.ingest_jobs.put(at, job.duplicate());
        }
    }
    placement.ids.put(id, at);
    if id != at || !created {
        let remap = SourceIdRemap { draft_id: id, live_id: at, created };
        proof {
            text::lemma_views_push(placement.remaps@, remap);
        }
        placement.remaps.push(remap);
    }
    Ok(())
}

fn retell_ingest(op: &OperationRow, remaps: &Vec<SourceIdRemap>) -> (r: Result<
    OperationRow,
    AppError,
>)
    ensures
        error::outcome(r) == ingest_retold(op@, text::views(remaps@)),
{
    if !begins_with(op.action.as_str(), "ingest_") {
        return Ok(op.duplicate());
    }
    let id = match parse_i64(op.target.as_str()) {
        Some(id) => id,
        None => {
            return Ok(op.duplicate());
        },
    };
    match find_remap(remaps, id) {
        None => Ok(op.duplicate()),
        Some(remap) => {
            if !remap.created {
                return Err(
                    AppError::new(
                        ErrorCode::ChangesetConflict,
                        join3(
                            "source content for ",
                            decimal_text(id).as_str(),
                            " was added concurrently before ingest state could merge",
                        ).as_str(),
                    ),
                );
            }
            let mut next = op.duplicate();
            next.target = decimal_text(remap.live_id);
            Ok(next)
        },
    }
}

fn find_observation(draft: &Store, path: &str, revision: i64, source_id: i64) -> (r: Option<String>)
    ensures
        text::opt_text(r) == observed_at(
            sources::path_log(draft@.paths, path@),
            revision,
            source_id,
        ),
{
    let log = match draft.paths.get(&owned(path)) {
        Some(log) => log,
        None => {
            return None;
        },
    };
    let ghost all = log@;
    assert(all.len() == log.list@.len());
    let mut i: usize = 0;
    assert(all.skip(0) =~= all);
    while i < log.list.len()
        invariant
            i <= log.list@.len() == all.len(),
            all == text::views(log.list@),
            observed_at(all, revision, source_id) == observed_at(
                all.skip(i as int),
                revision,
                source_id,
            ),
        decreases log.list@.len() - i,
    {
        assert(all.skip(i as int)[0] == log.list@[i as int]@);
        assert(all.skip(i as int).drop_first() =~= all.skip(i + 1));
        if log.list[i].revision == revision && log.list[i].source_id == source_id {
            return Some(owned(log.list[i].observed_at.as_str()));
        }
        i += 1;
    }
    None
}

fn carry_observation(
    live: &mut Store,
    draft: &Store,
    op: &OperationRow,
    placement: &Placement,
    carried: &mut Vec<OperationRow>,
) -> (r: Result<(), AppError>)
    ensures
        match observation_carried(
            CarriedView { store: old(live)@, operations: text::views(old(carried)@) },
            draft@,
            op@,
            text::views(placement.remaps@),
            placement.ids@,
        ) {
            Ok(next) => r is Ok && next == (CarriedView {
                store: final(live)@,
                operations: text::views(final(carried)@),
            }),
            Err(e) => r matches Err(got) && got@ == e,
        },
{
    let mut next = op.duplicate();
    let path = if same_text(op.action.as_str(), "source_add") {
        op.detail.text_at("tracked_path")
    } else {
        None
    };
    if let Some(path) = path {
        let draft_id = match op.detail.int_at("source_id") {
            Some(id) => id,
            None => {
                return Err(
                    AppError::new(ErrorCode::ChangesetCorrupt, "source_add lacks source_id"),
                );
            },
        };
        let seen = match op.detail.int_at("path_revision") {
            Some(seen) => seen,
            None => {
                return Err(
                    AppError::new(ErrorCode::ChangesetCorrupt, "source_add lacks path_revision"),
                );
            },
        };
        let at = match find_observation(draft, path.as_str(), seen, draft_id) {
            Some(at) => at,
            None => {
                return Err(store::no_rows_error());
            },
        };
        let source_id: i64 = match placement.ids.get(&draft_id) {
            Some(id) => *id,
            None => draft_id,
        };
        let created = match find_remap(&placement.remaps, draft_id) {
            Some(remap) => remap.created,
            None => true,
        };
        match live.record_source_path_revision_at(path.as_str(), source_id, at.as_str()) {
            Ok((revision, advanced)) => {
                next.detail.set("path_revision", Json::Int(revision));
                next.detail.set("path_advanced", Json::Bool(advanced));
                next.detail.set("source_id", Json::Int(source_id));
                next.detail.set("created", Json::Bool(created));
            },
            Err(e) => {
                return Err(e);
            },
        }
    }
    proof {
        text::lemma_views_push(carried@, next);
    }
    carried.push(next);
    Ok(())
}

/// Places the sources of a draft in a store that is given up on an error.
fn place_sources(
    live: &mut Store,
    draft: &Store,
    segments: &Segments,
    ids: &Vec<i64>,
    now: &str,
) -> (r: Result<Placement, AppError>)
    ensures
        match sources_placed(old(live)@, draft@, segments@, ids@, now@, ids@.len()) {
            Ok(done) => {
                &&& r matches Ok(got)
                &&& done == (PlacedView {
                    store: final(live)@,
                    remaps: text::views(got.remaps@),
                    ids: got.ids@,
                })
            },
            Err(e) => r matches Err(got) && got@ == e,
        },
{
    let ghost start = live@;
    let mut placement = Placement { remaps: Vec::new(), ids: Table::new() };
    assert(text::views(placement.remaps@) =~= Seq::empty());
    let mut i: usize = 0;
    while i < ids.len()
        invariant
            i <= ids@.len(),
            sources_placed(start, draft@, segments@, ids@, now@, i as nat) == Ok::<
                PlacedView,
                AppErrorView,
            >(
                PlacedView {
                    store: live@,
                    remaps: text::views(placement.remaps@),
                    ids: placement.ids@,
                },
            ),
        decreases ids@.len() - i,
    {
        if let Err(e) = place_source(live, &mut placement, draft, segments, ids[i], now) {
            proof {
                lemma_placed_stop(
                    start,
                    draft@,
                    segments@,
                    ids@,
                    now@,
                    (i + 1) as nat,
                    ids@.len(),
                );
            }
            return Err(e);
        }
        i += 1;
    }
    Ok(placement)
}

/// Tells operations on jobs of the sources as the live store knows them.
fn retell_ingests(operations: &Vec<OperationRow>, remaps: &Vec<SourceIdRemap>) -> (r: Result<
    Vec<OperationRow>,
    AppError,
>)
    ensures
        match ingests_retold(text::views(operations@), text::views(remaps@), operations@.len()) {
            Ok(done) => r matches Ok(got) && text::views(got@) == done,
            Err(e) => r matches Err(got) && got@ == e,
        },
{
    let ghost all = text::views(operations@);
    let ghost moved = text::views(remaps@);
    let mut retold: Vec<OperationRow> = Vec::new();
    assert(text::views(retold@) =~= Seq::empty());
    let mut i: usize = 0;
    while i < operations.len()
        invariant
            i <= operations@.len() == all.len(),
            all == text::views(operations@),
            ingests_retold(all, moved, i as nat) == Ok::<Seq<OperationView>, AppErrorView>(
                text::views(retold@),
            ),
        decreases operations@.len() - i,
    {
        assert(all[i as int] == operations@[i as int]@);
        match retell_ingest(&operations[i], remaps) {
            Ok(op) => {
                proof {
                    text::lemma_views_push(retold@, op);
                }
                retold.push(op);
            },
            Err(e) => {
                proof {
                    lemma_retold_stop(all, moved, (i + 1) as nat, all.len());
                }
                return Err(e);
            },
        }
        i += 1;
    }
    Ok(retold)
}

/// Repeats the observations of a draft in a store that is given up on an error.
fn carry_observations(
    live: &mut Store,
    draft: &Store,
    operations: &Vec<OperationRow>,
    placement: &Placement,
) -> (r: Result<Vec<OperationRow>, AppError>)
    ensures
        match observations_carried(
            old(live)@,
            draft@,
            text::views(operations@),
            text::views(placement.remaps@),
            placement.ids@,
            operations@.len(),
        ) {
            Ok(done) => {
                &&& r matches Ok(got)
                &&& done == (CarriedView {
                    store: final(live)@,
                    operations: text::views(got@),
                })
            },
            Err(e) => r matches Err(got) && got@ == e,
        },
{
    let ghost all = text::views(operations@);
    let ghost remaps = text::views(placement.remaps@);
    let ghost start = live@;
    let mut carried: Vec<OperationRow> = Vec::new();
    assert(text::views(carried@) =~= Seq::empty());
    let mut i: usize = 0;
    while i < operations.len()
        invariant
            i <= operations@.len() == all.len(),
            all == text::views(operations@),
            observations_carried(start, draft@, all, remaps, placement.ids@, i as nat) == Ok::<
                CarriedView,
                AppErrorView,
            >(CarriedView { store: live@, operations: text::views(carried@) }),
        decreases operations@.len() - i,
    {
        assert(all[i as int] == operations@[i as int]@);
        if let Err(e) = carry_observation(live, draft, &operations[i], placement, &mut carried) {
            proof {
                lemma_carried_stop(
                    start,
                    draft@,
                    all,
                    remaps,
                    placement.ids@,
                    (i + 1) as nat,
                    all.len(),
                );
            }
            return Err(e);
        }
        i += 1;
    }
    Ok(carried)
}

/// The sources of a draft merged into the live store.
pub struct MergedSources {
    pub operations: Vec<OperationRow>,
    pub remaps: Vec<SourceIdRemap>,
    pub ids: Table<i64, i64>,
}

/// Merges the sources of a draft into a store that is given up on an error.
pub fn merge_sparse_sources(
    live: &mut Store,
    draft: &Store,
    segments: &Segments,
    operations: &Vec<OperationRow>,
    now: &str,
) -> (r: Result<MergedSources, AppError>)
    ensures
        match sources_merged(
            old(live)@,
            draft@,
            segments@,
            text::views(operations@),
            now@,
        ) {
            Ok(done) => {
                &&& r matches Ok(got)
                &&& done == (MergedSourcesView {
                    store: final(live)@,
                    operations: text::views(got.operations@),
                    remaps: text::views(got.remaps@),
                    ids: got.ids@,
                })
            },
            Err(e) => r matches Err(got) && got@ == e,
        },
{
    let base = match draft.find_draft(None) {
        Some((_, row)) => row.base_operation_id,
        None => {
            return Err(store::no_rows_error());
        },
    };
    let since = operations_since(&live.operations, base);
    let paths = list_path_targets(operations);
    if let Some(path) = find_path_clash(&since, &paths) {
        return Err(
            AppError::new(
                ErrorCode::ChangesetConflict,
                join3(
                    "source path ",
                    path.as_str(),
                    " advanced while the changeset was open",
                ).as_str(),
            ),
        );
    }
    let ids = list_source_targets(operations);
    let placement = match place_sources(live, draft, segments, &ids, now) {
        Ok(placement) => placement,
        Err(e) => {
            return Err(e);
        },
    };
    let retold = match retell_ingests(operations, &placement.remaps) {
        Ok(retold) => retold,
        Err(e) => {
            return Err(e);
        },
    };
    let carried = match carry_observations(live, draft, &retold, &placement) {
        Ok(carried) => carried,
        Err(e) => {
            return Err(e);
        },
    };
    Ok(MergedSources { operations: carried, remaps: placement.remaps, ids: placement.ids })
}

// ---------------------------------------------------------------------------
// Pages
// ---------------------------------------------------------------------------

/// The sources that a page cites, told of the live store, up to `count`.
pub open spec fn citations_merged(
    store: StoreView,
    ids: Map<i64, i64>,
    cited: Seq<i64>,
    count: nat,
) -> Result<Seq<i64>, AppErrorView>
    decreases count,
{
    if count == 0 || count > cited.len() {
        Ok(Seq::empty())
    } else {
        match citations_merged(store, ids, cited, (count - 1) as nat) {
            Err(e) => Err(e),
            Ok(head) => {
                let id = live_id(ids, cited[count - 1]);
                if head.contains(id) {
                    Err(unique_failed())
                } else if !store.sources.dom().contains(id) {
                    Err(store::broken_reference())
                } else {
                    Ok(head.push(id))
                }
            },
        }
    }
}

/// The error of a statement that would enter a row twice.
pub open spec fn unique_failed() -> AppErrorView {
    error::app_error(ErrorCode::DatabaseError, "UNIQUE constraint failed"@)
}

/// The page of a draft merged into the live store.
#[verifier::opaque]
pub open spec fn page_merged(
    store: StoreView,
    draft: StoreView,
    segments: SegmentsView,
    slug: Seq<char>,
    ids: Map<i64, i64>,
    now: Seq<char>,
) -> Result<StoreView, AppErrorView> {
    if !draft.pages.dom().contains(slug) {
        if store.pages.dom().contains(slug) {
            Ok(pages::page_dropped(store, slug))
        } else {
            Ok(store)
        }
    } else {
        let theirs = draft.pages[slug];
        match citations_merged(store, ids, theirs.source_ids, theirs.source_ids.len()) {
            Err(e) => Err(e),
            Ok(cited) => {
                let page = PageView {
                    source_ids: pages::distinct(cited),
                    created_at: if store.pages.dom().contains(slug) {
                        store.pages[slug].created_at
                    } else {
                        theirs.created_at
                    },
                    updated_at: now,
                    ..theirs
                };
                spans::indexed(
                    StoreView { pages: store.pages.insert(slug, page), ..store },
                    segments,
                    "page"@,
                    slug,
                    page.body,
                )
            },
        }
    }
}

/// The first `count` pages of a draft merged into the live store.
pub open spec fn pages_merged(
    store: StoreView,
    draft: StoreView,
    segments: SegmentsView,
    slugs: Seq<Seq<char>>,
    ids: Map<i64, i64>,
    now: Seq<char>,
    count: nat,
) -> Result<StoreView, AppErrorView>
    decreases count,
{
    if count == 0 || count > slugs.len() {
        Ok(store)
    } else {
        match pages_merged(store, draft, segments, slugs, ids, now, (count - 1) as nat) {
            Err(e) => Err(e),
            Ok(so_far) => page_merged(so_far, draft, segments, slugs[count - 1], ids, now),
        }
    }
}

proof fn lemma_citations_stop(
    store: StoreView,
    ids: Map<i64, i64>,
    cited: Seq<i64>,
    count: nat,
    more: nat,
)
    requires
        count <= more <= cited.len(),
        citations_merged(store, ids, cited, count) is Err,
    ensures
        citations_merged(store, ids, cited, more) == citations_merged(store, ids, cited, count),
    decreases more,
{
    if count < more {
        lemma_citations_stop(store, ids, cited, count, (more - 1) as nat);
    }
}

proof fn lemma_pages_stop(
    store: StoreView,
    draft: StoreView,
    segments: SegmentsView,
    slugs: Seq<Seq<char>>,
    ids: Map<i64, i64>,
    now: Seq<char>,
    count: nat,
    more: nat,
)
    requires
        count <= more <= slugs.len(),
        pages_merged(store, draft, segments, slugs, ids, now, count) is Err,
    ensures
        pages_merged(store, draft, segments, slugs, ids, now, more) == pages_merged(
            store,
            draft,
            segments,
            slugs,
            ids,
            now,
            count,
        ),
    decreases more,
{
    if count < more {
        lemma_pages_stop(store, draft, segments, slugs, ids, now, count, (more - 1) as nat);
    }
}

fn merge_citations(live: &Store, ids: &Table<i64, i64>, cited: &Vec<i64>) -> (r: Result<
    Vec<i64>,
    AppError,
>)
    ensures
        match citations_merged(live@, ids@, cited@, cited@.len()) {
            Ok(list) => r matches Ok(got) && got@ == list,
            Err(e) => r matches Err(got) && got@ == e,
        },
{
    let mut out: Vec<i64> = Vec::new();
    let mut i: usize = 0;
    while i < cited.len()
        invariant
            i <= cited@.len(),
            citations_merged(live@, ids@, cited@, i as nat) == Ok::<Seq<i64>, AppErrorView>(out@),
        decreases cited@.len() - i,
    {
        let id: i64 = match ids.get(&cited[i]) {
            Some(id) => *id,
            None => cited[i],
        };
        if has_id(&out, id) {
            proof {
                lemma_citations_stop(live@, ids@, cited@, (i + 1) as nat, cited@.len());
            }
            return Err(AppError::new(ErrorCode::DatabaseError, "UNIQUE constraint failed"));
        }
        if !live.sources.has(&id) {
            proof {
                lemma_citations_stop(live@, ids@, cited@, (i + 1) as nat, cited@.len());
            }
            return Err(store::broken_reference_error());
        }
        out.push(id);
        i += 1;
    }
    Ok(out)
}

/// Merges a page of a draft into a store that is given up on an error.
pub fn merge_sparse_page(
    live: &mut Store,
    draft: &Store,
    segments: &Segments,
    slug: &str,
    ids: &Table<i64, i64>,
    now: &str,
) -> (r: Result<(), AppError>)
    ensures
        match page_merged(old(live)@, draft@, segments@, slug@, ids@, now@) {
            Ok(next) => r is Ok && final(live)@ == next,
            Err(e) => r matches Err(got) && got@ == e,
        },
{
    proof {
        reveal(page_merged);
    }
    let key = owned(slug);
    let theirs = match draft.pages.get(&key) {
        Some(theirs) => theirs,
        None => {
            if live.pages.has(&key) {
                live.drop_page(slug);
            }
            return Ok(());
        },
    };
    let cited = match merge_citations(live, ids, &theirs.source_ids) {
        Ok(cited) => cited,
        Err(e) => {
            return Err(e);
        },
    };
    let mut page = theirs.duplicate();
    page.source_ids = dedupe_i64(&cited);
    if let Some(own) = live.pages.get(&key) {
        page.created_at = owned(own.created_at.as_str());
    }
    page.updated_at = owned(now);
    let body = owned(page.body.as_str());
    live.pages.put(key, page);
    live.index_spans(segments, "page", slug, body.as_str())
}

/// Merges the pages of a draft into a store that is given up on an error.
fn merge_pages(
    live: &mut Store,
    draft: &Store,
    segments: &Segments,
    slugs: &Vec<String>,
    ids: &Table<i64, i64>,
    now: &str,
) -> (r: Result<(), AppError>)
    ensures
        match pages_merged(
            old(live)@,
            draft@,
            segments@,
            text::views(slugs@),
            ids@,
            now@,
            slugs@.len(),
        ) {
            Ok(next) => r is Ok && final(live)@ == next,
            Err(e) => r matches Err(got) && got@ == e,
        },
{
    let ghost names = text::views(slugs@);
    let ghost start = live@;
    let mut i: usize = 0;
    while i < slugs.len()
        invariant
            i <= slugs@.len() == names.len(),
            names == text::views(slugs@),
            pages_merged(start, draft@, segments@, names, ids@, now@, i as nat) == Ok::<
                StoreView,
                AppErrorView,
            >(live@),
        decreases slugs@.len() - i,
    {
        assert(names[i as int] == slugs@[i as int]@);
        if let Err(e) = merge_sparse_page(live, draft, segments, slugs[i].as_str(), ids, now) {
            proof {
                lemma_pages_stop(
                    start,
                    draft@,
                    segments@,
                    names,
                    ids@,
                    now@,
                    (i + 1) as nat,
                    names.len(),
                );
            }
            return Err(e);
        }
        i += 1;
    }
    Ok(())
}

// ---------------------------------------------------------------------------
// Tags
// ---------------------------------------------------------------------------

/// A detail that an operation on a tag lacks.
pub open spec fn lacks_page(action: Seq<char>) -> AppErrorView {
    error::app_error(ErrorCode::ChangesetCorrupt, action + " operation lacks page"@)
}

/// The tags with one that the draft has, where it is new.
pub open spec fn tag_entered(
    tags: Map<Seq<char>, TagView>,
    draft: StoreView,
    tag: Seq<char>,
) -> Map<Seq<char>, TagView> {
    if draft.tags.dom().contains(tag) && !tags.dom().contains(tag) {
        tags.insert(tag, TagView { policy: draft.tags[tag].policy, members: Map::empty() })
    } else {
        tags
    }
}

/// A page set in a tag as the draft has it.
pub open spec fn member_merged(
    store: StoreView,
    draft: StoreView,
    tag: Seq<char>,
    page: Seq<char>,
) -> Result<StoreView, AppErrorView> {
    let tags = tag_entered(store.tags, draft, tag);
    if !staging::is_member(draft, tag, page) {
        Ok(StoreView { tags, ..store })
    } else if !tags.dom().contains(tag) || !store.pages.dom().contains(page) {
        Err(store::broken_reference())
    } else {
        Ok(
            StoreView {
                tags: tags.insert(
                    tag,
                    TagView {
                        members: tags[tag].members.insert(page, draft.tags[tag].members[page]),
                        ..tags[tag]
                    },
                ),
                ..store
            },
        )
    }
}

/// The error of a statement that would leave a value out.
pub open spec fn null_refused() -> AppErrorView {
    error::app_error(ErrorCode::DatabaseError, "NOT NULL constraint failed"@)
}

/// An operation of a draft on a tag, repeated in the live store.
#[verifier::opaque]
pub open spec fn tag_merged(store: StoreView, draft: StoreView, op: OperationView) -> Result<
    StoreView,
    AppErrorView,
> {
    if !touched::is_tag_action(op.action) {
        Ok(store)
    } else {
        match op.detail.text_at("tag"@) {
            None => error::refused(ErrorCode::ChangesetCorrupt, "tag operation lacks tag"@),
            Some(tag) => if op.action == "tag_set"@ {
                match op.detail.text_at("page"@) {
                    None => Err(lacks_page("tag_set"@)),
                    Some(page) => member_merged(store, draft, tag, page),
                }
            } else if op.action == "tag_remove"@ {
                match op.detail.text_at("page"@) {
                    None => Err(lacks_page("tag_remove"@)),
                    Some(page) => if store.tags.dom().contains(tag) {
                        Ok(
                            StoreView {
                                tags: store.tags.insert(
                                    tag,
                                    TagView {
                                        members: store.tags[tag].members.remove(page),
                                        ..store.tags[tag]
                                    },
                                ),
                                ..store
                            },
                        )
                    } else {
                        Ok(store)
                    },
                }
            } else if op.action == "tag_delete"@ {
                Ok(StoreView { tags: store.tags.remove(tag), ..store })
            } else if !store.tags.dom().contains(tag) {
                error::refused(
                    ErrorCode::ChangesetCorrupt,
                    "staged tag "@ + tag + " is missing"@,
                )
            } else if !draft.tags.dom().contains(tag) {
                Err(null_refused())
            } else {
                Ok(
                    StoreView {
                        tags: store.tags.insert(
                            tag,
                            TagView { policy: draft.tags[tag].policy, ..store.tags[tag] },
                        ),
                        ..store
                    },
                )
            },
        }
    }
}

/// The first `count` operations of a draft on tags, repeated in the live store.
pub open spec fn tags_merged(
    store: StoreView,
    draft: StoreView,
    operations: Seq<OperationView>,
    count: nat,
) -> Result<StoreView, AppErrorView>
    decreases count,
{
    if count == 0 || count > operations.len() {
        Ok(store)
    } else {
        match tags_merged(store, draft, operations, (count - 1) as nat) {
            Err(e) => Err(e),
            Ok(so_far) => tag_merged(so_far, draft, operations[count - 1]),
        }
    }
}

proof fn lemma_tags_stop(
    store: StoreView,
    draft: StoreView,
    operations: Seq<OperationView>,
    count: nat,
    more: nat,
)
    requires
        count <= more <= operations.len(),
        tags_merged(store, draft, operations, count) is Err,
    ensures
        tags_merged(store, draft, operations, more) == tags_merged(
            store,
            draft,
            operations,
            count,
        ),
    decreases more,
{
    if count < more {
        lemma_tags_stop(store, draft, operations, count, (more - 1) as nat);
    }
}

fn merge_member(live: &mut Store, draft: &Store, tag: &str, page: &str) -> (r: Result<(), AppError>)
    ensures
        match member_merged(old(live)@, draft@, tag@, page@) {
            Ok(next) => r is Ok && final(live)@ == next,
            Err(e) => r matches Err(got) && got@ == e,
        },
{
    let key = owned(tag);
    let slug = owned(page);
    let theirs = match draft.tags.get(&key) {
        Some(theirs) => theirs,
        None => {
            return Ok(());
        },
    };
    if !live.tags.has(&key) {
        live.tags.put(
            owned(tag),
            TagRow { policy: theirs.policy.duplicate(), members: Table::new() },
        );
    }
    assert(live@.tags == tag_entered(old(live)@.tags, draft@, tag@));
    if let Some(member) = theirs.members.get(&slug) {
        if !live.pages.has(&slug) {
            return Err(store::broken_reference_error());
        }
        let mut row = match live.tags.get(&key) {
            Some(row) => row.duplicate(),
            None => {
                assert(false);
                return Err(store::broken_reference_error());
            },
        };
        row.members.put(slug, member.duplicate());
        live.tags.put(key, row);
    }
    Ok(())
}

fn merge_tag(live: &mut Store, draft: &Store, op: &OperationRow) -> (r: Result<(), AppError>)
    ensures
        match tag_merged(old(live)@, draft@, op@) {
            Ok(next) => r is Ok && final(live)@ == next,
            Err(e) => r matches Err(got) && got@ == e,
        },
{
    proof {
        reveal(tag_merged);
    }
    let action = op.action.as_str();
    if !tag_action(action) {
        return Ok(());
    }
    let tag = match op.detail.text_at("tag") {
        Some(tag) => tag,
        None => {
            return Err(AppError::new(ErrorCode::ChangesetCorrupt, "tag operation lacks tag"));
        },
    };
    if same_text(action, "tag_set") {
        return match op.detail.text_at("page") {
            Some(page) => merge_member(live, draft, tag.as_str(), page.as_str()),
            None => Err(
                AppError::new(
                    ErrorCode::ChangesetCorrupt,
                    join2("tag_set", " operation lacks page").as_str(),
                ),
            ),
        };
    }
    if same_text(action, "tag_remove") {
        let page = match op.detail.text_at("page") {
            Some(page) => page,
            None => {
                return Err(
                    AppError::new(
                        ErrorCode::ChangesetCorrupt,
                        join2("tag_remove", " operation lacks page").as_str(),
                    ),
                );
            },
        };
        let row = match live.tags.get(tag) {
            Some(row) => {
                let mut row = row.duplicate();
                row.members.remove(page);
                row
            },
            None => {
                return Ok(());
            },
        };
        live.tags.put(owned(tag.as_str()), row);
        return Ok(());
    }
    if same_text(action, "tag_delete") {
        live.tags.remove(tag);
        return Ok(());
    }
    let mut row = match live.tags.get(tag) {
        Some(row) => row.duplicate(),
        None => {
            return Err(
                AppError::new(
                    ErrorCode::ChangesetCorrupt,
                    join3("staged tag ", tag.as_str(), " is missing").as_str(),
                ),
            );
        },
    };
    match draft.tags.get(tag) {
        Some(theirs) => {
            row.policy = theirs.policy.duplicate();
            live.tags.put(owned(tag.as_str()), row);
            Ok(())
        },
        None => Err(AppError::new(ErrorCode::DatabaseError, "NOT NULL constraint failed")),
    }
}

/// Repeats the operations of a draft on tags in a store that is given up on an error.
pub fn merge_sparse_tags(live: &mut Store, draft: &Store, operations: &Vec<OperationRow>) -> (r:
    Result<(), AppError>)
    ensures
        match tags_merged(
            old(live)@,
            draft@,
            text::views(operations@),
            operations@.len(),
        ) {
            Ok(next) => r is Ok && final(live)@ == next,
            Err(e) => r matches Err(got) && got@ == e,
        },
{
    let ghost all = text::views(operations@);
    let ghost start = live@;
    let mut i: usize = 0;
    while i < operations.len()
        invariant
            i <= operations@.len() == all.len(),
            all == text::views(operations@),
            tags_merged(start, draft@, all, i as nat) == Ok::<StoreView, AppErrorView>(live@),
        decreases operations@.len() - i,
    {
        assert(all[i as int] == operations@[i as int]@);
        if let Err(e) = merge_tag(live, draft, &operations[i]) {
            proof {
                lemma_tags_stop(start, draft@, all, (i + 1) as nat, all.len());
            }
            return Err(e);
        }
        i += 1;
    }
    Ok(())
}

// ---------------------------------------------------------------------------
// The whole draft
// ---------------------------------------------------------------------------

/// The first `count` operations written down in the live store.
pub open spec fn operations_recorded(
    store: StoreView,
    operations: Seq<OperationView>,
    now: Seq<char>,
    revision: Seq<char>,
    count: nat,
) -> Result<StoreView, AppErrorView>
    decreases count,
{
    if count == 0 || count > operations.len() {
        Ok(store)
    } else {
        match operations_recorded(store, operations, now, revision, (count - 1) as nat) {
            Err(e) => Err(e),
            Ok(so_far) => {
                let op = operations[count - 1];
                store::recorded(so_far, op.action, op.target, op.detail, now, revision)
            },
        }
    }
}

/// An operation with this action is among them.
pub open spec fn has_action(operations: Seq<OperationView>, action: Seq<char>) -> bool {
    exists|k: int| 0 <= k < operations.len() && (#[trigger] operations[k]).action == action
}

/// A key of the metadata, taken from the draft where an operation set it.
pub open spec fn meta_merged(
    store: StoreView,
    draft: StoreView,
    operations: Seq<OperationView>,
    action: Seq<char>,
    key: Seq<char>,
) -> Result<StoreView, AppErrorView> {
    if !has_action(operations, action) || !store.meta.dom().contains(key) {
        Ok(store)
    } else {
        match store::meta_value(draft, key) {
            Some(value) => Ok(StoreView { meta: store.meta.insert(key, value), ..store }),
            None => Err(null_refused()),
        }
    }
}

/// A draft merged into the live store, and where its sources stand there.
#[verifier::ext_equal]
pub struct MergedView {
    pub store: StoreView,
    pub remaps: Seq<RemapView>,
}

/// What merging pages, tags and metadata comes to, once the sources are merged.
pub open spec fn rest_merged(
    merged: MergedSourcesView,
    draft: StoreView,
    segments: SegmentsView,
    slugs: Seq<Seq<char>>,
    now: Seq<char>,
    revision: Seq<char>,
) -> Result<StoreView, AppErrorView> {
    let operations = merged.operations;
    match operations_recorded(merged.store, operations, now, revision, operations.len()) {
        Err(e) => Err(e),
        Ok(a) => match pages_merged(a, draft, segments, slugs, merged.ids, now, slugs.len()) {
            Err(e) => Err(e),
            Ok(b) => match tags_merged(b, draft, operations, operations.len()) {
                Err(e) => Err(e),
                Ok(c) => match meta_merged(c, draft, operations, "schema_set"@, "schema"@) {
                    Err(e) => Err(e),
                    Ok(d) => meta_merged(d, draft, operations, "purpose_set"@, "purpose"@),
                },
            },
        },
    }
}

/// What merging a sparse draft comes to.
pub open spec fn merge_goal(
    live: StoreView,
    draft: StoreView,
    segments: SegmentsView,
    begin_operation_id: i64,
    validate: bool,
    now: Seq<char>,
    revision: Seq<char>,
) -> Result<MergedView, AppErrorView> {
    let operations = store::operations_after(draft.operations, begin_operation_id);
    match obstacle(live, draft, operations, validate) {
        Some(e) => Err(e),
        None => match sources_merged(live, draft, segments, operations, now) {
            Err(e) => Err(e),
            Ok(merged) => match rest_merged(
                merged,
                draft,
                segments,
                text::sorted(touched::page_targets(operations)),
                now,
                revision,
            ) {
                Err(e) => Err(e),
                Ok(store) => Ok(MergedView { store, remaps: merged.remaps }),
            },
        },
    }
}

proof fn lemma_recorded_stop(
    store: StoreView,
    operations: Seq<OperationView>,
    now: Seq<char>,
    revision: Seq<char>,
    count: nat,
    more: nat,
)
    requires
        count <= more <= operations.len(),
        operations_recorded(store, operations, now, revision, count) is Err,
    ensures
        operations_recorded(store, operations, now, revision, more) == operations_recorded(
            store,
            operations,
            now,
            revision,
            count,
        ),
    decreases more,
{
    if count < more {
        lemma_recorded_stop(store, operations, now, revision, count, (more - 1) as nat);
    }
}

fn record_all(live: &mut Store, operations: &Vec<OperationRow>, now: &str, revision: &str) -> (r:
    Result<(), AppError>)
    ensures
        match operations_recorded(
            old(live)@,
            text::views(operations@),
            now@,
            revision@,
            operations@.len(),
        ) {
            Ok(next) => r is Ok && final(live)@ == next,
            Err(e) => r matches Err(got) && got@ == e,
        },
{
    let ghost all = text::views(operations@);
    let ghost start = live@;
    let mut i: usize = 0;
    while i < operations.len()
        invariant
            i <= operations@.len() == all.len(),
            all == text::views(operations@),
            operations_recorded(start, all, now@, revision@, i as nat) == Ok::<
                StoreView,
                AppErrorView,
            >(live@),
        decreases operations@.len() - i,
    {
        let op = &operations[i];
        assert(all[i as int] == op@);
        if let Err(e) = live.record_operation(
            op.action.as_str(),
            op.target.as_str(),
            op.detail.duplicate(),
            now,
            revision,
        ) {
            proof {
                lemma_recorded_stop(start, all, now@, revision@, (i + 1) as nat, all.len());
            }
            return Err(e);
        }
        i += 1;
    }
    Ok(())
}

fn any_action(operations: &Vec<OperationRow>, action: &str) -> (r: bool)
    ensures
        r == has_action(text::views(operations@), action@),
{
    let ghost all = text::views(operations@);
    let mut i: usize = 0;
    while i < operations.len()
        invariant
            i <= operations@.len() == all.len(),
            all == text::views(operations@),
            forall|k: int| 0 <= k < i ==> (#[trigger] all[k]).action != action@,
        decreases operations@.len() - i,
    {
        assert(all[i as int] == operations@[i as int]@);
        if same_text(operations[i].action.as_str(), action) {
            return true;
        }
        i += 1;
    }
    false
}

fn merge_meta(
    live: &mut Store,
    draft: &Store,
    operations: &Vec<OperationRow>,
    action: &str,
    key: &str,
) -> (r: Result<(), AppError>)
    ensures
        match meta_merged(old(live)@, draft@, text::views(operations@), action@, key@) {
            Ok(next) => r is Ok && final(live)@ == next,
            Err(e) => r matches Err(got) && got@ == e,
        },
{
    if !any_action(operations, action) || !live.meta.has(&owned(key)) {
        return Ok(());
    }
    match draft.meta_text(key) {
        Some(value) => {
            live.meta.put(owned(key), value);
            Ok(())
        },
        None => Err(AppError::new(ErrorCode::DatabaseError, "NOT NULL constraint failed")),
    }
}

/// Merges a sparse draft into a store that is given up on an error.
pub fn merge_sparse_candidate(
    live: &mut Store,
    draft: &Store,
    segments: &Segments,
    begin_operation_id: i64,
    validate: bool,
    now: &str,
    revision: &str,
) -> (r: Result<Vec<SourceIdRemap>, AppError>)
    ensures
        match merge_goal(
            old(live)@,
            draft@,
            segments@,
            begin_operation_id,
            validate,
            now@,
            revision@,
        ) {
            Ok(done) => (r matches Ok(got) && text::views(got@) == done.remaps) && final(live)@
                == done.store,
            Err(e) => r matches Err(got) && got@ == e,
        },
{
    let operations = operations_since(&draft.operations, begin_operation_id);
    if let Some(e) = find_obstacle(live, draft, &operations, validate) {
        return Err(e);
    }
    let slugs = list_page_targets(&operations);
    let merged = match merge_sparse_sources(live, draft, segments, &operations, now) {
        Ok(merged) => merged,
        Err(e) => {
            return Err(e);
        },
    };
    assert(text::views(merged.operations@).len() == merged.operations@.len());
    if let Err(e) = record_all(live, &merged.operations, now, revision) {
        return Err(e);
    }
    if let Err(e) = merge_pages(live, draft, segments, &slugs, &merged.ids, now) {
        return Err(e);
    }
    if let Err(e) = merge_sparse_tags(live, draft, &merged.operations) {
        return Err(e);
    }
    if let Err(e) = merge_meta(live, draft, &merged.operations, "schema_set", "schema") {
        return Err(e);
    }
    if let Err(e) = merge_meta(live, draft, &merged.operations, "purpose_set", "purpose") {
        return Err(e);
    }
    Ok(merged.remaps)
}

} // verus!
