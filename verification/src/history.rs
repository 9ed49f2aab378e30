//! The history of changesets, which merging a draft and restoring what was before leave as
//! it is.
use crate::rows::{OperationView, PathRevisionView};
use crate::spans::SegmentsView;
use crate::sparse_inverse::{
    InverseView, MetaInverseView, PageInverseView, SourceInverseView, SourcePathView,
    TagInverseView, TrackedPathInverseView,
};
use crate::sparse_merge;
use crate::sparse_merge::RemapView;
use crate::sparse_rollback;
use crate::store;
use crate::store::StoreView;
use crate::table;
use crate::text;
use crate::touched;
use vstd::prelude::*;

verus! {

// ---------------------------------------------------------------------------
// Merging
// ---------------------------------------------------------------------------

proof fn lemma_placed(
    live: StoreView,
    draft: StoreView,
    segments: SegmentsView,
    ids: Seq<i64>,
    now: Seq<char>,
    count: nat,
)
    requires
        count <= ids.len(),
    ensures
        sparse_merge::sources_placed(live, draft, segments, ids, now, count) matches Ok(done)
            ==> done.store.changesets == live.changesets,
    decreases count,
{
    if count > 0 {
        lemma_placed(live, draft, segments, ids, now, (count - 1) as nat);
        reveal(sparse_merge::source_placed);
    }
}

proof fn lemma_carried(
    live: StoreView,
    draft: StoreView,
    operations: Seq<OperationView>,
    remaps: Seq<RemapView>,
    ids: Map<i64, i64>,
    count: nat,
)
    requires
        count <= operations.len(),
    ensures
        sparse_merge::observations_carried(
            live,
            draft,
            operations,
            remaps,
            ids,
            count,
        ) matches Ok(done) ==> done.store.changesets == live.changesets,
    decreases count,
{
    if count > 0 {
        lemma_carried(live, draft, operations, remaps, ids, (count - 1) as nat);
    }
}

proof fn lemma_recorded(
    store: StoreView,
    operations: Seq<OperationView>,
    now: Seq<char>,
    revision: Seq<char>,
    count: nat,
)
    requires
        count <= operations.len(),
    ensures
        sparse_merge::operations_recorded(store, operations, now, revision, count) matches Ok(next)
            ==> next.changesets == store.changesets,
    decreases count,
{
    if count > 0 {
        lemma_recorded(store, operations, now, revision, (count - 1) as nat);
    }
}

proof fn lemma_pages_merged(
    store: StoreView,
    draft: StoreView,
    segments: SegmentsView,
    slugs: Seq<Seq<char>>,
    ids: Map<i64, i64>,
    now: Seq<char>,
    count: nat,
)
    requires
        count <= slugs.len(),
    ensures
        sparse_merge::pages_merged(store, draft, segments, slugs, ids, now, count) matches Ok(next)
            ==> next.changesets == store.changesets,
    decreases count,
{
    if count > 0 {
        lemma_pages_merged(store, draft, segments, slugs, ids, now, (count - 1) as nat);
        reveal(sparse_merge::page_merged);
    }
}

proof fn lemma_tags_merged(
    store: StoreView,
    draft: StoreView,
    operations: Seq<OperationView>,
    count: nat,
)
    requires
        count <= operations.len(),
    ensures
        sparse_merge::tags_merged(store, draft, operations, count) matches Ok(next)
            ==> next.changesets == store.changesets,
    decreases count,
{
    if count > 0 {
        lemma_tags_merged(store, draft, operations, (count - 1) as nat);
        reveal(sparse_merge::tag_merged);
    }
}

/// Merging a draft leaves the history of the live store as it is.
pub proof fn lemma_merge_keeps_history(
    live: StoreView,
    draft: StoreView,
    segments: SegmentsView,
    begin_operation_id: i64,
    validate: bool,
    now: Seq<char>,
    revision: Seq<char>,
)
    ensures
        sparse_merge::merge_goal(
            live,
            draft,
            segments,
            begin_operation_id,
            validate,
            now,
            revision,
        ) matches Ok(done) ==> done.store.changesets == live.changesets,
{
    let operations = store::operations_after(draft.operations, begin_operation_id);
    let ids = table::ordered::<i64>(touched::source_targets(operations));
    lemma_placed(live, draft, segments, ids, now, ids.len());
    if let Ok(placed) = sparse_merge::sources_placed(live, draft, segments, ids, now, ids.len()) {
        if let Ok(retold) = sparse_merge::ingests_retold(
            operations,
            placed.remaps,
            operations.len(),
        ) {
            lemma_carried(placed.store, draft, retold, placed.remaps, placed.ids, retold.len());
        }
    }
    if let Ok(merged) = sparse_merge::sources_merged(live, draft, segments, operations, now) {
        let told = merged.operations;
        let slugs = text::sorted(touched::page_targets(operations));
        lemma_recorded(merged.store, told, now, revision, told.len());
        if let Ok(a) = sparse_merge::operations_recorded(
            merged.store,
            told,
            now,
            revision,
            told.len(),
        ) {
            lemma_pages_merged(a, draft, segments, slugs, merged.ids, now, slugs.len());
            if let Ok(b) = sparse_merge::pages_merged(
                a,
                draft,
                segments,
                slugs,
                merged.ids,
                now,
                slugs.len(),
            ) {
                lemma_tags_merged(b, draft, told, told.len());
            }
        }
    }
}

// ---------------------------------------------------------------------------
// Restoring
// ---------------------------------------------------------------------------

proof fn lemma_unlinked(store: StoreView, items: Seq<PageInverseView>, count: nat)
    requires
        count <= items.len(),
    ensures
        sparse_rollback::all_unlinked(store, items, count) matches Ok(next) ==> next.changesets
            == store.changesets,
    decreases count,
{
    if count > 0 {
        lemma_unlinked(store, items, (count - 1) as nat);
    }
}

proof fn lemma_pages_restored(
    store: StoreView,
    items: Seq<PageInverseView>,
    segments: SegmentsView,
    now: Seq<char>,
    revision: Seq<char>,
    count: nat,
)
    requires
        count <= items.len(),
    ensures
        sparse_rollback::pages_restored(store, items, segments, now, revision, count) matches Ok(
            next,
        ) ==> next.changesets == store.changesets,
    decreases count,
{
    if count > 0 {
        lemma_pages_restored(store, items, segments, now, revision, (count - 1) as nat);
        reveal(sparse_rollback::page_restored);
    }
}

proof fn lemma_tags_restored(
    store: StoreView,
    items: Seq<TagInverseView>,
    now: Seq<char>,
    revision: Seq<char>,
    count: nat,
)
    requires
        count <= items.len(),
    ensures
        sparse_rollback::tags_restored(store, items, now, revision, count) matches Ok(next)
            ==> next.changesets == store.changesets,
    decreases count,
{
    if count > 0 {
        lemma_tags_restored(store, items, now, revision, (count - 1) as nat);
        reveal(sparse_rollback::tag_restored);
    }
}

proof fn lemma_metas_restored(
    store: StoreView,
    items: Seq<MetaInverseView>,
    now: Seq<char>,
    revision: Seq<char>,
    count: nat,
)
    requires
        count <= items.len(),
    ensures
        sparse_rollback::metas_restored(store, items, now, revision, count) matches Ok(next)
            ==> next.changesets == store.changesets,
    decreases count,
{
    if count > 0 {
        lemma_metas_restored(store, items, now, revision, (count - 1) as nat);
        reveal(sparse_rollback::meta_restored);
    }
}

proof fn lemma_observations(store: StoreView, items: Seq<SourcePathView>, id: i64, count: nat)
    requires
        count <= items.len(),
    ensures
        sparse_rollback::observations_entered(store, items, id, count) matches Ok(next)
            ==> next.changesets == store.changesets,
    decreases count,
{
    if count > 0 {
        lemma_observations(store, items, id, (count - 1) as nat);
    }
}

proof fn lemma_sources_restored(
    store: StoreView,
    items: Seq<SourceInverseView>,
    remaps: Seq<RemapView>,
    segments: SegmentsView,
    now: Seq<char>,
    revision: Seq<char>,
    count: nat,
)
    requires
        count <= items.len(),
    ensures
        sparse_rollback::sources_restored(
            store,
            items,
            remaps,
            segments,
            now,
            revision,
            count,
        ) matches Ok(next) ==> next.changesets == store.changesets,
    decreases count,
{
    if count > 0 {
        lemma_sources_restored(store, items, remaps, segments, now, revision, (count - 1) as nat);
        reveal(sparse_rollback::source_restored);
        if let Ok(so_far) = sparse_rollback::sources_restored(
            store,
            items,
            remaps,
            segments,
            now,
            revision,
            (count - 1) as nat,
        ) {
            if let Some(snapshot) = items[count - 1].before {
                let id = snapshot.id;
                let bare = StoreView {
                    sources: so_far.sources.insert(id, snapshot.source),
                    source_sequence: if id > so_far.source_sequence {
                        id
                    } else {
                        so_far.source_sequence
                    },
                    ingest_jobs: so_far.ingest_jobs.insert(id, snapshot.ingest),
                    paths: sparse_rollback::paths_without(so_far.paths, id),
                    ..so_far
                };
                lemma_observations(bare, snapshot.paths, id, snapshot.paths.len());
            }
        }
    }
}

proof fn lemma_path_steps(
    store: StoreView,
    path: Seq<char>,
    log: Seq<PathRevisionView>,
    count: nat,
)
    requires
        count <= log.len(),
    ensures
        sparse_rollback::path_steps_entered(store, path, log, count) matches Ok(next)
            ==> next.changesets == store.changesets,
    decreases count,
{
    if count > 0 {
        lemma_path_steps(store, path, log, (count - 1) as nat);
    }
}

proof fn lemma_paths_restored(store: StoreView, items: Seq<TrackedPathInverseView>, count: nat)
    requires
        count <= items.len(),
    ensures
        sparse_rollback::paths_restored(store, items, count) matches Ok(next) ==> next.changesets
            == store.changesets,
    decreases count,
{
    if count > 0 {
        lemma_paths_restored(store, items, (count - 1) as nat);
        if let Ok(so_far) = sparse_rollback::paths_restored(store, items, (count - 1) as nat) {
            let last = items[count - 1];
            lemma_path_steps(so_far, last.tracked_path, last.before, last.before.len());
        }
    }
}

/// Restoring what was before a changeset leaves the history of the store as it is.
pub proof fn lemma_restore_keeps_history(
    store: StoreView,
    inverse: InverseView,
    remaps: Seq<RemapView>,
    segments: SegmentsView,
    now: Seq<char>,
    revision: Seq<char>,
)
    ensures
        sparse_rollback::all_restored(
            store,
            inverse,
            remaps,
            segments,
            now,
            revision,
        ) matches Ok(next) ==> next.changesets == store.changesets,
{
    let n = inverse.pages.len();
    lemma_unlinked(store, inverse.pages, n);
    if let Ok(a) = sparse_rollback::all_unlinked(store, inverse.pages, n) {
        lemma_pages_restored(a, inverse.pages, segments, now, revision, n);
        if let Ok(b) = sparse_rollback::pages_restored(
            a,
            inverse.pages,
            segments,
            now,
            revision,
            n,
        ) {
            lemma_tags_restored(b, inverse.tags, now, revision, inverse.tags.len());
            if let Ok(c) = sparse_rollback::tags_restored(
                b,
                inverse.tags,
                now,
                revision,
                inverse.tags.len(),
            ) {
                lemma_metas_restored(c, inverse.meta, now, revision, inverse.meta.len());
                if let Ok(d) = sparse_rollback::metas_restored(
                    c,
                    inverse.meta,
                    now,
                    revision,
                    inverse.meta.len(),
                ) {
                    let m = inverse.sources.len();
                    lemma_sources_restored(
                        d,
                        inverse.sources,
                        remaps,
                        segments,
                        now,
                        revision,
                        m,
                    );
                    if let Ok(f) = sparse_rollback::sources_restored(
                        d,
                        inverse.sources,
                        remaps,
                        segments,
                        now,
                        revision,
                        m,
                    ) {
                        lemma_paths_restored(f, inverse.source_paths, inverse.source_paths.len());
                    }
                }
            }
        }
    }
}

} // verus!
