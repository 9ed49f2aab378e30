//! What a published changeset leaves behind, and what stands in the way of taking it back.
use crate::changeset_log;
use crate::changesets::HistoryView;
use crate::digest;
use crate::error::AppErrorView;
use crate::pages;
use crate::publish;
use crate::publish::PublishView;
use crate::rollback_guard;
use crate::rows::{OperationView, PageView, PathRevisionView};
use crate::sources;
use crate::spans::SegmentsView;
use crate::sparse_inverse;
use crate::sparse_inverse::{
    InverseView, MetaInverseView, PageInverseView, SourceInverseView, TagInverseView,
    TrackedPathInverseView,
};
use crate::sparse_merge;
use crate::sparse_merge::RemapView;
use crate::sparse_rollback;
use crate::sparse_rollback::RollbackInputView;
use crate::staging;
use crate::store;
use crate::store::StoreView;
use crate::table::PairView;
use crate::text;
use crate::touched;
use vstd::prelude::*;

verus! {

// ---------------------------------------------------------------------------
// Publishing
// ---------------------------------------------------------------------------

/// A changeset that is published is the draft that was looked at, of this store: the same
/// revision, the same last operation, as many operations. It is marked as committed, with the
/// revision that it made, its checkpoint and the time, and the log tells of it last.
pub proof fn law_published_changeset_is_marked(
    live: StoreView,
    draft: StoreView,
    segments: SegmentsView,
    entries: Set<PairView>,
    input: PublishView,
    now: Seq<char>,
    revision: Seq<char>,
)
    ensures
        publish::publish_goal(
            live,
            draft,
            segments,
            entries,
            input,
            now,
            revision,
        ) matches Ok(done) ==> {
            let row = done.store.changesets[input.id];
            let base = draft.changesets[input.id];
            &&& store::meta_value(live, "store_id"@) == Some(input.store_id)
            &&& store::meta_value(draft, "store_id"@) == Some(input.store_id)
            &&& store::meta_value(draft, "store_revision"@) == Some(input.draft_revision)
            &&& draft.operations.len() > 0 ==> draft.operations.last().id
                == input.draft_operation_id
            &&& draft.changesets.dom().contains(input.id)
            &&& base.name == input.name
            &&& base.status == "draft"@
            &&& base.base_revision == input.base_revision
            &&& store::operations_after(draft.operations, base.begin_operation_id).len()
                == input.staged_operation_count
            &&& done.store.changesets.dom().contains(input.id)
            &&& row.status == "committed"@
            &&& row.post_revision == Some(revision)
            &&& row.pre_commit_checkpoint == Some(input.checkpoint)
            &&& row.committed_at == Some(now)
            &&& done.store.operations.len() > 0
            &&& done.store.operations.last().action == "changeset_commit"@
            &&& done.store.operations.last().target == input.id
            &&& done.store.operations.last().created_at == now
            &&& done.store.meta.dom().contains("store_revision"@)
            &&& done.store.meta["store_revision"@] == revision
        },
{
}

/// A document is a source that was given another identifier.
pub open spec fn is_moved(from: PairView, to: PairView, ids: Map<i64, i64>) -> bool {
    match text::reads_as_i64(from.second) {
        Some(id) => if from.first == "source"@ && ids.dom().contains(id as i64) {
            to.first == "source"@ && to.second == text::decimal(ids[id as i64] as int)
        } else {
            to == from
        },
        None => to == from,
    }
}

/// The documents that are told of are those of the draft, each under the identifier that it has
/// in the live store.
pub proof fn law_documents_are_told_of(
    documents: Seq<PairView>,
    ids: Map<i64, i64>,
    document: PairView,
)
    ensures
        publish::documents_moved(documents, ids).contains(document) <==> exists|k: int|
            0 <= k < documents.len() && is_moved(#[trigger] documents[k], document, ids),
    decreases documents.len(),
{
    if documents.len() > 0 {
        let head = documents.drop_last();
        law_documents_are_told_of(head, ids, document);
        let last = documents.len() - 1;
        assert(is_moved(documents[last], publish::document_moved(documents[last], ids), ids));
        if publish::documents_moved(head, ids).contains(document) {
            let k = choose|k: int|
                0 <= k < head.len() && is_moved(#[trigger] head[k], document, ids);
            assert(documents[k] == head[k]);
        }
        if exists|k: int| 0 <= k < documents.len() && is_moved(#[trigger] documents[k], document, ids) {
            let k = choose|k: int|
                0 <= k < documents.len() && is_moved(#[trigger] documents[k], document, ids);
            if k < last {
                assert(head[k] == documents[k]);
            } else {
                assert(document == publish::document_moved(documents[last], ids));
            }
        }
    }
}

/// A whole copy that takes the place of a store brings all that it holds; the store keeps where
/// it is, its discussions, and its place in counting. It is not frozen.
pub proof fn law_copy_takes_over(live: StoreView, other: StoreView)
    ensures
        ({
            let next = publish::replaced(live, other);
            &&& next.scope == live.scope
            &&& next.database == live.database
            &&& next.discussions == live.discussions
            &&& next.pages == other.pages
            &&& next.sources == other.sources
            &&& next.tags == other.tags
            &&& next.paths == other.paths
            &&& next.ingest_jobs == other.ingest_jobs
            &&& next.operations == other.operations
            &&& next.changesets == other.changesets
            &&& next.relations == other.relations
            &&& next.weights == other.weights
            &&& next.feedback == other.feedback
            &&& next.spans == other.spans
            &&& !store::is_frozen(next)
            &&& forall|key: Seq<char>|
                key != "changeset_frozen"@ && #[trigger] other.meta.dom().contains(key)
                    ==> next.meta.dom().contains(key) && next.meta[key] == other.meta[key]
            &&& next.source_sequence >= live.source_sequence
            &&& next.operation_sequence >= live.operation_sequence
            &&& other.operations.len() > 0 ==> next.operation_sequence
                >= other.operations.last().id
        }),
{
}

/// The pages and the sources that a replacement changes are those that only one of the stores
/// has, or that both have otherwise.
pub proof fn law_changes_are_seen(live: StoreView, other: StoreView, slug: Seq<char>, id: i64)
    ensures
        publish::changed_sources(live, other).contains(id) <==> {
            ||| live.sources.dom().contains(id) != other.sources.dom().contains(id)
            ||| live.sources.dom().contains(id) && live.sources[id] != other.sources[id]
        },
        publish::changed_pages(live, other).contains(slug) <==> {
            ||| live.pages.dom().contains(slug) != other.pages.dom().contains(slug)
            ||| live.pages.dom().contains(slug) && {
                ||| live.pages[slug].title != other.pages[slug].title
                ||| live.pages[slug].kind != other.pages[slug].kind
                ||| live.pages[slug].summary != other.pages[slug].summary
                ||| live.pages[slug].body != other.pages[slug].body
                ||| live.pages[slug].structural_navigation
                    != other.pages[slug].structural_navigation
                ||| live.pages[slug].created_at != other.pages[slug].created_at
                ||| live.pages[slug].updated_at != other.pages[slug].updated_at
            }
        },
{
}

// ---------------------------------------------------------------------------
// What stands in the way
// ---------------------------------------------------------------------------

proof fn lemma_no_page_obstacle(
    store: StoreView,
    items: Seq<PageInverseView>,
    ids: Map<i64, i64>,
    k: int,
)
    requires
        0 <= k < items.len(),
        sparse_rollback::page_obstacles(store, items, ids) is None,
    ensures
        sparse_rollback::page_obstacle(store, items[k], ids) is None,
    decreases items.len(),
{
    if k > 0 {
        assert(items.drop_first()[k - 1] == items[k]);
        lemma_no_page_obstacle(store, items.drop_first(), ids, k - 1);
    }
}

proof fn lemma_no_meta_obstacle(store: StoreView, items: Seq<MetaInverseView>, k: int)
    requires
        0 <= k < items.len(),
        sparse_rollback::meta_obstacles(store, items) is None,
    ensures
        sparse_rollback::meta_obstacle(store, items[k]) is None,
    decreases items.len(),
{
    if k > 0 {
        assert(items.drop_first()[k - 1] == items[k]);
        lemma_no_meta_obstacle(store, items.drop_first(), k - 1);
    }
}

proof fn lemma_no_tag_obstacle(store: StoreView, items: Seq<TagInverseView>, k: int)
    requires
        0 <= k < items.len(),
        sparse_rollback::tag_obstacles(store, items) is None,
    ensures
        sparse_rollback::tag_obstacle(store, items[k]) is None,
    decreases items.len(),
{
    if k > 0 {
        assert(items.drop_first()[k - 1] == items[k]);
        lemma_no_tag_obstacle(store, items.drop_first(), k - 1);
    }
}

proof fn lemma_no_path_obstacle(
    store: StoreView,
    items: Seq<TrackedPathInverseView>,
    ids: Map<i64, i64>,
    k: int,
)
    requires
        0 <= k < items.len(),
        sparse_rollback::path_obstacles(store, items, ids) is None,
    ensures
        sparse_rollback::path_obstacle(store, items[k], ids) is None,
    decreases items.len(),
{
    if k > 0 {
        assert(items.drop_first()[k - 1] == items[k]);
        lemma_no_path_obstacle(store, items.drop_first(), ids, k - 1);
    }
}

proof fn lemma_no_source_obstacle(
    store: StoreView,
    items: Seq<SourceInverseView>,
    remaps: Seq<RemapView>,
    ids: Map<i64, i64>,
    k: int,
)
    requires
        0 <= k < items.len(),
        sparse_rollback::source_obstacles(store, items, remaps, ids) is None,
    ensures
        sparse_rollback::source_obstacle(store, items[k], remaps, ids) is None,
    decreases items.len(),
{
    if k > 0 {
        assert(items.drop_first()[k - 1] == items[k]);
        lemma_no_source_obstacle(store, items.drop_first(), remaps, ids, k - 1);
    }
}

/// A sparse changeset is taken back only in the store and the history that it belongs to, and
/// only while everything that it changed is as it left it: its pages, told of the identifiers
/// that its sources have here, its metadata, its tags and its paths.
pub proof fn law_changed_since_stops_a_rollback(
    store: StoreView,
    inverse: InverseView,
    input: RollbackInputView,
    segments: SegmentsView,
    now: Seq<char>,
    revision: Seq<char>,
    k: int,
)
    ensures
        sparse_rollback::rollback_goal(store, inverse, input, segments, now, revision) is Ok ==> {
            let remaps = changeset_log::committed_remaps(store, input.history.id)->Ok_0;
            let ids = sparse_rollback::moved_ids(remaps, remaps.len());
            let row = store.changesets[input.history.id];
            &&& inverse.store_id == input.store_id
            &&& inverse.changeset_id == input.history.id
            &&& store::meta_value(store, "store_id"@) == Some(input.store_id)
            &&& store.changesets.dom().contains(input.history.id)
            &&& row.status == "committed"@
            &&& row.post_revision is Some
            &&& row.post_revision == input.history.post_revision
            &&& row.pre_commit_checkpoint is Some
            &&& row.pre_commit_checkpoint == input.history.pre_commit_checkpoint
            &&& 0 <= k < inverse.pages.len() ==> {
                let page = inverse.pages[k];
                let here = store.pages.dom().contains(page.slug);
                let expected = match page.after {
                    Some(after) => pages::page_mark(
                        PageView {
                            source_ids: after.source_ids.map_values(
                                |id: i64|
                                    if ids.dom().contains(id) {
                                        ids[id]
                                    } else {
                                        id
                                    },
                            ),
                            ..after
                        },
                    ),
                    None => page.after_fingerprint,
                };
                &&& here ==> pages::page_mark(store.pages[page.slug]) == expected
                &&& !here ==> expected == "absent"@
            }
            &&& 0 <= k < inverse.meta.len() ==> {
                let entry = inverse.meta[k];
                &&& store.meta.dom().contains(entry.key)
                &&& digest::text_digest(store.meta[entry.key]) == entry.after_fingerprint
            }
            &&& 0 <= k < inverse.tags.len() ==> staging::tag_mark(
                staging::tag_snapshot(store, inverse.tags[k].name),
            ) == inverse.tags[k].after_fingerprint
            &&& 0 <= k < inverse.source_paths.len() && inverse.source_paths[k].after.len() == 0
                ==> sparse_inverse::path_mark(
                sources::path_log(store.paths, inverse.source_paths[k].tracked_path),
            ) == inverse.source_paths[k].after_fingerprint
        },
{
    if sparse_rollback::rollback_goal(store, inverse, input, segments, now, revision) is Ok {
        let remaps = changeset_log::committed_remaps(store, input.history.id)->Ok_0;
        let ids = sparse_rollback::moved_ids(remaps, remaps.len());
        if 0 <= k < inverse.pages.len() {
            lemma_no_page_obstacle(store, inverse.pages, ids, k);
            if let Some(after) = inverse.pages[k].after {
                let told = after.source_ids.map_values(
                    |id: i64|
                        if ids.dom().contains(id) {
                            ids[id]
                        } else {
                            id
                        },
                );
                assert(sparse_rollback::page_moved(after, ids).source_ids =~= told);
            }
        }
        if 0 <= k < inverse.meta.len() {
            lemma_no_meta_obstacle(store, inverse.meta, k);
        }
        if 0 <= k < inverse.tags.len() {
            lemma_no_tag_obstacle(store, inverse.tags, k);
        }
        if 0 <= k < inverse.source_paths.len() {
            lemma_no_path_obstacle(store, inverse.source_paths, ids, k);
        }
    }
}

/// A source that came with a changeset must be as it came, unless the store had it already.
pub proof fn law_changed_source_stops_a_rollback(
    store: StoreView,
    inverse: InverseView,
    input: RollbackInputView,
    segments: SegmentsView,
    now: Seq<char>,
    revision: Seq<char>,
    k: int,
)
    requires
        0 <= k < inverse.sources.len(),
    ensures
        sparse_rollback::rollback_goal(store, inverse, input, segments, now, revision) is Ok ==> {
            let remaps = changeset_log::committed_remaps(store, input.history.id)->Ok_0;
            let ids = sparse_rollback::moved_ids(remaps, remaps.len());
            let source = inverse.sources[k];
            let at = if ids.dom().contains(source.source_id) {
                ids[source.source_id]
            } else {
                source.source_id
            };
            (forall|n: int|
                0 <= n < remaps.len() ==> (#[trigger] remaps[n]).draft_id != source.source_id
                    || remaps[n].created) ==> (match sparse_inverse::source_snapshot(store, at) {
                Some(found) => sparse_inverse::source_mark(
                    sparse_inverse::SourceSnapshotView { id: source.source_id, ..found },
                ) == source.after_fingerprint,
                None => source.after_fingerprint == "absent"@,
            })
        },
{
    if sparse_rollback::rollback_goal(store, inverse, input, segments, now, revision) is Ok {
        let remaps = changeset_log::committed_remaps(store, input.history.id)->Ok_0;
        let ids = sparse_rollback::moved_ids(remaps, remaps.len());
        lemma_no_source_obstacle(store, inverse.sources, remaps, ids, k);
    }
}

/// A changeset is taken back from a snapshot only while the store has the revision that the
/// changeset made, and only with the snapshot from before it.
pub proof fn law_snapshot_belongs_to_the_changeset(
    live: StoreView,
    snapshot: StoreView,
    segments: SegmentsView,
    entries: Set<PairView>,
    input: RollbackInputView,
    now: Seq<char>,
    revision: Seq<char>,
)
    ensures
        publish::snapshot_goal(
            live,
            snapshot,
            segments,
            entries,
            input,
            now,
            revision,
        ) matches Ok(done) ==> {
            let row = done.store.changesets[input.history.id];
            &&& store::meta_value(live, "store_id"@) == Some(input.store_id)
            &&& store::meta_value(live, "store_revision"@) == input.history.post_revision
            &&& store::meta_value(snapshot, "store_id"@) == Some(input.store_id)
            &&& store::meta_value(snapshot, "store_revision"@) == Some(
                input.history.base_revision,
            )
            &&& snapshot.operations.len() > 0 ==> snapshot.operations.last().id
                == input.history.base_operation_id
            &&& live.changesets.dom().contains(input.history.id)
            &&& live.changesets[input.history.id].status == "committed"@
            &&& done.store.changesets.dom().contains(input.history.id)
            &&& row.status == "rolled_back"@
            &&& row.rolled_back_at == Some(now)
            &&& row.name == input.history.name
            &&& row.base_revision == input.history.base_revision
            &&& row.base_operation_id == input.history.base_operation_id
            &&& row.begin_operation_id == input.history.begin_operation_id
            &&& row.post_revision == input.history.post_revision
            &&& row.pre_commit_checkpoint == input.history.pre_commit_checkpoint
            &&& row.created_at == input.history.created_at
            &&& row.committed_at == input.history.committed_at
            &&& done.state.checkpoint == input.pre_rollback_checkpoint
            &&& done.state.rollback_revision == revision
            &&& done.store.operations.last().action == "changeset_rollback"@
            &&& done.store.operations.last().target == input.history.id
        },
{
}

// ---------------------------------------------------------------------------
// The patches
// ---------------------------------------------------------------------------

/// What a patch expects of a tag is what the merge leaves of it: step by step they agree, as long
/// as the draft has the pages in the tag that it put there.
pub proof fn law_patch_expects_what_the_merge_leaves(
    store: StoreView,
    draft: StoreView,
    op: OperationView,
    tag: Seq<char>,
)
    requires
        op.action == "tag_set"@ && op.detail.text_at("page"@) is Some ==> staging::is_member(
            draft,
            tag,
            op.detail.text_at("page"@)->0,
        ),
    ensures
        sparse_merge::tag_merged(store, draft, op) matches Ok(next) ==> (
        sparse_inverse::tag_step(
            staging::tag_snapshot(store, tag),
            staging::tag_snapshot(draft, tag),
            op,
            tag,
        ) matches Ok(expected) && expected == staging::tag_snapshot(next, tag)),
{
    reveal(sparse_merge::tag_merged);
    reveal_strlit("tag_set");
    reveal_strlit("tag_remove");
    reveal_strlit("tag_delete");
    reveal_strlit("tag_autoload");
    assert("tag_set"@.len() == 7);
    assert("tag_remove"@.len() == 10 && "tag_remove"@[4] == 'r');
    assert("tag_delete"@.len() == 10 && "tag_delete"@[4] == 'd');
    assert("tag_autoload"@.len() == 12);
}

/// What a patch expects of a path is what observing gives: one more observation stands behind
/// the others exactly where the path advances.
pub proof fn law_patch_expects_what_observing_gives(
    paths: Map<Seq<char>, Seq<PathRevisionView>>,
    path: Seq<char>,
    before: Seq<PathRevisionView>,
    staged: Seq<PathRevisionView>,
    count: nat,
)
    requires
        0 < count <= staged.len(),
        sparse_inverse::path_projected(before, staged, (count - 1) as nat) == Ok::<
            Seq<PathRevisionView>,
            AppErrorView,
        >(sources::path_log(paths, path)),
    ensures
        sources::observed(
            paths,
            path,
            staged[count - 1].source_id,
            staged[count - 1].observed_at,
        ) matches Ok(o) ==> sparse_inverse::path_projected(before, staged, count) == Ok::<
            Seq<PathRevisionView>,
            AppErrorView,
        >(sources::path_log(o.paths, path)),
        sparse_inverse::path_projected(before, staged, 0) == Ok::<
            Seq<PathRevisionView>,
            AppErrorView,
        >(before),
{
}

proof fn lemma_page_guards(store: StoreView, items: Seq<PageInverseView>, count: nat)
    requires
        count <= items.len(),
    ensures
        rollback_guard::page_guards(store, items, count) matches Ok(list) ==> {
            &&& list.len() == count
            &&& forall|k: int|
                0 <= k < count ==> {
                    let guard = #[trigger] list[k];
                    &&& guard.slug == items[k].slug
                    &&& guard.after == items[k].before
                    &&& store.pages.dom().contains(guard.slug) ==> guard.before == Some(
                        store.pages[guard.slug],
                    )
                    &&& !store.pages.dom().contains(guard.slug) ==> guard.before is None
                    &&& items[k].before matches Some(page) ==> guard.after_fingerprint
                        == pages::page_mark(page)
                    &&& items[k].before is None ==> guard.after_fingerprint == "absent"@
                }
        },
    decreases count,
{
    if count > 0 {
        lemma_page_guards(store, items, (count - 1) as nat);
    }
}

proof fn lemma_meta_guards(store: StoreView, items: Seq<MetaInverseView>, count: nat)
    requires
        count <= items.len(),
    ensures
        rollback_guard::meta_guards(store, items, count) matches Ok(list) ==> {
            &&& list.len() == count
            &&& forall|k: int|
                0 <= k < count ==> {
                    let guard = #[trigger] list[k];
                    &&& guard.key == items[k].key
                    &&& store.meta.dom().contains(guard.key)
                    &&& guard.before == store.meta[guard.key]
                    &&& guard.after_fingerprint == digest::text_digest(items[k].before)
                }
        },
    decreases count,
{
    if count > 0 {
        lemma_meta_guards(store, items, (count - 1) as nat);
    }
}

proof fn lemma_tag_guards(store: StoreView, items: Seq<TagInverseView>, count: nat)
    requires
        count <= items.len(),
    ensures
        rollback_guard::tag_guards(store, items, count) matches Ok(list) ==> {
            &&& list.len() == count
            &&& forall|k: int|
                0 <= k < count ==> {
                    let guard = #[trigger] list[k];
                    &&& guard.name == items[k].name
                    &&& guard.before == staging::tag_snapshot(store, guard.name)
                    &&& guard.after_fingerprint == staging::tag_mark(items[k].before)
                }
        },
    decreases count,
{
    if count > 0 {
        lemma_tag_guards(store, items, (count - 1) as nat);
    }
}

proof fn lemma_path_guards(store: StoreView, items: Seq<TrackedPathInverseView>, count: nat)
    requires
        count <= items.len(),
    ensures
        rollback_guard::path_guards(store, items, count) matches Ok(list) ==> {
            &&& list.len() == count
            &&& forall|k: int|
                0 <= k < count ==> {
                    let guard = #[trigger] list[k];
                    &&& guard.tracked_path == items[k].tracked_path
                    &&& guard.after == items[k].before
                    &&& guard.before == sources::path_log(store.paths, guard.tracked_path)
                    &&& guard.after_fingerprint == sparse_inverse::path_mark(items[k].before)
                }
        },
    decreases count,
{
    if count > 0 {
        lemma_path_guards(store, items, (count - 1) as nat);
    }
}

proof fn lemma_source_guards(
    store: StoreView,
    items: Seq<SourceInverseView>,
    remaps: Seq<RemapView>,
    count: nat,
)
    requires
        count <= items.len(),
    ensures
        rollback_guard::source_guards(store, items, remaps, count) matches Ok(list) ==> {
            &&& list.len() == count
            &&& forall|k: int|
                0 <= k < count ==> {
                    let guard = #[trigger] list[k];
                    &&& guard.source_id == items[k].source_id
                    &&& guard.after_fingerprint == sparse_inverse::source_state(items[k].before)
                    &&& guard.before matches Some(found) ==> found.id == guard.source_id
                }
        },
    decreases count,
{
    if count > 0 {
        lemma_source_guards(store, items, remaps, (count - 1) as nat);
    }
}

/// The patch that takes a rollback back is the other way round: it remembers what the store has
/// now, and expects what the rollback restores.
pub proof fn law_guard_turns_a_rollback_round(
    store: StoreView,
    history: HistoryView,
    inverse: InverseView,
)
    ensures
        rollback_guard::guard_goal(store, history, inverse) matches Ok(guard) ==> {
            &&& guard.changeset_id == history.id
            &&& store::meta_value(store, "store_id"@) == Some(guard.store_id)
            &&& guard.pages.len() == inverse.pages.len()
            &&& forall|k: int|
                0 <= k < guard.pages.len() ==> {
                    let page = #[trigger] guard.pages[k];
                    &&& page.slug == inverse.pages[k].slug
                    &&& page.after == inverse.pages[k].before
                    &&& store.pages.dom().contains(page.slug) ==> page.before == Some(
                        store.pages[page.slug],
                    )
                    &&& !store.pages.dom().contains(page.slug) ==> page.before is None
                    &&& inverse.pages[k].before matches Some(old_page) ==> page.after_fingerprint
                        == pages::page_mark(old_page)
                    &&& inverse.pages[k].before is None ==> page.after_fingerprint == "absent"@
                }
            &&& guard.meta.len() == inverse.meta.len()
            &&& forall|k: int|
                0 <= k < guard.meta.len() ==> {
                    let entry = #[trigger] guard.meta[k];
                    &&& entry.key == inverse.meta[k].key
                    &&& store.meta.dom().contains(entry.key)
                    &&& entry.before == store.meta[entry.key]
                    &&& entry.after_fingerprint == digest::text_digest(inverse.meta[k].before)
                }
            &&& guard.tags.len() == inverse.tags.len()
            &&& forall|k: int|
                0 <= k < guard.tags.len() ==> {
                    let tag = #[trigger] guard.tags[k];
                    &&& tag.name == inverse.tags[k].name
                    &&& tag.before == staging::tag_snapshot(store, tag.name)
                    &&& tag.after_fingerprint == staging::tag_mark(inverse.tags[k].before)
                }
            &&& guard.source_paths.len() == inverse.source_paths.len()
            &&& forall|k: int|
                0 <= k < guard.source_paths.len() ==> {
                    let path = #[trigger] guard.source_paths[k];
                    &&& path.tracked_path == inverse.source_paths[k].tracked_path
                    &&& path.after == inverse.source_paths[k].before
                    &&& path.before == sources::path_log(store.paths, path.tracked_path)
                    &&& path.after_fingerprint == sparse_inverse::path_mark(
                        inverse.source_paths[k].before,
                    )
                }
            &&& guard.sources.len() == inverse.sources.len()
            &&& forall|k: int|
                0 <= k < guard.sources.len() ==> {
                    let source = #[trigger] guard.sources[k];
                    &&& source.source_id == inverse.sources[k].source_id
                    &&& source.after_fingerprint == sparse_inverse::source_state(
                        inverse.sources[k].before,
                    )
                    &&& source.before matches Some(found) ==> found.id == source.source_id
                }
        },
{
    if let Ok(guard) = rollback_guard::guard_goal(store, history, inverse) {
        let remaps = changeset_log::committed_remaps(store, history.id)->Ok_0;
        lemma_page_guards(store, inverse.pages, inverse.pages.len());
        lemma_meta_guards(store, inverse.meta, inverse.meta.len());
        lemma_tag_guards(store, inverse.tags, inverse.tags.len());
        lemma_path_guards(store, inverse.source_paths, inverse.source_paths.len());
        lemma_source_guards(store, inverse.sources, remaps, inverse.sources.len());
    }
}

proof fn lemma_pages_after(live: StoreView, items: Seq<PairView>, draft: StoreView, count: nat)
    requires
        count <= items.len(),
    ensures
        sparse_inverse::page_inverses(live, items, draft, count) matches Ok(list) ==> {
            &&& list.len() == count
            &&& forall|k: int|
                0 <= k < count ==> {
                    let page = #[trigger] list[k];
                    &&& page.slug == items[k].first
                    &&& draft.pages.dom().contains(page.slug) ==> page.after == Some(
                        draft.pages[page.slug],
                    ) && page.after_fingerprint == pages::page_mark(draft.pages[page.slug])
                    &&& !draft.pages.dom().contains(page.slug) ==> page.after is None
                        && page.after_fingerprint == "absent"@
                    &&& live.pages.dom().contains(page.slug) ==> pages::page_mark(
                        live.pages[page.slug],
                    ) == items[k].second
                    &&& !live.pages.dom().contains(page.slug) ==> items[k].second == "absent"@
                }
        },
    decreases count,
{
    if count > 0 {
        lemma_pages_after(live, items, draft, (count - 1) as nat);
    }
}

/// A patch is made only while every page that the draft touched is in the live store as it was
/// when the draft first touched it. It expects each of them as the draft has it.
pub proof fn law_patch_expects_the_draft(live: StoreView, draft: StoreView, id: Seq<char>)
    ensures
        sparse_inverse::inverse_goal(live, draft, id) matches Ok(inverse) ==> {
            &&& inverse.changeset_id == id
            &&& store::meta_value(live, "store_id"@) == Some(inverse.store_id)
            &&& forall|k: int|
                0 <= k < inverse.pages.len() ==> {
                    let page = #[trigger] inverse.pages[k];
                    let base = store::meta_value(draft, "changeset_base_page:"@ + page.slug);
                    &&& draft.pages.dom().contains(page.slug) ==> page.after == Some(
                        draft.pages[page.slug],
                    ) && page.after_fingerprint == pages::page_mark(draft.pages[page.slug])
                    &&& !draft.pages.dom().contains(page.slug) ==> page.after is None
                        && page.after_fingerprint == "absent"@
                    &&& live.pages.dom().contains(page.slug) && base is Some ==> base->0
                        == pages::page_mark(live.pages[page.slug])
                    &&& !live.pages.dom().contains(page.slug) && base is Some ==> base->0
                        == "absent"@
                }
        },
{
    if let Ok(inverse) = sparse_inverse::inverse_goal(live, draft, id) {
        let slugs = touched::touched_pages(draft);
        lemma_pages_after(live, slugs, draft, slugs.len());
        assert forall|k: int| 0 <= k < inverse.pages.len() implies (
        #[trigger] inverse.pages[k]).slug == slugs[k].first by {}
    }
}

} // verus!
