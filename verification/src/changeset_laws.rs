//! What holds of changesets as a whole: what publishing one and taking it back leave behind.
use crate::changeset_log;
use crate::changeset_log::{CommitView, RollbackView};
use crate::changesets;
use crate::checkpoints;
use crate::checkpoints::CheckpointFileView;
use crate::error::{AppErrorView, ErrorCode};
use crate::history;
use crate::json;
use crate::json::JsonView;
use crate::pages;
use crate::publish;
use crate::publish::PublishView;
use crate::refusals;
use crate::rows::{OperationView, PageView, PathRevisionView, SourceView, TagView};
use crate::sources;
use crate::spans::SegmentsView;
use crate::sparse_inverse;
use crate::sparse_inverse::{
    InverseView, MetaInverseView, PageInverseView, SourceInverseView, SourcePathView, TagInverseView,
    TrackedPathInverseView,
};
use crate::sparse_merge;
use crate::sparse_merge::RemapView;
use crate::sparse_rollback;
use crate::sparse_rollback::RollbackInputView;
use crate::staging;
use crate::store;
use crate::store::StoreView;
use crate::table::PairView;
use crate::text;
use crate::touched;
use vstd::prelude::*;

verus! {

// ---------------------------------------------------------------------------
// What was published
// ---------------------------------------------------------------------------

proof fn lemma_newest(store: StoreView, op: OperationView)
    requires
        store.operations.len() > 0,
        store.operations.last() == op,
    ensures
        changeset_log::newest_with(store.operations, op.action, op.target) == Some(op),
{
}

/// A changeset that was published is found in the history as it was published: the revision
/// that it made, its checkpoint, what it counted, and where its sources and documents went. It
/// has the name and the base that it was published with, unless the live store knows a
/// changeset of that identifier by others.
pub proof fn law_published_reads_back(
    live: StoreView,
    draft: StoreView,
    segments: SegmentsView,
    entries: Set<PairView>,
    input: PublishView,
    now: Seq<char>,
    revision: Seq<char>,
)
    ensures
        publish::publish_goal(
            live,
            draft,
            segments,
            entries,
            input,
            now,
            revision,
        ) matches Ok(done) ==> {
            let known = store::meta_value(draft, "changeset_storage"@) == Some("sparse-v1"@)
                && live.changesets.dom().contains(input.id);
            &&& done.state.changeset_id == input.id
            &&& done.state.post_revision == revision
            &&& done.state.checkpoint == input.checkpoint
            &&& done.state.staged_operation_count == input.staged_operation_count
            &&& done.state.lint_issues == input.lint_issues
            &&& changeset_log::committed(done.store, input.id) == Ok::<
                Option<CommitView>,
                AppErrorView,
            >(
                Some(
                    CommitView {
                        name: if known {
                            live.changesets[input.id].name
                        } else {
                            done.state.name
                        },
                        base_revision: if known {
                            live.changesets[input.id].base_revision
                        } else {
                            done.state.base_revision
                        },
                        ..done.state
                    },
                ),
            )
            &&& done.store.meta["store_revision"@] == revision
        },
{
    if let Ok(done) = publish::publish_goal(
        live,
        draft,
        segments,
        entries,
        input,
        now,
        revision,
    ) {
        let remaps = done.state.source_id_remap;
        let documents = done.state.graph_documents;
        publish::lemma_taken_over(live, draft, segments, entries);
        history::lemma_merge_keeps_history(
            live,
            draft,
            segments,
            draft.changesets[input.id].begin_operation_id,
            true,
            now,
            revision,
        );
        let detail = publish::commit_detail(input, remaps, documents);
        let told = detail->Object_0;
        let op = done.store.operations.last();
        assert(op.detail == detail && op.action == "changeset_commit"@ && op.target == input.id);
        lemma_newest(done.store, op);
        lemma_commit_entries(input, remaps, documents);
        changeset_log::law_commit_details_read_back(told, remaps, documents);
        changeset_log::lemma_count_back(
            detail,
            "staged_operation_count"@,
            input.staged_operation_count,
        );
        changeset_log::lemma_count_back(detail, "lint_issues"@, input.lint_issues);
    }
}

proof fn lemma_commit_entries(
    input: PublishView,
    remaps: Seq<RemapView>,
    documents: Seq<PairView>,
)
    ensures
        ({
            let entries = publish::commit_detail(input, remaps, documents)->Object_0;
            &&& json::lookup(entries, "source_id_remap"@) == Some(
                changeset_log::remaps_json(remaps),
            )
            &&& json::lookup(entries, "graph_documents"@) == Some(
                changeset_log::documents_json(documents),
            )
            &&& json::lookup(entries, "staged_operation_count"@) == Some(
                json::count_view(input.staged_operation_count as nat),
            )
            &&& json::lookup(entries, "lint_issues"@) == Some(
                json::count_view(input.lint_issues as nat),
            )
        }),
{
    let entries = publish::commit_detail(input, remaps, documents)->Object_0;
    reveal_strlit("base_revision");
    reveal_strlit("checkpoint");
    reveal_strlit("graph_documents");
    reveal_strlit("lint_issues");
    reveal_strlit("lint_override_reason");
    reveal_strlit("name");
    reveal_strlit("source_id_remap");
    reveal_strlit("staged_operation_count");
    assert("base_revision"@.len() == 13);
    assert("checkpoint"@.len() == 10);
    assert("graph_documents"@[0] == 'g' && "graph_documents"@.len() == 15);
    assert("lint_issues"@.len() == 11);
    assert("lint_override_reason"@.len() == 20);
    assert("name"@.len() == 4);
    assert("source_id_remap"@[0] == 's' && "source_id_remap"@.len() == 15);
    assert("staged_operation_count"@.len() == 22);
    lemma_lookup_at(entries, 2);
    lemma_lookup_at(entries, 3);
    lemma_lookup_at(entries, 6);
    lemma_lookup_at(entries, 7);
}

/// An entry whose key no earlier one has is found under it.
proof fn lemma_lookup_at(entries: Seq<json::EntryView>, at: int)
    requires
        0 <= at < entries.len(),
        forall|k: int| 0 <= k < at ==> (#[trigger] entries[k]).key != entries[at].key,
    ensures
        json::lookup(entries, entries[at].key) == Some(entries[at].value),
    decreases entries.len(),
{
    if at > 0 {
        let rest = entries.drop_first();
        assert(entries[0].key != entries[at].key);
        assert forall|k: int| 0 <= k < at - 1 implies (#[trigger] rest[k]).key
            != rest[at - 1].key by {
            assert(rest[k] == entries[k + 1]);
        }
        lemma_lookup_at(rest, at - 1);
    }
}

/// A draft that is a copy of the whole Wiki takes its place when it is published: its pages,
/// its sources and its tags are those of the live store then.
pub proof fn law_full_draft_takes_over(
    live: StoreView,
    draft: StoreView,
    segments: SegmentsView,
    entries: Set<PairView>,
    input: PublishView,
    now: Seq<char>,
    revision: Seq<char>,
)
    requires
        store::meta_value(draft, "changeset_storage"@) != Some("sparse-v1"@),
    ensures
        publish::publish_goal(
            live,
            draft,
            segments,
            entries,
            input,
            now,
            revision,
        ) matches Ok(done) ==> {
            &&& done.store.pages == draft.pages
            &&& done.store.sources == draft.sources
            &&& done.store.tags == draft.tags
            &&& done.store.discussions == live.discussions
        },
{
    publish::lemma_taken_over(live, draft, segments, entries);
}

// ---------------------------------------------------------------------------
// What was taken back
// ---------------------------------------------------------------------------

/// A changeset that is taken back from a snapshot leaves the Wiki as the snapshot has it, and
/// is found in the history as taken back. The discussions stay as they are.
pub proof fn law_snapshot_comes_back(
    live: StoreView,
    snapshot: StoreView,
    segments: SegmentsView,
    known: Set<PairView>,
    input: RollbackInputView,
    now: Seq<char>,
    revision: Seq<char>,
)
    ensures
        publish::snapshot_goal(
            live,
            snapshot,
            segments,
            known,
            input,
            now,
            revision,
        ) matches Ok(done) ==> {
            &&& done.store.pages == snapshot.pages
            &&& done.store.sources == snapshot.sources
            &&& done.store.tags == snapshot.tags
            &&& done.store.paths == snapshot.paths
            &&& done.store.relations == snapshot.relations
            &&& done.store.discussions == live.discussions
            &&& changeset_log::rolled_back(done.store, input.history.id) == Ok::<
                Option<RollbackView>,
                AppErrorView,
            >(Some(done.state))
        },
{
    publish::lemma_taken_over(live, snapshot, segments, known);
    if let Ok(done) = publish::snapshot_goal(
        live,
        snapshot,
        segments,
        known,
        input,
        now,
        revision,
    ) {
        let documents = done.state.graph_documents;
        let detail = publish::snapshot_detail(input, documents, revision);
        let op = done.store.operations.last();
        assert(op.detail == detail && op.action == "changeset_rollback"@ && op.target
            == input.history.id);
        lemma_newest(done.store, op);
        lemma_rollback_keys();
        let entries = detail->Object_0;
        lemma_lookup_at(entries, 1);
        lemma_lookup_at(entries, 4);
        lemma_lookup_at(entries, 5);
        lemma_documents_back(entries, documents);
    }
}

proof fn lemma_rollback_keys()
    ensures
        "committed_post_revision"@.len() == 23,
        "graph_documents"@.len() == 15,
        "name"@.len() == 4,
        "pre_commit_checkpoint"@.len() == 21,
        "pre_rollback_checkpoint"@.len() == 23,
        "pre_rollback_checkpoint"@[0] == 'p',
        "committed_post_revision"@[0] == 'c',
        "rollback_revision"@.len() == 17,
        "storage"@.len() == 7,
{
    reveal_strlit("committed_post_revision");
    reveal_strlit("graph_documents");
    reveal_strlit("name");
    reveal_strlit("pre_commit_checkpoint");
    reveal_strlit("pre_rollback_checkpoint");
    reveal_strlit("rollback_revision");
    reveal_strlit("storage");
}

/// Documents in the details of an operation are read back as they were written.
proof fn lemma_documents_back(
    entries: Seq<json::EntryView>,
    documents: Seq<PairView>,
)
    requires
        json::lookup(entries, "graph_documents"@) == Some(changeset_log::documents_json(documents)),
    ensures
        changeset_log::documents_of(JsonView::Object(entries)) == Ok::<
            Seq<PairView>,
            AppErrorView,
        >(documents),
{
    let none = Seq::<RemapView>::empty();
    reveal_strlit("source_id_remap");
    reveal_strlit("graph_documents");
    assert("source_id_remap"@[0] == 's' && "graph_documents"@[0] == 'g');
    let more = seq![json::entry("source_id_remap"@, changeset_log::remaps_json(none))] + entries;
    assert(more.drop_first() =~= entries);
    assert(more[0].key == "source_id_remap"@);
    changeset_log::law_commit_details_read_back(more, none, documents);
}

/// A page is as it was before a changeset; its lists are in ascending order.
pub open spec fn page_is_back(pages: Map<Seq<char>, PageView>, item: PageInverseView) -> bool {
    match item.before {
        Some(page) => {
            &&& pages.dom().contains(item.slug)
            &&& pages[item.slug] == refusals::page_kept(page)
            &&& refusals::well_kept(page) ==> pages[item.slug] == page
        },
        None => !pages.dom().contains(item.slug),
    }
}

/// A tag is as it was before a changeset.
pub open spec fn tag_is_back(tags: Map<Seq<char>, TagView>, item: TagInverseView) -> bool {
    match item.before.policy {
        Some(policy) => tags.dom().contains(item.name) && tags[item.name] == (TagView {
            policy,
            members: item.before.memberships,
        }),
        None => !tags.dom().contains(item.name),
    }
}

/// Observations in ascending order of their revisions.
pub open spec fn rises(log: Seq<PathRevisionView>) -> bool {
    forall|i: int, j: int| 0 <= i < j < log.len() ==> log[i].revision < log[j].revision
}

/// A tracked path is as it was before a changeset.
pub open spec fn path_is_back(store: StoreView, item: TrackedPathInverseView) -> bool {
    rises(item.before) ==> sources::path_log(store.paths, item.tracked_path) == item.before
}

proof fn lemma_page_step(
    store: StoreView,
    item: PageInverseView,
    segments: SegmentsView,
    now: Seq<char>,
    revision: Seq<char>,
)
    ensures
        sparse_rollback::page_restored(store, item, segments, now, revision) matches Ok(next) ==> {
            &&& page_is_back(next.pages, item)
            &&& next.pages.remove(item.slug) == store.pages.remove(item.slug)
            &&& forall|key: Seq<char>| #[trigger]
                store.meta.dom().contains(key) ==> next.meta.dom().contains(key)
            &&& next.sources == store.sources
            &&& next.changesets == store.changesets
        },
{
    reveal(sparse_rollback::page_restored);
    if let Some(page) = item.before {
        if refusals::well_kept(page) {
            refusals::lemma_well_kept(page);
        }
    }
    if let Ok(next) = sparse_rollback::page_restored(store, item, segments, now, revision) {
        assert(next.pages.remove(item.slug) =~= store.pages.remove(item.slug));
    }
}

proof fn lemma_pages_back(
    store: StoreView,
    items: Seq<PageInverseView>,
    segments: SegmentsView,
    now: Seq<char>,
    revision: Seq<char>,
    count: nat,
)
    requires
        count <= items.len(),
        forall|i: int, j: int| 0 <= i < j < items.len() ==> items[i].slug != items[j].slug,
    ensures
        sparse_rollback::pages_restored(store, items, segments, now, revision, count) matches Ok(
            next,
        ) ==> {
            &&& forall|k: int| 0 <= k < count ==> page_is_back(next.pages, #[trigger] items[k])
            &&& forall|slug: Seq<char>|
                (forall|k: int| 0 <= k < count ==> (#[trigger] items[k]).slug != slug) ==> {
                    &&& next.pages.dom().contains(slug) == #[trigger] store.pages.dom().contains(
                        slug,
                    )
                    &&& store.pages.dom().contains(slug) ==> next.pages[slug] == store.pages[slug]
                }
            &&& forall|key: Seq<char>| #[trigger]
                store.meta.dom().contains(key) ==> next.meta.dom().contains(key)
            &&& next.sources == store.sources
            &&& next.changesets == store.changesets
        },
    decreases count,
{
    if count > 0 {
        lemma_pages_back(store, items, segments, now, revision, (count - 1) as nat);
        if let Ok(so_far) = sparse_rollback::pages_restored(
            store,
            items,
            segments,
            now,
            revision,
            (count - 1) as nat,
        ) {
            let last = items[count - 1];
            lemma_page_step(so_far, last, segments, now, revision);
            if let Ok(next) = sparse_rollback::page_restored(so_far, last, segments, now, revision) {
                assert forall|slug: Seq<char>| slug != last.slug implies {
                    &&& next.pages.dom().contains(slug) == #[trigger] so_far.pages.dom().contains(
                        slug,
                    )
                    &&& so_far.pages.dom().contains(slug) ==> next.pages[slug]
                        == so_far.pages[slug]
                } by {
                    assert(next.pages.remove(last.slug).dom().contains(slug)
                        == so_far.pages.remove(last.slug).dom().contains(slug));
                    if so_far.pages.dom().contains(slug) {
                        assert(next.pages.remove(last.slug)[slug] == so_far.pages.remove(
                            last.slug,
                        )[slug]);
                    }
                }
                assert forall|k: int| 0 <= k < count implies page_is_back(
                    next.pages,
                    #[trigger] items[k],
                ) by {
                    if k < count - 1 {
                        assert(page_is_back(so_far.pages, items[k]));
                        assert(items[k].slug != last.slug);
                        assert(next.pages.dom().contains(items[k].slug)
                            == so_far.pages.dom().contains(items[k].slug));
                    }
                }
                assert forall|slug: Seq<char>|
                    (forall|k: int| 0 <= k < count ==> (#[trigger] items[k]).slug != slug)
                        implies {
                    &&& next.pages.dom().contains(slug) == #[trigger] store.pages.dom().contains(
                        slug,
                    )
                    &&& store.pages.dom().contains(slug) ==> next.pages[slug] == store.pages[slug]
                } by {
                    assert(items[count - 1].slug != slug);
                    assert(so_far.pages.dom().contains(slug) == store.pages.dom().contains(slug));
                }
            }
        }
    }
}

proof fn lemma_unlinked_keeps(store: StoreView, items: Seq<PageInverseView>, count: nat)
    requires
        count <= items.len(),
    ensures
        sparse_rollback::all_unlinked(store, items, count) matches Ok(next) ==> {
            &&& forall|slug: Seq<char>|
                (forall|k: int| 0 <= k < count ==> (#[trigger] items[k]).slug != slug) ==> {
                    &&& next.pages.dom().contains(slug) == #[trigger] store.pages.dom().contains(
                        slug,
                    )
                    &&& store.pages.dom().contains(slug) ==> next.pages[slug] == store.pages[slug]
                }
            &&& forall|key: Seq<char>| #[trigger]
                store.meta.dom().contains(key) ==> next.meta.dom().contains(key)
            &&& next.sources == store.sources
            &&& next.changesets == store.changesets
        },
    decreases count,
{
    if count > 0 {
        lemma_unlinked_keeps(store, items, (count - 1) as nat);
        if let Ok(so_far) = sparse_rollback::all_unlinked(store, items, (count - 1) as nat) {
            if let Ok(next) = sparse_rollback::all_unlinked(store, items, count) {
                assert forall|slug: Seq<char>|
                    (forall|k: int| 0 <= k < count ==> (#[trigger] items[k]).slug != slug)
                        implies {
                    &&& next.pages.dom().contains(slug) == #[trigger] store.pages.dom().contains(
                        slug,
                    )
                    &&& store.pages.dom().contains(slug) ==> next.pages[slug] == store.pages[slug]
                } by {
                    assert(items[count - 1].slug != slug);
                    assert(so_far.pages.dom().contains(slug) == store.pages.dom().contains(slug));
                }
            }
        }
    }
}

proof fn lemma_tags_back(
    store: StoreView,
    items: Seq<TagInverseView>,
    now: Seq<char>,
    revision: Seq<char>,
    count: nat,
)
    requires
        count <= items.len(),
        forall|i: int, j: int| 0 <= i < j < items.len() ==> items[i].name != items[j].name,
    ensures
        sparse_rollback::tags_restored(store, items, now, revision, count) matches Ok(next) ==> {
            &&& forall|k: int| 0 <= k < count ==> tag_is_back(next.tags, #[trigger] items[k])
            &&& next.pages == store.pages
            &&& forall|key: Seq<char>| #[trigger]
                store.meta.dom().contains(key) ==> next.meta.dom().contains(key)
            &&& next.sources == store.sources
            &&& next.changesets == store.changesets
        },
    decreases count,
{
    if count > 0 {
        lemma_tags_back(store, items, now, revision, (count - 1) as nat);
        if let Ok(so_far) = sparse_rollback::tags_restored(
            store,
            items,
            now,
            revision,
            (count - 1) as nat,
        ) {
            reveal(sparse_rollback::tag_restored);
            if let Ok(next) = sparse_rollback::tags_restored(store, items, now, revision, count) {
                assert forall|k: int| 0 <= k < count implies tag_is_back(
                    next.tags,
                    #[trigger] items[k],
                ) by {
                    if k < count - 1 {
                        assert(tag_is_back(so_far.tags, items[k]));
                        assert(items[k].name != items[count - 1].name);
                    }
                }
            }
        }
    }
}

proof fn lemma_metas_back(
    store: StoreView,
    items: Seq<MetaInverseView>,
    now: Seq<char>,
    revision: Seq<char>,
    count: nat,
)
    requires
        count <= items.len(),
        forall|i: int, j: int| 0 <= i < j < items.len() ==> items[i].key != items[j].key,
        forall|i: int| 0 <= i < items.len() ==> (#[trigger] items[i]).key != "store_revision"@,
    ensures
        sparse_rollback::metas_restored(store, items, now, revision, count) matches Ok(next) ==> {
            &&& forall|k: int|
                0 <= k < count && store.meta.dom().contains((#[trigger] items[k]).key)
                    ==> next.meta.dom().contains(items[k].key) && next.meta[items[k].key]
                    == items[k].before
            &&& forall|key: Seq<char>| #[trigger]
                store.meta.dom().contains(key) ==> next.meta.dom().contains(key)
            &&& next.pages == store.pages
            &&& next.tags == store.tags
            &&& next.sources == store.sources
            &&& next.changesets == store.changesets
        },
    decreases count,
{
    if count > 0 {
        lemma_metas_back(store, items, now, revision, (count - 1) as nat);
        if let Ok(so_far) = sparse_rollback::metas_restored(
            store,
            items,
            now,
            revision,
            (count - 1) as nat,
        ) {
            reveal(sparse_rollback::meta_restored);
            if let Ok(next) = sparse_rollback::metas_restored(store, items, now, revision, count) {
                assert(items[count - 1].key != "store_revision"@);
                assert forall|k: int|
                    0 <= k < count && store.meta.dom().contains((#[trigger] items[k]).key)
                        implies next.meta.dom().contains(items[k].key) && next.meta[items[k].key]
                    == items[k].before by {
                    assert(so_far.meta.dom().contains(items[k].key));
                    if k < count - 1 {
                        assert(items[k].key != items[count - 1].key);
                        assert(items[k].key != "store_revision"@);
                    }
                }
            }
        }
    }
}

/// The source that an entry of the inverse is about in this store, if any.
pub open spec fn source_target(item: SourceInverseView, remaps: Seq<RemapView>) -> Option<i64> {
    match item.before {
        Some(snapshot) => Some(snapshot.id),
        None => if sparse_rollback::first_known(remaps, item.source_id) {
            None
        } else {
            match sparse_merge::remap_of(remaps, item.source_id) {
                Some(remap) => Some(remap.live_id),
                None => Some(item.source_id),
            }
        },
    }
}

/// A source is as it was before a changeset: one that came with it is gone.
pub open spec fn source_is_back(
    sources: Map<i64, SourceView>,
    item: SourceInverseView,
    remaps: Seq<RemapView>,
) -> bool {
    match item.before {
        Some(snapshot) => sources.dom().contains(snapshot.id) && sources[snapshot.id]
            == snapshot.source,
        None => source_target(item, remaps) is Some ==> !sources.dom().contains(
            source_target(item, remaps)->0,
        ),
    }
}

proof fn lemma_observations_keep(
    store: StoreView,
    items: Seq<SourcePathView>,
    id: i64,
    count: nat,
)
    requires
        count <= items.len(),
    ensures
        sparse_rollback::observations_entered(store, items, id, count) matches Ok(next) ==> next == (
        StoreView { paths: next.paths, ..store }),
    decreases count,
{
    if count > 0 {
        lemma_observations_keep(store, items, id, (count - 1) as nat);
    }
}

proof fn lemma_source_step(
    store: StoreView,
    item: SourceInverseView,
    remaps: Seq<RemapView>,
    segments: SegmentsView,
    now: Seq<char>,
    revision: Seq<char>,
)
    ensures
        sparse_rollback::source_restored(store, item, remaps, segments, now, revision) matches Ok(
            next,
        ) ==> {
            &&& source_is_back(next.sources, item, remaps)
            &&& next.pages == store.pages
            &&& next.tags == store.tags
            &&& next.changesets == store.changesets
            &&& next.meta == store.meta || next.meta == store.meta.insert("store_revision"@, revision)
            &&& forall|id: i64|
                source_target(item, remaps) != Some(id) ==> {
                    &&& next.sources.dom().contains(id) == #[trigger] store.sources.dom().contains(
                        id,
                    )
                    &&& store.sources.dom().contains(id) ==> next.sources[id] == store.sources[id]
                }
        },
{
    reveal(sparse_rollback::source_restored);
    if let Some(snapshot) = item.before {
        let id = snapshot.id;
        let bare = StoreView {
            sources: store.sources.insert(id, snapshot.source),
            source_sequence: if id > store.source_sequence {
                id
            } else {
                store.source_sequence
            },
            ingest_jobs: store.ingest_jobs.insert(id, snapshot.ingest),
            paths: sparse_rollback::paths_without(store.paths, id),
            ..store
        };
        lemma_observations_keep(bare, snapshot.paths, id, snapshot.paths.len());
    }
}

proof fn lemma_sources_back(
    store: StoreView,
    items: Seq<SourceInverseView>,
    remaps: Seq<RemapView>,
    segments: SegmentsView,
    now: Seq<char>,
    revision: Seq<char>,
    count: nat,
)
    requires
        count <= items.len(),
        forall|i: int, j: int|
            0 <= i < j < items.len() && source_target(items[i], remaps) is Some
                ==> source_target(items[i], remaps) != source_target(items[j], remaps),
    ensures
        sparse_rollback::sources_restored(
            store,
            items,
            remaps,
            segments,
            now,
            revision,
            count,
        ) matches Ok(next) ==> {
            &&& forall|k: int|
                0 <= k < count ==> source_is_back(next.sources, #[trigger] items[k], remaps)
            &&& next.pages == store.pages
            &&& next.tags == store.tags
            &&& next.changesets == store.changesets
            &&& forall|key: Seq<char>|
                key != "store_revision"@ ==> (next.meta.dom().contains(key)
                    == #[trigger] store.meta.dom().contains(key)) && (store.meta.dom().contains(key)
                    ==> next.meta[key] == store.meta[key])
        },
    decreases count,
{
    if count > 0 {
        lemma_sources_back(store, items, remaps, segments, now, revision, (count - 1) as nat);
        if let Ok(so_far) = sparse_rollback::sources_restored(
            store,
            items,
            remaps,
            segments,
            now,
            revision,
            (count - 1) as nat,
        ) {
            let last = items[count - 1];
            lemma_source_step(so_far, last, remaps, segments, now, revision);
            if let Ok(next) = sparse_rollback::source_restored(
                so_far,
                last,
                remaps,
                segments,
                now,
                revision,
            ) {
                assert forall|k: int| 0 <= k < count implies source_is_back(
                    next.sources,
                    #[trigger] items[k],
                    remaps,
                ) by {
                    if k < count - 1 {
                        assert(source_is_back(so_far.sources, items[k], remaps));
                        if let Some(id) = source_target(items[k], remaps) {
                            assert(source_target(items[k], remaps) != source_target(last, remaps));
                            assert(next.sources.dom().contains(id) == so_far.sources.dom().contains(
                                id,
                            ));
                        }
                    }
                }
                assert forall|key: Seq<char>| key != "store_revision"@ implies (
                next.meta.dom().contains(key) == #[trigger] store.meta.dom().contains(key)) && (
                store.meta.dom().contains(key) ==> next.meta[key] == store.meta[key]) by {
                    assert(so_far.meta.dom().contains(key) == store.meta.dom().contains(key));
                }
            }
        }
    }
}

proof fn lemma_path_steps(
    store: StoreView,
    path: Seq<char>,
    log: Seq<PathRevisionView>,
    count: nat,
)
    requires
        count <= log.len(),
    ensures
        sparse_rollback::path_steps_entered(store, path, log, count) matches Ok(next) ==> {
            &&& next == (StoreView { paths: next.paths, ..store })
            &&& next.paths.remove(path) == store.paths.remove(path)
            &&& rises(log) ==> sources::path_log(next.paths, path) == log.take(count as int)
        },
    decreases count,
{
    if count > 0 {
        lemma_path_steps(store, path, log, (count - 1) as nat);
        if let Ok(so_far) = sparse_rollback::path_steps_entered(
            store,
            path,
            log,
            (count - 1) as nat,
        ) {
            let step = log[count - 1];
            let held = sources::path_log(so_far.paths, path);
            if let Ok(next) = sparse_rollback::path_steps_entered(store, path, log, count) {
                assert(next.paths.remove(path) =~= so_far.paths.remove(path));
                if rises(log) {
                    sparse_rollback::lemma_place_at_end(held, step.revision);
                    assert(sources::path_log(next.paths, path) =~= log.take(count as int));
                }
            }
        }
    } else {
        assert(store.paths.remove(path).remove(path) =~= store.paths.remove(path));
        assert(log.take(0) =~= Seq::empty());
    }
}

proof fn lemma_paths_back(store: StoreView, items: Seq<TrackedPathInverseView>, count: nat)
    requires
        count <= items.len(),
        forall|i: int, j: int|
            0 <= i < j < items.len() ==> items[i].tracked_path != items[j].tracked_path,
    ensures
        sparse_rollback::paths_restored(store, items, count) matches Ok(next) ==> {
            &&& forall|k: int| 0 <= k < count ==> path_is_back(next, #[trigger] items[k])
            &&& next == (StoreView { paths: next.paths, ..store })
        },
    decreases count,
{
    if count > 0 {
        lemma_paths_back(store, items, (count - 1) as nat);
        if let Ok(so_far) = sparse_rollback::paths_restored(store, items, (count - 1) as nat) {
            let last = items[count - 1];
            lemma_path_steps(so_far, last.tracked_path, last.before, last.before.len());
            assert(last.before.take(last.before.len() as int) =~= last.before);
            if let Ok(next) = sparse_rollback::paths_restored(store, items, count) {
                assert forall|k: int| 0 <= k < count implies path_is_back(
                    next,
                    #[trigger] items[k],
                ) by {
                    if k < count - 1 {
                        assert(path_is_back(so_far, items[k]));
                        let path = items[k].tracked_path;
                        assert(path != last.tracked_path);
                        assert(next.paths.remove(last.tracked_path).dom().contains(path)
                            == so_far.paths.remove(last.tracked_path).dom().contains(path));
                        if so_far.paths.dom().contains(path) {
                            assert(next.paths.remove(last.tracked_path)[path]
                                == so_far.paths.remove(last.tracked_path)[path]);
                        }
                    }
                }
            }
        }
    }
}

/// An inverse patch that names everything once, as one that was made of a draft does.
pub open spec fn names_once(inverse: InverseView, remaps: Seq<RemapView>) -> bool {
    &&& forall|i: int, j: int|
        0 <= i < j < inverse.pages.len() ==> inverse.pages[i].slug != inverse.pages[j].slug
    &&& forall|i: int, j: int|
        0 <= i < j < inverse.tags.len() ==> inverse.tags[i].name != inverse.tags[j].name
    &&& forall|i: int, j: int|
        0 <= i < j < inverse.meta.len() ==> inverse.meta[i].key != inverse.meta[j].key
    &&& forall|i: int|
        0 <= i < inverse.meta.len() ==> (#[trigger] inverse.meta[i]).key != "store_revision"@
    &&& forall|i: int, j: int|
        0 <= i < j < inverse.source_paths.len() ==> inverse.source_paths[i].tracked_path
            != inverse.source_paths[j].tracked_path
    &&& forall|i: int, j: int|
        0 <= i < j < inverse.sources.len() && source_target(inverse.sources[i], remaps) is Some
            ==> source_target(inverse.sources[i], remaps) != source_target(
            inverse.sources[j],
            remaps,
        )
}

/// A sparse changeset that is taken back leaves everything that it touched as it was before:
/// its pages, tags, metadata, sources and tracked paths. Pages that it did not touch stay as
/// they are, and it is found in the history as taken back.
pub proof fn law_sparse_changeset_is_undone(
    store: StoreView,
    inverse: InverseView,
    input: RollbackInputView,
    segments: SegmentsView,
    now: Seq<char>,
    revision: Seq<char>,
)
    requires
        changeset_log::committed_remaps(store, input.history.id) matches Ok(remaps) ==> names_once(
            inverse,
            remaps,
        ),
    ensures
        sparse_rollback::rollback_goal(store, inverse, input, segments, now, revision) matches Ok(
            done,
        ) ==> {
            let remaps = changeset_log::committed_remaps(store, input.history.id)->Ok_0;
            &&& forall|k: int|
                0 <= k < inverse.pages.len() ==> page_is_back(
                    done.store.pages,
                    #[trigger] inverse.pages[k],
                )
            &&& forall|k: int|
                0 <= k < inverse.tags.len() ==> tag_is_back(
                    done.store.tags,
                    #[trigger] inverse.tags[k],
                )
            &&& forall|k: int|
                0 <= k < inverse.sources.len() ==> source_is_back(
                    done.store.sources,
                    #[trigger] inverse.sources[k],
                    remaps,
                )
            &&& forall|k: int|
                0 <= k < inverse.source_paths.len() ==> path_is_back(
                    done.store,
                    #[trigger] inverse.source_paths[k],
                )
            &&& forall|slug: Seq<char>|
                (forall|k: int|
                    0 <= k < inverse.pages.len() ==> (#[trigger] inverse.pages[k]).slug != slug)
                    ==> {
                    &&& done.store.pages.dom().contains(slug)
                        == #[trigger] store.pages.dom().contains(slug)
                    &&& store.pages.dom().contains(slug) ==> done.store.pages[slug]
                        == store.pages[slug]
                }
            &&& forall|k: int|
                0 <= k < inverse.meta.len() && store.meta.dom().contains(
                    (#[trigger] inverse.meta[k]).key,
                ) ==> done.store.meta.dom().contains(inverse.meta[k].key)
                    && done.store.meta[inverse.meta[k].key] == inverse.meta[k].before
            &&& changeset_log::rolled_back(done.store, input.history.id) matches Ok(Some(found))
            &&& found.rollback_revision == revision
            &&& found.checkpoint == input.pre_rollback_checkpoint
            &&& found.graph_documents == done.state.graph_documents
        },
{
    if let Ok(done) = sparse_rollback::rollback_goal(
        store,
        inverse,
        input,
        segments,
        now,
        revision,
    ) {
        let remaps = changeset_log::committed_remaps(store, input.history.id)->Ok_0;
        lemma_all_back(store, inverse, remaps, segments, now, revision);
        let restored = sparse_rollback::all_restored(
            store,
            inverse,
            remaps,
            segments,
            now,
            revision,
        )->Ok_0;
        let documents = done.state.graph_documents;
        let detail = sparse_rollback::rollback_detail(input, documents, revision);
        let op = done.store.operations.last();
        assert(op.detail == detail && op.action == "changeset_rollback"@ && op.target
            == input.history.id);
        lemma_newest(done.store, op);
        lemma_rollback_keys();
        let entries = detail->Object_0;
        lemma_lookup_at(entries, 1);
        lemma_lookup_at(entries, 4);
        lemma_lookup_at(entries, 5);
        lemma_documents_back(entries, documents);
        assert forall|k: int| 0 <= k < inverse.source_paths.len() implies path_is_back(
            done.store,
            #[trigger] inverse.source_paths[k],
        ) by {
            assert(path_is_back(restored, inverse.source_paths[k]));
        }
    }
}

proof fn lemma_all_back(
    store: StoreView,
    inverse: InverseView,
    remaps: Seq<RemapView>,
    segments: SegmentsView,
    now: Seq<char>,
    revision: Seq<char>,
)
    requires
        names_once(inverse, remaps),
    ensures
        sparse_rollback::all_restored(
            store,
            inverse,
            remaps,
            segments,
            now,
            revision,
        ) matches Ok(next) ==> {
            &&& forall|k: int|
                0 <= k < inverse.pages.len() ==> page_is_back(
                    next.pages,
                    #[trigger] inverse.pages[k],
                )
            &&& forall|k: int|
                0 <= k < inverse.tags.len() ==> tag_is_back(next.tags, #[trigger] inverse.tags[k])
            &&& forall|k: int|
                0 <= k < inverse.sources.len() ==> source_is_back(
                    next.sources,
                    #[trigger] inverse.sources[k],
                    remaps,
                )
            &&& forall|k: int|
                0 <= k < inverse.source_paths.len() ==> path_is_back(
                    next,
                    #[trigger] inverse.source_paths[k],
                )
            &&& forall|slug: Seq<char>|
                (forall|k: int|
                    0 <= k < inverse.pages.len() ==> (#[trigger] inverse.pages[k]).slug != slug)
                    ==> {
                    &&& next.pages.dom().contains(slug) == #[trigger] store.pages.dom().contains(
                        slug,
                    )
                    &&& store.pages.dom().contains(slug) ==> next.pages[slug] == store.pages[slug]
                }
            &&& forall|k: int|
                0 <= k < inverse.meta.len() && store.meta.dom().contains(
                    (#[trigger] inverse.meta[k]).key,
                ) ==> next.meta.dom().contains(inverse.meta[k].key)
                    && next.meta[inverse.meta[k].key] == inverse.meta[k].before
            &&& next.changesets == store.changesets
        },
{
    let n = inverse.pages.len();
    lemma_unlinked_keeps(store, inverse.pages, n);
    if let Ok(a) = sparse_rollback::all_unlinked(store, inverse.pages, n) {
        lemma_pages_back(a, inverse.pages, segments, now, revision, n);
        if let Ok(b) = sparse_rollback::pages_restored(
            a,
            inverse.pages,
            segments,
            now,
            revision,
            n,
        ) {
            lemma_tags_back(b, inverse.tags, now, revision, inverse.tags.len());
            if let Ok(c) = sparse_rollback::tags_restored(
                b,
                inverse.tags,
                now,
                revision,
                inverse.tags.len(),
            ) {
                lemma_metas_back(c, inverse.meta, now, revision, inverse.meta.len());
                if let Ok(d) = sparse_rollback::metas_restored(
                    c,
                    inverse.meta,
                    now,
                    revision,
                    inverse.meta.len(),
                ) {
                    lemma_sources_back(
                        d,
                        inverse.sources,
                        remaps,
                        segments,
                        now,
                        revision,
                        inverse.sources.len(),
                    );
                    if let Ok(f) = sparse_rollback::sources_restored(
                        d,
                        inverse.sources,
                        remaps,
                        segments,
                        now,
                        revision,
                        inverse.sources.len(),
                    ) {
                        lemma_paths_back(f, inverse.source_paths, inverse.source_paths.len());
                    }
                }
                assert forall|slug: Seq<char>|
                    (forall|k: int| 0 <= k < n ==> (#[trigger] inverse.pages[k]).slug != slug)
                        implies {
                    &&& b.pages.dom().contains(slug) == #[trigger] store.pages.dom().contains(slug)
                    &&& store.pages.dom().contains(slug) ==> b.pages[slug] == store.pages[slug]
                } by {
                    assert(a.pages.dom().contains(slug) == store.pages.dom().contains(slug));
                }
            }
        }
    }
}

/// A store is the live one of a Wiki.
pub open spec fn is_wiki(store: StoreView, store_id: Seq<char>) -> bool {
    store::live_identity(store) matches Ok(identity) && identity.store_id == store_id
}

/// What a rollback leaves in the history.
pub open spec fn is_noted(
    done: sparse_rollback::RolledBackView,
    input: RollbackInputView,
    revision: Seq<char>,
) -> bool {
    &&& done.state.rollback_revision == revision
    &&& done.state.checkpoint == input.pre_rollback_checkpoint
    &&& done.store.changesets.dom().contains(input.history.id)
    &&& done.store.changesets[input.history.id].status == "rolled_back"@
    &&& changeset_log::rolled_back(done.store, input.history.id) == Ok::<
        Option<RollbackView>,
        AppErrorView,
    >(
        Some(
            RollbackView { name: done.store.changesets[input.history.id].name, ..done.state },
        ),
    )
}

proof fn lemma_noted(
    done: sparse_rollback::RolledBackView,
    input: RollbackInputView,
    revision: Seq<char>,
    detail: JsonView,
)
    requires
        done.state.changeset_id == input.history.id,
        done.state.rollback_revision == revision,
        done.state.checkpoint == input.pre_rollback_checkpoint,
        done.store.changesets.dom().contains(input.history.id),
        done.store.changesets[input.history.id].status == "rolled_back"@,
        done.store.operations.len() > 0,
        done.store.operations.last().action == "changeset_rollback"@,
        done.store.operations.last().target == input.history.id,
        done.store.operations.last().detail == detail,
        detail == sparse_rollback::rollback_detail(input, done.state.graph_documents, revision)
            || detail == publish::snapshot_detail(input, done.state.graph_documents, revision),
    ensures
        is_noted(done, input, revision),
{
    lemma_newest(done.store, done.store.operations.last());
    lemma_rollback_keys();
    let told = detail->Object_0;
    lemma_lookup_at(told, 1);
    lemma_lookup_at(told, 4);
    lemma_lookup_at(told, 5);
    lemma_documents_back(told, done.state.graph_documents);
}

proof fn lemma_rollback_noted(
    store: StoreView,
    file: CheckpointFileView,
    known: Set<PairView>,
    input: RollbackInputView,
    segments: SegmentsView,
    now: Seq<char>,
    revision: Seq<char>,
)
    ensures
        checkpoints::changeset_rollback_goal(
            store,
            file,
            known,
            input,
            segments,
            now,
            revision,
        ) matches Ok(done) ==> is_noted(done, input, revision),
{
    if let Ok(done) = checkpoints::changeset_rollback_goal(
        store,
        file,
        known,
        input,
        segments,
        now,
        revision,
    ) {
        let documents = done.state.graph_documents;
        if let CheckpointFileView::Inverse(inverse) = file {
            let remaps = changeset_log::committed_remaps(store, input.history.id)->Ok_0;
            history::lemma_restore_keeps_history(store, inverse, remaps, segments, now, revision);
            lemma_noted(
                done,
                input,
                revision,
                sparse_rollback::rollback_detail(input, documents, revision),
            );
        } else {
            lemma_noted(
                done,
                input,
                revision,
                publish::snapshot_detail(input, documents, revision),
            );
        }
    }
}

proof fn lemma_not_again(
    store: StoreView,
    file: CheckpointFileView,
    known: Set<PairView>,
    input: RollbackInputView,
    segments: SegmentsView,
    now: Seq<char>,
    revision: Seq<char>,
)
    requires
        store.changesets.dom().contains(input.history.id),
        store.changesets[input.history.id].status == "rolled_back"@,
    ensures
        checkpoints::changeset_rollback_goal(
            store,
            file,
            known,
            input,
            segments,
            now,
            revision,
        ) is Err,
        is_wiki(store, input.store_id) && checkpoints::validated(
            input.history,
            input.store_id,
            file,
        ) is Ok && input.history.post_revision is Some ==> {
            &&& checkpoints::changeset_rollback_goal(
                store,
                file,
                known,
                input,
                segments,
                now,
                revision,
            ) matches Err(e)
            &&& e.code == ErrorCode::ChangesetRollbackConflict
        },
{
    reveal_strlit("rolled_back");
    reveal_strlit("committed");
    assert("rolled_back"@.len() == 11 && "committed"@.len() == 9);
    assert(!sparse_rollback::is_committed_as(store, input.history));
    if let CheckpointFileView::Inverse(inverse) = file {
        assert(sparse_rollback::rollback_refusal(store, inverse, input) is Some);
    }
    if let CheckpointFileView::Snapshot(snapshot) = file {
        assert(publish::snapshot_refusal(store, snapshot, input) is Some);
    }
}

/// A changeset that was taken back is found in the history as it was taken back: the revision
/// that this made, the checkpoint from before it, and the documents that changed. Its name is
/// the one that the store knows it by. It cannot be taken back once more, whatever is found
/// where its checkpoint was; with the same request, the history is in the way.
pub proof fn law_rollback_is_final(
    store: StoreView,
    file: CheckpointFileView,
    known: Set<PairView>,
    input: RollbackInputView,
    segments: SegmentsView,
    now: Seq<char>,
    revision: Seq<char>,
    other_file: CheckpointFileView,
    other: RollbackInputView,
    later: Seq<char>,
    next_revision: Seq<char>,
)
    requires
        other.history.id == input.history.id,
    ensures
        checkpoints::changeset_rollback_goal(
            store,
            file,
            known,
            input,
            segments,
            now,
            revision,
        ) matches Ok(done) ==> {
            &&& is_noted(done, input, revision)
            &&& checkpoints::changeset_rollback_goal(
                done.store,
                other_file,
                known,
                other,
                segments,
                later,
                next_revision,
            ) is Err
            &&& is_wiki(done.store, input.store_id) ==> {
                &&& checkpoints::changeset_rollback_goal(
                    done.store,
                    file,
                    known,
                    input,
                    segments,
                    later,
                    next_revision,
                ) matches Err(e)
                &&& e.code == ErrorCode::ChangesetRollbackConflict
            }
        },
{
    lemma_rollback_noted(store, file, known, input, segments, now, revision);
    if let Ok(done) = checkpoints::changeset_rollback_goal(
        store,
        file,
        known,
        input,
        segments,
        now,
        revision,
    ) {
        lemma_not_again(done.store, other_file, known, other, segments, later, next_revision);
        lemma_not_again(done.store, file, known, input, segments, later, next_revision);
    }
}

/// A changeset can only be taken back while everything that it changed is as it left it: a
/// page with another content stands in its way.
pub proof fn law_later_changes_are_kept(
    store: StoreView,
    inverse: InverseView,
    input: RollbackInputView,
    segments: SegmentsView,
    now: Seq<char>,
    revision: Seq<char>,
)
    ensures
        changeset_log::committed_remaps(store, input.history.id) matches Ok(remaps)
            && sparse_rollback::obstacle(
            store,
            inverse,
            remaps,
            sparse_rollback::moved_ids(remaps, remaps.len()),
        ) is Some ==> sparse_rollback::rollback_goal(
            store,
            inverse,
            input,
            segments,
            now,
            revision,
        ) is Err,
{
}

proof fn lemma_pages_remembered(live: StoreView, items: Seq<PairView>, draft: StoreView, count: nat)
    requires
        count <= items.len(),
    ensures
        sparse_inverse::page_inverses(live, items, draft, count) matches Ok(list) ==> {
            &&& list.len() == count
            &&& forall|k: int|
                0 <= k < count ==> (#[trigger] list[k]).slug == items[k].first && list[k].before
                    == sparse_inverse::page_of(live, items[k].first)
        },
    decreases count,
{
    if count > 0 {
        lemma_pages_remembered(live, items, draft, (count - 1) as nat);
    }
}

proof fn lemma_meta_remembered(live: StoreView, items: Seq<PairView>, draft: StoreView, count: nat)
    requires
        count <= items.len(),
    ensures
        sparse_inverse::meta_inverses(live, items, draft, count) matches Ok(list) ==> {
            &&& list.len() == count
            &&& forall|k: int|
                0 <= k < count ==> (#[trigger] list[k]).key == items[k].first
                    && store::meta_value(live, items[k].first) == Some(list[k].before)
        },
    decreases count,
{
    if count > 0 {
        lemma_meta_remembered(live, items, draft, (count - 1) as nat);
    }
}

proof fn lemma_tags_remembered(live: StoreView, items: Seq<PairView>, draft: StoreView, count: nat)
    requires
        count <= items.len(),
    ensures
        sparse_inverse::tag_inverses(live, items, draft, count) matches Ok(list) ==> {
            &&& list.len() == count
            &&& forall|k: int|
                0 <= k < count ==> (#[trigger] list[k]).name == items[k].first && list[k].before
                    == staging::tag_snapshot(live, items[k].first)
        },
    decreases count,
{
    if count > 0 {
        lemma_tags_remembered(live, items, draft, (count - 1) as nat);
    }
}

proof fn lemma_paths_remembered(
    live: StoreView,
    items: Seq<Seq<char>>,
    draft: StoreView,
    count: nat,
)
    requires
        count <= items.len(),
    ensures
        sparse_inverse::tracked_path_inverses(live, items, draft, count) matches Ok(list) ==> {
            &&& list.len() == count
            &&& forall|k: int|
                0 <= k < count ==> (#[trigger] list[k]).tracked_path == items[k] && list[k].before
                    == sources::path_log(live.paths, items[k])
        },
    decreases count,
{
    if count > 0 {
        lemma_paths_remembered(live, items, draft, (count - 1) as nat);
    }
}

/// The patch that takes a draft back remembers everything that the draft touched as it is in
/// the live store: its pages, its metadata, its tags and its tracked paths.
pub proof fn law_inverse_remembers(live: StoreView, draft: StoreView, changeset_id: Seq<char>)
    ensures
        sparse_inverse::inverse_goal(live, draft, changeset_id) matches Ok(inverse) ==> {
            &&& inverse.pages.len() == touched::touched_pages(draft).len()
            &&& forall|k: int|
                0 <= k < inverse.pages.len() ==> (#[trigger] inverse.pages[k]).before
                    == sparse_inverse::page_of(live, inverse.pages[k].slug)
            &&& forall|k: int|
                0 <= k < inverse.meta.len() ==> store::meta_value(
                    live,
                    (#[trigger] inverse.meta[k]).key,
                ) == Some(inverse.meta[k].before)
            &&& forall|k: int|
                0 <= k < inverse.tags.len() ==> (#[trigger] inverse.tags[k]).before
                    == staging::tag_snapshot(live, inverse.tags[k].name)
            &&& forall|k: int|
                0 <= k < inverse.source_paths.len() ==> (#[trigger] inverse.source_paths[k]).before
                    == sources::path_log(live.paths, inverse.source_paths[k].tracked_path)
        },
{
    let slugs = touched::touched_pages(draft);
    let keys = touched::touched_meta(draft);
    let names = touched::touched_tags(draft);
    let paths = text::sorted(touched::path_targets(changesets::staged(draft)));
    lemma_pages_remembered(live, slugs, draft, slugs.len());
    lemma_meta_remembered(live, keys, draft, keys.len());
    lemma_tags_remembered(live, names, draft, names.len());
    lemma_paths_remembered(live, paths, draft, paths.len());
}

} // verus!
