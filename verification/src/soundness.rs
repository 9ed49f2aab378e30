//! What every change of a store keeps: a sound store stays sound through each step of an
//! ingest, through what is said about documents, and through publishing, taking back and
//! restoring. A frozen store is not changed by any of it.
use crate::checkpoints;
use crate::checkpoints::CheckpointFileView;
use crate::digest;
use crate::indexing;
use crate::ingest;
use crate::json;
use crate::json::JsonView;
use crate::laws;
use crate::maintenance;
use crate::pages;
use crate::publish;
use crate::publish::PublishView;
use crate::relations;
use crate::relations::StatementView;
use crate::retrieval;
use crate::rows::{IngestView, OperationView, SourceView};
use crate::sources;
use crate::spans::SegmentsView;
use crate::sparse_merge;
use crate::sparse_merge::{MergedSourcesView, PlacedView, RemapView};
use crate::sparse_rollback;
use crate::sparse_rollback::RollbackInputView;
use crate::store;
use crate::store::StoreView;
use crate::table;
use crate::table::{Pair, PairView};
use crate::text;
use crate::touched;
use vstd::prelude::*;

verus! {

// ---------------------------------------------------------------------------
// Ingests, weights, feedback, relations and metadata
// ---------------------------------------------------------------------------

/// What a change that only says something about documents keeps: the store is sound, and its
/// pages and sources are what they were.
pub open spec fn content_kept(before: StoreView, after: StoreView) -> bool {
    &&& laws::sound(after)
    &&& after.pages == before.pages
    &&& after.sources == before.sources
}

proof fn lemma_job_changed(
    store: StoreView,
    id: i64,
    job: IngestView,
    action: Seq<char>,
    detail: JsonView,
    now: Seq<char>,
    revision: Seq<char>,
)
    requires
        laws::sound(store),
        store.ingest_jobs.dom().contains(id),
    ensures
        store::recorded(
            StoreView { ingest_jobs: store.ingest_jobs.insert(id, job), ..store },
            action,
            text::decimal(id as int),
            detail,
            now,
            revision,
        ) matches Ok(next) ==> content_kept(store, next),
{
    let changed = StoreView { ingest_jobs: store.ingest_jobs.insert(id, job), ..store };
    assert forall|other: i64| #[trigger] changed.ingest_jobs.dom().contains(other) implies
        changed.sources.dom().contains(other) by {
        assert(store.ingest_jobs.dom().contains(other));
    }
    assert(laws::sound(changed));
    laws::law_log_only_grows(
        changed,
        action,
        text::decimal(id as int),
        detail,
        now,
        revision,
    );
}

/// No step of an ingest touches a page or a source.
pub proof fn law_ingest_keeps_the_content(
    store: StoreView,
    id: i64,
    said: Seq<char>,
    reason: Option<Seq<char>>,
    now: Seq<char>,
    revision: Seq<char>,
)
    requires
        laws::sound(store),
    ensures
        ingest::claim_goal(store, id, now, revision) matches Ok(next) ==> content_kept(store, next),
        ingest::analyze_goal(store, id, said, now, revision) matches Ok(next) ==> content_kept(
            store,
            next,
        ),
        ingest::fail_goal(store, id, said, now, revision) matches Ok(next) ==> content_kept(
            store,
            next,
        ),
        ingest::retry_goal(store, id, now, revision) matches Ok(next) ==> content_kept(store, next),
        ingest::complete_goal(store, id, reason, now, revision) matches Ok(next) ==> content_kept(
            store,
            next,
        ),
{
    assert forall|job: IngestView, action: Seq<char>, detail: JsonView|
        store.ingest_jobs.dom().contains(id) implies (#[trigger] ingest::job_changed(
        store,
        id,
        job,
        action,
        detail,
        now,
        revision,
    ) matches Ok(next) ==> content_kept(store, next)) by {
        lemma_job_changed(store, id, job, action, detail, now, revision);
    }
}

/// Weights, feedback and relations say something about documents, and touch none; neither do
/// the schema and the purpose.
pub proof fn law_remarks_keep_the_content(
    store: StoreView,
    target_type: Seq<char>,
    identifier: Seq<char>,
    weight: i32,
    tokens: Seq<Seq<char>>,
    s: StatementView,
    reason: Seq<char>,
    provenance: Seq<char>,
    now: Seq<char>,
    revision: Seq<char>,
)
    requires
        laws::sound(store),
    ensures
        retrieval::weight_set_goal(
            store,
            target_type,
            identifier,
            weight,
            reason,
            provenance,
            now,
            revision,
        ) matches Ok(done) ==> content_kept(store, done.1),
        retrieval::weight_clear_goal(
            store,
            target_type,
            identifier,
            provenance,
            now,
            revision,
        ) matches Ok(done) ==> content_kept(store, done.1),
        retrieval::feedback_set_goal(
            store,
            target_type,
            identifier,
            tokens,
            weight,
            reason,
            provenance,
            now,
            revision,
        ) matches Ok(done) ==> content_kept(store, done.1),
        retrieval::feedback_clear_goal(
            store,
            target_type,
            identifier,
            tokens,
            provenance,
            now,
            revision,
        ) matches Ok(done) ==> content_kept(store, done.1),
        relations::stated(store, s, now, revision) matches Ok(done) ==> content_kept(
            store,
            done.store,
        ),
        store::meta_set(store, "schema_set"@, "schema"@, reason, now, revision) matches Ok(next)
            ==> content_kept(store, next),
        store::meta_set(store, "purpose_set"@, "purpose"@, reason, now, revision) matches Ok(next)
            ==> content_kept(store, next),
{
    assert forall|next: StoreView, action: Seq<char>, target: Seq<char>, detail: JsonView|
        next.pages == store.pages && next.sources == store.sources && next.source_sequence
            == store.source_sequence && next.ingest_jobs == store.ingest_jobs && next.paths
            == store.paths && next.operations == store.operations && next.operation_sequence
            == store.operation_sequence implies (#[trigger] store::recorded(
        next,
        action,
        target,
        detail,
        now,
        revision,
    ) matches Ok(last) ==> content_kept(store, last)) by {
        assert(laws::sound(next));
        laws::law_log_only_grows(next, action, target, detail, now, revision);
    }
}

/// A frozen store is not changed by an ingest, by a remark about a document, or by looking
/// after it.
pub proof fn law_frozen_store_stays(
    store: StoreView,
    segments: SegmentsView,
    id: i64,
    said: Seq<char>,
    none_derived: Option<Seq<char>>,
    target_type: Seq<char>,
    identifier: Seq<char>,
    weight: i32,
    tokens: Seq<Seq<char>>,
    s: StatementView,
    provenance: Seq<char>,
    bytes: u64,
    now: Seq<char>,
    revision: Seq<char>,
)
    requires
        store::is_frozen(store),
    ensures
        ingest::claim_goal(store, id, now, revision) is Err,
        ingest::analyze_goal(store, id, said, now, revision) is Err,
        ingest::fail_goal(store, id, said, now, revision) is Err,
        ingest::retry_goal(store, id, now, revision) is Err,
        ingest::complete_goal(store, id, none_derived, now, revision) is Err,
        retrieval::weight_set_goal(
            store,
            target_type,
            identifier,
            weight,
            said,
            provenance,
            now,
            revision,
        ) is Err,
        retrieval::feedback_set_goal(
            store,
            target_type,
            identifier,
            tokens,
            weight,
            said,
            provenance,
            now,
            revision,
        ) is Err,
        relations::stated(store, s, now, revision) is Err,
        store::meta_set(store, "schema_set"@, "schema"@, said, now, revision) is Err,
        store::meta_set(store, "purpose_set"@, "purpose"@, said, now, revision) is Err,
        maintenance::reindexed(store, segments, now, revision) is Err,
        maintenance::compacted(store, bytes, now, revision) is Err,
{
    indexing::lemma_all_cut(store, segments);
}

// ---------------------------------------------------------------------------
// Publishing a sparse draft
// ---------------------------------------------------------------------------

/// The sources of a store are all there in another one, as they were.
pub open spec fn sources_stay(before: StoreView, after: StoreView) -> bool {
    forall|id: i64| #[trigger]
        before.sources.dom().contains(id) ==> after.sources.dom().contains(id) && after.sources[id]
            == before.sources[id]
}

proof fn lemma_kept_sound(store: StoreView, made: StoreView, at: i64, source: SourceView)
    requires
        laws::sound(store),
        !store.sources.dom().contains(at),
        source.content_hash == digest::text_digest(source.content),
        forall|id: i64| #[trigger]
            store.sources.dom().contains(id) ==> store.sources[id].content_hash
                != source.content_hash,
        made.sources == store.sources.insert(at, source),
        at <= made.source_sequence,
        store.source_sequence <= made.source_sequence,
        made.pages == store.pages,
        made.ingest_jobs == store.ingest_jobs,
        made.paths == store.paths,
        made.operations == store.operations,
        made.operation_sequence == store.operation_sequence,
    ensures
        laws::sound(made),
        sources_stay(store, made),
{
    assert forall|a: i64, b: i64|
        #![trigger made.sources.dom().contains(a), made.sources.dom().contains(b)]
        made.sources.dom().contains(a) && made.sources.dom().contains(b)
            && made.sources[a].content_hash == made.sources[b].content_hash implies a == b by {
        if a != at {
            assert(store.sources.dom().contains(a));
        }
        if b != at {
            assert(store.sources.dom().contains(b));
        }
    }
    assert forall|id: i64| #[trigger] made.sources.dom().contains(id) implies id
        <= made.source_sequence && made.sources[id].content_hash == digest::text_digest(
        made.sources[id].content,
    ) by {
        if id != at {
            assert(store.sources.dom().contains(id));
        }
    }
    assert forall|slug: Seq<char>, k: int|
        #![trigger made.pages[slug].source_ids[k]]
        made.pages.dom().contains(slug) && 0 <= k < made.pages[slug].source_ids.len()
            implies made.sources.dom().contains(made.pages[slug].source_ids[k]) by {
        assert(store.sources.dom().contains(store.pages[slug].source_ids[k]));
    }
    assert forall|id: i64| #[trigger] made.ingest_jobs.dom().contains(id) implies
        made.sources.dom().contains(id) by {
        assert(store.ingest_jobs.dom().contains(id));
    }
}

proof fn lemma_placed_at(
    so_far: PlacedView,
    store: StoreView,
    draft: StoreView,
    id: i64,
    at: i64,
    created: bool,
    now: Seq<char>,
)
    requires
        laws::sound(store),
        store.sources.dom().contains(at),
    ensures
        laws::sound(sparse_merge::placed_at(so_far, store, draft, id, at, created, now).store),
{
    let next = sparse_merge::placed_at(so_far, store, draft, id, at, created, now).store;
    assert forall|other: i64| #[trigger] next.ingest_jobs.dom().contains(other) implies
        next.sources.dom().contains(other) by {
        if other != at {
            assert(store.ingest_jobs.dom().contains(other));
        }
    }
}

proof fn lemma_source_placed(
    so_far: PlacedView,
    draft: StoreView,
    segments: SegmentsView,
    id: i64,
    now: Seq<char>,
)
    requires
        laws::sound(so_far.store),
        laws::sources_sound(draft),
    ensures
        sparse_merge::source_placed(so_far, draft, segments, id, now) matches Ok(next) ==> {
            &&& laws::sound(next.store)
            &&& sources_stay(so_far.store, next.store)
            &&& next.store.pages == so_far.store.pages
        },
{
    reveal(sparse_merge::source_placed);
    if draft.sources.dom().contains(id) {
        let source = draft.sources[id];
        laws::lemma_with_hash(so_far.store, source.content_hash);
        match sources::source_with_hash(so_far.store, source.content_hash) {
            Some(known) => {
                lemma_placed_at(so_far, so_far.store, draft, id, known, false, now);
            },
            None => {
                if !so_far.store.sources.dom().contains(id) {
                    if let Ok(next) = sources::source_kept(so_far.store, segments, id, source) {
                        lemma_kept_sound(so_far.store, next, id, source);
                        lemma_placed_at(so_far, next, draft, id, id, true, now);
                    }
                } else {
                    if let Ok(next) = sources::source_created(so_far.store, segments, source) {
                        let at = (so_far.store.source_sequence + 1) as i64;
                        assert(!so_far.store.sources.dom().contains(at));
                        lemma_kept_sound(so_far.store, next, at, source);
                        lemma_placed_at(so_far, next, draft, id, at, true, now);
                    }
                }
            },
        }
    }
}

proof fn lemma_sources_placed(
    live: StoreView,
    draft: StoreView,
    segments: SegmentsView,
    ids: Seq<i64>,
    now: Seq<char>,
    count: nat,
)
    requires
        laws::sound(live),
        laws::sources_sound(draft),
    ensures
        sparse_merge::sources_placed(live, draft, segments, ids, now, count) matches Ok(next) ==> {
            &&& laws::sound(next.store)
            &&& sources_stay(live, next.store)
            &&& next.store.pages == live.pages
        },
    decreases count,
{
    if 0 < count <= ids.len() {
        lemma_sources_placed(live, draft, segments, ids, now, (count - 1) as nat);
        if let Ok(so_far) = sparse_merge::sources_placed(
            live,
            draft,
            segments,
            ids,
            now,
            (count - 1) as nat,
        ) {
            lemma_source_placed(so_far, draft, segments, ids[count - 1], now);
        }
    }
}

proof fn lemma_observations_carried(
    live: StoreView,
    draft: StoreView,
    operations: Seq<OperationView>,
    remaps: Seq<RemapView>,
    ids: Map<i64, i64>,
    count: nat,
)
    requires
        laws::sound(live),
    ensures
        sparse_merge::observations_carried(live, draft, operations, remaps, ids, count) matches Ok(
            next,
        ) ==> {
            &&& laws::sound(next.store)
            &&& next.store.sources == live.sources
            &&& next.store.pages == live.pages
        },
    decreases count,
{
    if 0 < count <= operations.len() {
        lemma_observations_carried(live, draft, operations, remaps, ids, (count - 1) as nat);
        if let Ok(so_far) = sparse_merge::observations_carried(
            live,
            draft,
            operations,
            remaps,
            ids,
            (count - 1) as nat,
        ) {
            let op = operations[count - 1];
            if let Ok(next) = sparse_merge::observation_carried(so_far, draft, op, remaps, ids) {
                if next.store != so_far.store {
                    let path = op.detail.text_at("tracked_path"@)->0;
                    let draft_id = op.detail.int_at("source_id"@)->0;
                    let revision = op.detail.int_at("path_revision"@)->0;
                    let at = sparse_merge::observed_at(
                        sources::path_log(draft.paths, path),
                        revision,
                        draft_id,
                    )->0;
                    laws::law_path_advances(
                        so_far.store,
                        path,
                        sparse_merge::live_id(ids, draft_id),
                        at,
                    );
                }
            }
        }
    }
}

proof fn lemma_operations_recorded(
    live: StoreView,
    operations: Seq<OperationView>,
    now: Seq<char>,
    revision: Seq<char>,
    count: nat,
)
    requires
        laws::sound(live),
    ensures
        sparse_merge::operations_recorded(live, operations, now, revision, count) matches Ok(next)
            ==> content_kept(live, next),
    decreases count,
{
    if 0 < count <= operations.len() {
        lemma_operations_recorded(live, operations, now, revision, (count - 1) as nat);
        if let Ok(so_far) = sparse_merge::operations_recorded(
            live,
            operations,
            now,
            revision,
            (count - 1) as nat,
        ) {
            let op = operations[count - 1];
            laws::law_log_only_grows(so_far, op.action, op.target, op.detail, now, revision);
        }
    }
}

proof fn lemma_citations_merged(
    store: StoreView,
    ids: Map<i64, i64>,
    cited: Seq<i64>,
    count: nat,
)
    ensures
        sparse_merge::citations_merged(store, ids, cited, count) matches Ok(list) ==> forall|k: int|
            0 <= k < list.len() ==> store.sources.dom().contains(#[trigger] list[k]),
    decreases count,
{
    if 0 < count <= cited.len() {
        lemma_citations_merged(store, ids, cited, (count - 1) as nat);
    }
}

proof fn lemma_distinct_among(list: Seq<i64>, known: Set<i64>)
    requires
        forall|k: int| 0 <= k < list.len() ==> known.contains(#[trigger] list[k]),
    ensures
        forall|k: int|
            0 <= k < pages::distinct(list).len() ==> known.contains(
                #[trigger] pages::distinct(list)[k],
            ),
{
    vstd::seq_lib::seq_to_set_is_finite(list);
    table::lemma_has_order::<i64>(list.to_set());
    let all = pages::distinct(list);
    assert forall|k: int| 0 <= k < all.len() implies known.contains(#[trigger] all[k]) by {
        assert(all.to_set().contains(all[k]));
        assert(list.contains(all[k]));
    }
}

proof fn lemma_page_merged(
    store: StoreView,
    draft: StoreView,
    segments: SegmentsView,
    slug: Seq<char>,
    ids: Map<i64, i64>,
    now: Seq<char>,
)
    requires
        laws::sound(store),
    ensures
        sparse_merge::page_merged(store, draft, segments, slug, ids, now) matches Ok(next) ==> {
            &&& laws::sound(next)
            &&& next.sources == store.sources
        },
{
    reveal(sparse_merge::page_merged);
    if let Ok(next) = sparse_merge::page_merged(store, draft, segments, slug, ids, now) {
        if draft.pages.dom().contains(slug) {
            let theirs = draft.pages[slug];
            let cited = sparse_merge::citations_merged(
                store,
                ids,
                theirs.source_ids,
                theirs.source_ids.len(),
            )->Ok_0;
            lemma_citations_merged(store, ids, theirs.source_ids, theirs.source_ids.len());
            lemma_distinct_among(cited, store.sources.dom());
        }
        assert forall|other: Seq<char>, k: int|
            #![trigger next.pages[other].source_ids[k]]
            next.pages.dom().contains(other) && 0 <= k < next.pages[other].source_ids.len()
                implies next.sources.dom().contains(next.pages[other].source_ids[k]) by {
            if other != slug {
                assert(next.pages[other] == store.pages[other]);
                assert(store.sources.dom().contains(store.pages[other].source_ids[k]));
            }
        }
        assert(laws::citations_resolve(next));
        assert(laws::sources_sound(next));
        assert(laws::jobs_belong(next));
        assert(laws::paths_sound(next));
        assert(laws::log_sound(next));
    }
}

proof fn lemma_pages_merged(
    store: StoreView,
    draft: StoreView,
    segments: SegmentsView,
    slugs: Seq<Seq<char>>,
    ids: Map<i64, i64>,
    now: Seq<char>,
    count: nat,
)
    requires
        laws::sound(store),
    ensures
        sparse_merge::pages_merged(store, draft, segments, slugs, ids, now, count) matches Ok(next)
            ==> laws::sound(next) && next.sources == store.sources,
    decreases count,
{
    if 0 < count <= slugs.len() {
        lemma_pages_merged(store, draft, segments, slugs, ids, now, (count - 1) as nat);
        if let Ok(so_far) = sparse_merge::pages_merged(
            store,
            draft,
            segments,
            slugs,
            ids,
            now,
            (count - 1) as nat,
        ) {
            lemma_page_merged(so_far, draft, segments, slugs[count - 1], ids, now);
        }
    }
}

proof fn lemma_tags_merged(
    store: StoreView,
    draft: StoreView,
    operations: Seq<OperationView>,
    count: nat,
)
    ensures
        sparse_merge::tags_merged(store, draft, operations, count) matches Ok(next) ==> next
            == (StoreView { tags: next.tags, ..store }),
    decreases count,
{
    if 0 < count <= operations.len() {
        reveal(sparse_merge::tag_merged);
        lemma_tags_merged(store, draft, operations, (count - 1) as nat);
    }
}

proof fn lemma_rest_merged(
    merged: MergedSourcesView,
    draft: StoreView,
    segments: SegmentsView,
    slugs: Seq<Seq<char>>,
    now: Seq<char>,
    revision: Seq<char>,
)
    requires
        laws::sound(merged.store),
    ensures
        sparse_merge::rest_merged(merged, draft, segments, slugs, now, revision) matches Ok(next)
            ==> laws::sound(next) && next.sources == merged.store.sources,
{
    let operations = merged.operations;
    lemma_operations_recorded(merged.store, operations, now, revision, operations.len());
    if let Ok(a) = sparse_merge::operations_recorded(
        merged.store,
        operations,
        now,
        revision,
        operations.len(),
    ) {
        lemma_pages_merged(a, draft, segments, slugs, merged.ids, now, slugs.len());
        if let Ok(b) = sparse_merge::pages_merged(
            a,
            draft,
            segments,
            slugs,
            merged.ids,
            now,
            slugs.len(),
        ) {
            lemma_tags_merged(b, draft, operations, operations.len());
            if let Ok(c) = sparse_merge::tags_merged(b, draft, operations, operations.len()) {
                assert(laws::sound(c));
            }
        }
    }
}

/// To merge a sparse draft keeps a store sound, and leaves every source as it was.
pub proof fn law_merge_keeps_a_store_sound(
    live: StoreView,
    draft: StoreView,
    segments: SegmentsView,
    begin_operation_id: i64,
    validate: bool,
    now: Seq<char>,
    revision: Seq<char>,
)
    requires
        laws::sound(live),
        laws::sources_sound(draft),
    ensures
        sparse_merge::merge_goal(
            live,
            draft,
            segments,
            begin_operation_id,
            validate,
            now,
            revision,
        ) matches Ok(merged) ==> laws::sound(merged.store) && sources_stay(live, merged.store),
{
    let operations = store::operations_after(draft.operations, begin_operation_id);
    let ids = table::ordered::<i64>(touched::source_targets(operations));
    lemma_sources_placed(live, draft, segments, ids, now, ids.len());
    if let Ok(merged) = sparse_merge::sources_merged(live, draft, segments, operations, now) {
        let placed = sparse_merge::sources_placed(
            live,
            draft,
            segments,
            ids,
            now,
            ids.len(),
        )->Ok_0;
        let retold = sparse_merge::ingests_retold(
            operations,
            placed.remaps,
            operations.len(),
        )->Ok_0;
        lemma_observations_carried(
            placed.store,
            draft,
            retold,
            placed.remaps,
            placed.ids,
            retold.len(),
        );
        lemma_rest_merged(
            merged,
            draft,
            segments,
            text::sorted(touched::page_targets(operations)),
            now,
            revision,
        );
    }
}

// ---------------------------------------------------------------------------
// One store in place of another
// ---------------------------------------------------------------------------

/// A store that takes over all that another one holds is as sound as that one.
pub proof fn law_replaced_store_is_sound(live: StoreView, other: StoreView)
    requires
        laws::sound(other),
    ensures
        laws::sound(publish::replaced(live, other)),
{
    let next = publish::replaced(live, other);
    table::lemma_has_order::<i64>(other.sources.dom());
    let ids = table::ordered::<i64>(other.sources.dom());
    assert forall|id: i64| #[trigger] next.sources.dom().contains(id) implies id
        <= next.source_sequence by {
        assert(ids.to_set().contains(id));
        let k = ids.index_of(id);
        let last = ids.len() - 1;
        assert(ids[k] == id);
        if k < last {
            assert(<i64 as table::TableKey>::precedes(ids[k], ids[last]));
        }
    }
}

/// Publishing keeps a store sound. Where the draft is sparse, no source of the store is
/// changed by it.
pub proof fn law_published_store_is_sound(
    live: StoreView,
    draft: StoreView,
    segments: SegmentsView,
    entries: Set<PairView>,
    input: PublishView,
    now: Seq<char>,
    revision: Seq<char>,
)
    requires
        laws::sound(live),
        laws::sound(draft),
    ensures
        publish::publish_goal(
            live,
            draft,
            segments,
            entries,
            input,
            now,
            revision,
        ) matches Ok(done) ==> {
            &&& laws::sound(done.store)
            &&& store::meta_value(draft, "changeset_storage"@) == Some("sparse-v1"@)
                ==> sources_stay(live, done.store)
        },
{
    let begin = draft.changesets[input.id].begin_operation_id;
    law_merge_keeps_a_store_sound(live, draft, segments, begin, true, now, revision);
    law_replaced_store_is_sound(live, draft);
    publish::lemma_taken_over(live, draft, segments, entries);
    if let Ok(merged) = publish::content_published(
        live,
        draft,
        segments,
        entries,
        begin,
        now,
        revision,
    ) {
        let ids = sparse_rollback::moved_ids(merged.remaps, merged.remaps.len());
        let documents = table::ordered::<Pair>(
            publish::documents_moved(input.graph_documents, ids),
        );
        laws::law_log_only_grows(
            merged.store,
            "changeset_commit"@,
            input.id,
            publish::commit_detail(input, merged.remaps, documents),
            now,
            revision,
        );
    }
}

/// A changeset taken back from a sound snapshot, and a checkpoint restored from one, leave a
/// sound store behind.
pub proof fn law_snapshots_leave_a_sound_store(
    live: StoreView,
    snapshot: StoreView,
    segments: SegmentsView,
    entries: Set<PairView>,
    input: RollbackInputView,
    directory: Seq<char>,
    taken: Seq<Seq<char>>,
    millis: nat,
    name: Seq<char>,
    now: Seq<char>,
    revision: Seq<char>,
)
    requires
        laws::sound(snapshot),
    ensures
        publish::snapshot_goal(
            live,
            snapshot,
            segments,
            entries,
            input,
            now,
            revision,
        ) matches Ok(done) ==> laws::sound(done.store),
        checkpoints::restore_goal(
            live,
            directory,
            CheckpointFileView::Snapshot(snapshot),
            taken,
            millis,
            name,
            now,
            revision,
        ) matches Ok(done) ==> laws::sound(done.store),
{
    law_replaced_store_is_sound(live, snapshot);
    publish::lemma_taken_over(live, snapshot, segments, entries);
    if let Ok(bare) = publish::taken_over(live, snapshot, segments, entries) {
        assert(laws::sound(bare));
        let marked = StoreView {
            changesets: bare.changesets.insert(
                input.history.id,
                publish::rolled_back_row(input, now),
            ),
            ..bare
        };
        assert(laws::sound(marked));
        let documents = table::ordered::<Pair>(publish::changed_documents(live, snapshot));
        laws::law_log_only_grows(
            marked,
            "changeset_rollback"@,
            input.history.id,
            publish::snapshot_detail(input, documents, revision),
            now,
            revision,
        );
    }
    let under = StoreView { scope: live.scope, database: live.database, ..snapshot };
    assert(laws::sound(under));
    match checkpoints::fresh_name("pre-restore"@, millis, taken) {
        Ok(safety) => {
            laws::law_log_only_grows(
                under,
                "checkpoint_restore"@,
                name,
                JsonView::Object(seq![json::entry("safety_checkpoint"@, JsonView::Text(safety))]),
                now,
                revision,
            );
        },
        Err(_) => {},
    }
}

} // verus!
