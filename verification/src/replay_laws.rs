//! A draft that is carried elsewhere and done again there.
use crate::changesets;
use crate::detached;
use crate::detached::{
    ActionView, IngestIntentView, MetaIntentView, PageIntentView, SourceIntentView, TagIntentView,
};
use crate::digest;
use crate::error::{AppErrorView, ErrorCode};
use crate::json;
use crate::laws;
use crate::pages;
use crate::replay;
use crate::rows::OperationView;
use crate::sources;
use crate::store::StoreView;
use crate::sync_file::FileShape;
use crate::sync_file;
use crate::table;
use crate::table::PairView;
use crate::text;
use crate::touched;
use vstd::prelude::*;

verus! {

// ---------------------------------------------------------------------------
// What is carried
// ---------------------------------------------------------------------------

proof fn lemma_pages_listed(store: StoreView, items: Seq<PairView>, count: nat)
    requires
        count <= items.len(),
    ensures
        detached::page_intents(store, items, count) matches Ok(list) ==> {
            &&& list.len() == count
            &&& forall|k: int|
                0 <= k < count ==> detached::page_intent(store, #[trigger] items[k]) == Ok::<
                    PageIntentView,
                    AppErrorView,
                >(list[k])
        },
    decreases count,
{
    if count > 0 {
        lemma_pages_listed(store, items, (count - 1) as nat);
    }
}

proof fn lemma_tags_listed(store: StoreView, items: Seq<PairView>, count: nat)
    requires
        count <= items.len(),
    ensures
        detached::tag_intents(store, items, count) matches Ok(list) && list.len() == count
            && forall|k: int|
            0 <= k < count ==> detached::tag_intent(store, #[trigger] items[k]) == Ok::<
                TagIntentView,
                AppErrorView,
            >(list[k]),
    decreases count,
{
    if count > 0 {
        lemma_tags_listed(store, items, (count - 1) as nat);
    }
}

proof fn lemma_meta_listed(store: StoreView, items: Seq<PairView>, count: nat)
    requires
        count <= items.len(),
    ensures
        detached::meta_intents(store, items, count) matches Ok(list) ==> {
            &&& list.len() == count
            &&& forall|k: int|
                0 <= k < count ==> detached::meta_intent(store, #[trigger] items[k]) == Ok::<
                    MetaIntentView,
                    AppErrorView,
                >(list[k])
        },
    decreases count,
{
    if count > 0 {
        lemma_meta_listed(store, items, (count - 1) as nat);
    }
}

proof fn lemma_actions_listed(store: StoreView, items: Seq<OperationView>, count: nat)
    requires
        count <= items.len(),
    ensures
        detached::detached_actions(store, items, count) matches Ok(list) ==> {
            &&& list.len() == count
            &&& forall|k: int|
                0 <= k < count ==> detached::detached_action(store, #[trigger] items[k]) == Ok::<
                    ActionView,
                    AppErrorView,
                >(list[k])
        },
    decreases count,
{
    if count > 0 {
        lemma_actions_listed(store, items, (count - 1) as nat);
    }
}

proof fn lemma_sources_listed(store: StoreView, ids: Seq<i64>, created: Set<i64>, count: nat)
    requires
        count <= ids.len(),
    ensures
        detached::sources_exported(store, ids, created, count) matches Ok(list) ==> {
            &&& list.sources.len() == count
            &&& forall|k: int|
                0 <= k < count ==> {
                    &&& store.sources.dom().contains(#[trigger] ids[k])
                    &&& store.ingest_jobs.dom().contains(ids[k])
                    &&& list.sources[k].content_hash == store.sources[ids[k]].content_hash
                    &&& list.sources[k].content_required == created.contains(ids[k])
                }
        },
    decreases count,
{
    if count > 0 {
        lemma_sources_listed(store, ids, created, (count - 1) as nat);
    }
}

proof fn lemma_ingested(operations: Seq<OperationView>)
    ensures
        detached::ingested(operations) matches Ok(ids) ==> {
            &&& ids.finite()
            &&& forall|k: int|
                0 <= k < operations.len() && "ingest_"@.is_prefix_of(
                    (#[trigger] operations[k]).action,
                ) ==> (text::reads_as_i64(operations[k].target) matches Some(id) && ids.contains(
                    id as i64,
                ))
        },
    decreases operations.len(),
{
    if operations.len() > 0 {
        let head = operations.drop_last();
        lemma_ingested(head);
        if let Ok(ids) = detached::ingested(operations) {
            assert forall|k: int|
                0 <= k < operations.len() && "ingest_"@.is_prefix_of(
                    (#[trigger] operations[k]).action,
                ) implies (text::reads_as_i64(operations[k].target) matches Some(id)
                && ids.contains(id as i64)) by {
                if k < head.len() {
                    assert(head[k] == operations[k]);
                }
            }
        }
    }
}

/// A draft is carried whole: each page, tag and value that it touched, with the mark of what it
/// was based on, and each of its operations, in their order.
pub proof fn law_draft_is_carried_whole(store: StoreView, k: int)
    ensures
        detached::intent_goal(store) matches Ok(Some(export)) ==> {
            let intent = export.intent;
            let pages = touched::touched_pages(store);
            let tags = touched::touched_tags(store);
            let meta = touched::touched_meta(store);
            let staged = changesets::staged(store);
            &&& store.meta.dom().contains("changeset_storage"@)
            &&& store.meta["changeset_storage"@] == "sparse-v1"@
            &&& intent.version == 1
            &&& changesets::draft_of(store, None) == Some(intent.origin_changeset_id)
            &&& intent.name == store.changesets[intent.origin_changeset_id].name
            &&& intent.pages.len() == pages.len()
            &&& intent.tags.len() == tags.len()
            &&& intent.meta.len() == meta.len()
            &&& intent.actions.len() == staged.len()
            &&& staged.len() <= 2048
            &&& intent.sources.len() + intent.pages.len() + intent.tags.len() + intent.meta.len()
                <= 1024
            &&& 0 <= k < pages.len() ==> {
                &&& intent.pages[k].slug == pages[k].first
                &&& intent.pages[k].base_fingerprint == pages[k].second
                &&& intent.pages[k].after is Some <==> store.pages.dom().contains(pages[k].first)
            }
            &&& 0 <= k < tags.len() ==> {
                &&& intent.tags[k].name == tags[k].first
                &&& intent.tags[k].base_fingerprint == tags[k].second
                &&& intent.tags[k].after is Some <==> store.tags.dom().contains(tags[k].first)
            }
            &&& 0 <= k < meta.len() ==> {
                &&& intent.meta[k].key == meta[k].first
                &&& intent.meta[k].base_fingerprint == meta[k].second
                &&& intent.meta[k].value == store.meta[meta[k].first]
            }
            &&& 0 <= k < staged.len() ==> detached::detached_action(store, staged[k]) == Ok::<
                ActionView,
                AppErrorView,
            >(intent.actions[k])
        },
{
    if let Ok(Some(export)) = detached::intent_goal(store) {
        let pages = touched::touched_pages(store);
        let tags = touched::touched_tags(store);
        let meta = touched::touched_meta(store);
        let staged = changesets::staged(store);
        lemma_pages_listed(store, pages, pages.len());
        lemma_tags_listed(store, tags, tags.len());
        lemma_meta_listed(store, meta, meta.len());
        lemma_actions_listed(store, staged, staged.len());
        if 0 <= k < pages.len() {
            assert(detached::page_intent(store, pages[k]) is Ok);
        }
        if 0 <= k < tags.len() {
            assert(detached::tag_intent(store, tags[k]) is Ok);
        }
        if 0 <= k < meta.len() {
            assert(detached::meta_intent(store, meta[k]) is Ok);
        }
        if 0 <= k < staged.len() {
            assert(detached::detached_action(store, staged[k]) is Ok);
        }
    }
}

/// With a draft go the sources that it added, with their contents, and those whose ingest it
/// moved on.
pub proof fn law_sources_are_carried(store: StoreView, id: i64, k: int)
    ensures
        detached::intent_goal(store) matches Ok(Some(export)) ==> {
            let staged = changesets::staged(store);
            &&& touched::created_sources(changesets::staged_anywhere(store)) matches Ok(created)
            &&& created.finite() && created.contains(id) ==> exists|n: int| {
                &&& 0 <= n < export.intent.sources.len()
                &&& (#[trigger] export.intent.sources[n]).content_hash
                    == store.sources[id].content_hash
                &&& export.intent.sources[n].content_required
            }
            &&& created.finite() && 0 <= k < staged.len() && "ingest_"@.is_prefix_of(
                staged[k].action,
            ) ==> {
                &&& text::reads_as_i64(staged[k].target) matches Some(one)
                &&& exists|n: int| {
                    &&& 0 <= n < export.intent.sources.len()
                    &&& (#[trigger] export.intent.sources[n]).content_hash
                        == store.sources[one as i64].content_hash
                }
            }
        },
{
    if let Ok(Some(export)) = detached::intent_goal(store) {
        let staged = changesets::staged(store);
        let created = touched::created_sources(changesets::staged_anywhere(store))->Ok_0;
        let more = detached::ingested(staged)->Ok_0;
        lemma_ingested(staged);
        if created.finite() {
            table::lemma_has_order::<i64>(created + more);
            let ids = table::ordered::<i64>(created + more);
            lemma_sources_listed(store, ids, created, ids.len());
            if created.contains(id) {
                assert(ids.to_set().contains(id));
                let n = ids.index_of(id);
                assert(ids[n] == id);
                assert(export.intent.sources[n].content_required);
            }
            if 0 <= k < staged.len() && "ingest_"@.is_prefix_of(staged[k].action) {
                let one = text::reads_as_i64(staged[k].target)->0 as i64;
                assert(more.contains(one));
                assert(ids.to_set().contains(one));
                let n = ids.index_of(one);
                assert(ids[n] == one);
                assert(export.intent.sources[n].content_hash == store.sources[one].content_hash);
            }
        }
    }
}

/// A draft in which another draft is being done again is not carried on.
pub proof fn law_replays_are_not_carried(store: StoreView, k: int)
    requires
        0 <= k < changesets::staged(store).len(),
        changesets::staged(store)[k].action == "changeset_sync_replay_start"@ || changesets::staged(
            store,
        )[k].action == "changeset_sync_replay_complete"@,
    ensures
        detached::intent_goal(store) matches Ok(export) ==> export is None,
{
    let staged = changesets::staged(store);
    assert(detached::holds_replay(staged)) by {
        assert(staged[k].action == staged[k].action);
    }
}

// ---------------------------------------------------------------------------
// What is done again
// ---------------------------------------------------------------------------

proof fn lemma_same_hashes(store: StoreView, ids: Seq<i64>, count: nat)
    requires
        count <= ids.len(),
    ensures
        detached::cited_hashes(store, ids, count) matches Ok(hashes) ==> replay::hashes_of(
            store,
            ids,
            count,
        ) == Ok::<Seq<Seq<char>>, AppErrorView>(hashes),
        replay::hashes_of(store, ids, count) matches Ok(hashes) ==> {
            &&& hashes.len() == count
            &&& forall|k: int|
                0 <= k < count ==> store.sources.dom().contains(#[trigger] ids[k]) && hashes[k]
                    == store.sources[ids[k]].content_hash
        },
    decreases count,
{
    if count > 0 {
        lemma_same_hashes(store, ids, (count - 1) as nat);
    }
}

/// What a draft carries is what it has: its own tags, values and ingest jobs match it, and so
/// does a page whose provenance is shown as it is kept.
pub proof fn law_draft_matches_what_it_carries(
    store: StoreView,
    page: PairView,
    tag: PairView,
    meta: PairView,
    id: i64,
    required: bool,
)
    requires
        store.sources.dom().finite(),
        store.pages.dom().contains(page.first) ==> pages::shown_provenance(
            store.pages[page.first].source_ids.len() > 0,
            store.pages[page.first].provenance,
        ) == store.pages[page.first].provenance,
    ensures
        detached::page_intent(store, page) matches Ok(intent) ==> (replay::page_matches(
            store,
            intent,
        ) matches Ok(same) && same),
        detached::tag_intent(store, tag) matches Ok(intent) ==> replay::tag_matches(store, intent),
        detached::meta_intent(store, meta) matches Ok(intent) ==> replay::meta_matches(
            store,
            intent,
        ),
        store.sources.dom().contains(id) && store.ingest_jobs.dom().contains(id)
            && sources::source_with_hash(store, store.sources[id].content_hash) == Some(id)
            ==> replay::ingest_matches(
            store,
            store.sources[id].content_hash,
            detached::source_intent(store, id, required).ingest,
        ),
{
    if store.pages.dom().contains(page.first) {
        let ids = store.pages[page.first].source_ids;
        lemma_same_hashes(store, ids, ids.len());
    }
}

/// A page matches what was carried only where it is the same page: it is gone where it was
/// taken out, and else has the same title, kind, summary, body and provenance and cites the same
/// contents.
pub proof fn law_matching_page_is_the_same(store: StoreView, page: PageIntentView, k: int)
    ensures
        page.after is None ==> replay::page_matches(store, page) == Ok::<
            bool,
            AppErrorView,
        >(!store.pages.dom().contains(page.slug)),
        page.after matches Some(after) ==> (replay::page_matches(store, page) matches Ok(same) ==> (
        same ==> {
            let own = store.pages[page.slug];
            &&& store.pages.dom().contains(page.slug)
            &&& own.title == after.title
            &&& own.kind == after.kind
            &&& own.summary == after.summary
            &&& own.body == after.body
            &&& pages::shown_provenance(own.source_ids.len() > 0, own.provenance)
                == after.provenance
            &&& own.source_ids.len() == after.source_hashes.len()
            &&& 0 <= k < own.source_ids.len() ==> store.sources.dom().contains(own.source_ids[k])
                && after.source_hashes.contains(store.sources[own.source_ids[k]].content_hash)
        })),
{
    broadcast use vstd::seq_lib::group_to_multiset_ensures;

    if let Some(after) = page.after {
        if let Ok(same) = replay::page_matches(store, page) {
            if same {
                let own = store.pages[page.slug];
                lemma_same_hashes(store, own.source_ids, own.source_ids.len());
                let hashes = replay::hashes_of(store, own.source_ids, own.source_ids.len())->Ok_0;
                assert(hashes.to_multiset().len() == after.source_hashes.to_multiset().len());
                if 0 <= k < own.source_ids.len() {
                    assert(hashes.contains(hashes[k]));
                    assert(hashes.to_multiset().count(hashes[k]) > 0);
                    assert(store.sources.dom().contains(own.source_ids[k]));
                }
            }
        }
    }
}

/// A value matches what was carried where it is the schema or the purpose and is the same, and
/// an ingest job where it is where that one was, with as many attempts and the same outcome.
pub proof fn law_matching_values_are_the_same(
    store: StoreView,
    meta: MetaIntentView,
    hash: Seq<char>,
    ingest: IngestIntentView,
)
    requires
        store.sources.dom().finite(),
    ensures
        replay::meta_matches(store, meta) <==> {
            &&& meta.key == "schema"@ || meta.key == "purpose"@
            &&& store.meta.dom().contains(meta.key)
            &&& store.meta[meta.key] == meta.value
        },
        replay::ingest_matches(store, hash, ingest) ==> exists|id: i64| {
            &&& #[trigger] store.sources.dom().contains(id)
            &&& store.sources[id].content_hash == hash
            &&& store.ingest_jobs.dom().contains(id)
            &&& store.ingest_jobs[id].status == ingest.status
            &&& store.ingest_jobs[id].attempts == ingest.attempts
            &&& store.ingest_jobs[id].analysis == ingest.analysis
            &&& store.ingest_jobs[id].no_derived_pages_reason == ingest.no_derived_pages_reason
        },
{
    laws::lemma_with_hash(store, hash);
}

/// The start of an item is the last one that was marked for it.
pub proof fn law_start_is_the_last(
    operations: Seq<OperationView>,
    target: Seq<char>,
    key: Seq<char>,
)
    ensures
        replay::start_of(operations, target, key) matches Some(id) ==> exists|k: int| {
            &&& 0 <= k < operations.len()
            &&& (#[trigger] operations[k]).id == id
            &&& starts(operations[k], target, key)
            &&& forall|j: int|
                k < j < operations.len() ==> !starts(#[trigger] operations[j], target, key)
        },
        replay::start_of(operations, target, key) is None ==> forall|j: int|
            0 <= j < operations.len() ==> !starts(#[trigger] operations[j], target, key),
    decreases operations.len(),
{
    if operations.len() > 0 {
        let head = operations.drop_last();
        let last = operations.len() - 1;
        law_start_is_the_last(head, target, key);
        if starts(operations[last], target, key) {
            assert(operations[last].id == operations.last().id);
        } else {
            if let Some(id) = replay::start_of(head, target, key) {
                let k = choose|k: int| {
                    &&& 0 <= k < head.len()
                    &&& (#[trigger] head[k]).id == id
                    &&& starts(head[k], target, key)
                    &&& forall|j: int|
                        k < j < head.len() ==> !starts(#[trigger] head[j], target, key)
                };
                assert(operations[k] == head[k]);
                assert forall|j: int| k < j < operations.len() implies !starts(
                    #[trigger] operations[j],
                    target,
                    key,
                ) by {
                    if j < last {
                        assert(head[j] == operations[j]);
                    }
                }
            } else {
                assert forall|j: int| 0 <= j < operations.len() implies !starts(
                    #[trigger] operations[j],
                    target,
                    key,
                ) by {
                    if j < last {
                        assert(head[j] == operations[j]);
                    }
                }
            }
        }
    }
}

/// An operation marks that an item is being done again.
pub open spec fn starts(op: OperationView, target: Seq<char>, key: Seq<char>) -> bool {
    &&& op.action == "changeset_sync_replay_item_start"@
    &&& op.target == target
    &&& op.detail.text_at("item_key"@) == Some(key)
}

/// An item was done again where something was changed since it was begun, and nothing but what
/// belongs to it.
pub proof fn law_item_changed_itself_alone(
    store: StoreView,
    store_id: Seq<char>,
    changeset_id: Seq<char>,
    key: Seq<char>,
    k: int,
)
    requires
        0 <= k < store.operations.len(),
        !"changeset_sync_replay_"@.is_prefix_of(store.operations[k].action),
    ensures
        replay::mutations_match(store, store_id, changeset_id, key) matches Ok(same) ==> {
            &&& replay::start_of(
                store.operations,
                replay::replay_target(store_id, changeset_id),
                key,
            ) matches Some(start)
            &&& same && store.operations[k].id > start ==> replay::belongs(
                store,
                replay::item_kind(key),
                replay::item_identifier(key),
                store.operations[k],
            )
            &&& same ==> exists|j: int|
                0 <= j < store.operations.len() && (#[trigger] store.operations[j]).id > start
                    && !"changeset_sync_replay_"@.is_prefix_of(store.operations[j].action)
        },
{
    if let Ok(same) = replay::mutations_match(store, store_id, changeset_id, key) {
        let start = replay::start_of(
            store.operations,
            replay::replay_target(store_id, changeset_id),
            key,
        )->0;
        if same {
            let j = choose|j: int|
                0 <= j < store.operations.len() && (#[trigger] store.operations[j]).id > start
                    && !replay::is_replay_mark(store.operations[j]);
            assert(store.operations[j].id > start);
            assert(!replay::is_replay_mark(store.operations[k]));
        }
    }
}

/// A source that a draft needs is there afterwards, under one identifier, without its content
/// where it was taken over, with a job that is to be done; all other sources stay. One that is
/// nowhere is refused.
pub proof fn law_needed_source_is_there(
    store: StoreView,
    live: StoreView,
    source: SourceIntentView,
    now: Seq<char>,
    other: i64,
)
    requires
        store.sources.dom().finite(),
        live.sources.dom().finite(),
    ensures
        replay::source_prepared(store, live, source, now) matches Ok((next, id)) ==> {
            &&& next.sources.dom().contains(id)
            &&& next.sources[id].content_hash == source.content_hash
            &&& store.sources.dom().contains(id) ==> next == store
            &&& !store.sources.dom().contains(id) ==> {
                &&& live.sources.dom().contains(id)
                &&& next.sources[id].content == ""@
                &&& next.sources[id].title == live.sources[id].title
                &&& next.sources[id].origin == live.sources[id].origin
                &&& next.sources[id].created_at == live.sources[id].created_at
                &&& next.ingest_jobs[id].status == "pending"@
                &&& next.ingest_jobs[id].attempts == 0
                &&& next.ingest_jobs[id].updated_at == now
                &&& next.source_sequence >= id
                &&& next.source_sequence >= store.source_sequence
            }
            &&& other != id ==> next.sources.dom().contains(other) == store.sources.dom().contains(
                other,
            ) && next.sources[other] == store.sources[other]
            &&& next.pages == store.pages
            &&& next.operations == store.operations
        },
        (forall|id: i64| #[trigger]
            store.sources.dom().contains(id) ==> store.sources[id].content_hash
                != source.content_hash) && (forall|id: i64| #[trigger]
            live.sources.dom().contains(id) ==> live.sources[id].content_hash
                != source.content_hash) ==> (replay::source_prepared(
            store,
            live,
            source,
            now,
        ) matches Err(e) && e.code == ErrorCode::ChangesetReplayInvalid),
{
    laws::lemma_with_hash(store, source.content_hash);
    laws::lemma_with_hash(live, source.content_hash);
}

/// The items that were done again are those that are marked so for the draft, each with its
/// digest, and each once.
pub proof fn law_done_items_are_marked(
    operations: Seq<OperationView>,
    target: Seq<char>,
    count: nat,
    k: int,
    key: Seq<char>,
)
    requires
        0 <= k < count <= operations.len(),
    ensures
        replay::done_items(operations, target, count) matches Ok(done) ==> {
            let op = operations[k];
            &&& op.action == "changeset_sync_replay_item"@ && op.target == target ==> {
                &&& op.detail.text_at("item_key"@) matches Some(own)
                &&& op.detail.text_at("item_digest"@) matches Some(mark)
                &&& done.dom().contains(own)
                &&& done[own] == mark
            }
            &&& done.dom().contains(key) ==> exists|n: int| {
                &&& 0 <= n < count
                &&& (#[trigger] operations[n]).action == "changeset_sync_replay_item"@
                &&& operations[n].target == target
                &&& operations[n].detail.text_at("item_key"@) == Some(key)
            }
        },
    decreases count,
{
    if let Ok(done) = replay::done_items(operations, target, count) {
        let head = replay::done_items(operations, target, (count - 1) as nat)->Ok_0;
        if k < count - 1 {
            law_done_items_are_marked(operations, target, (count - 1) as nat, k, key);
        } else if count > 1 {
            law_done_items_are_marked(operations, target, (count - 1) as nat, 0, key);
        }
        if done.dom().contains(key) {
            if head.dom().contains(key) {
                let n = choose|n: int| {
                    &&& 0 <= n < count - 1
                    &&& (#[trigger] operations[n]).action == "changeset_sync_replay_item"@
                    &&& operations[n].target == target
                    &&& operations[n].detail.text_at("item_key"@) == Some(key)
                };
                assert(operations[n].target == target);
            } else {
                assert(operations[count - 1].target == target);
            }
        }
    }
}

/// An item that is done, or whose draft is, is not begun again; one that is done otherwise is a
/// conflict. To begin an item enters a mark for it, once, and changes nothing that is kept.
pub proof fn law_item_is_begun_once(
    store: StoreView,
    store_id: Seq<char>,
    changeset_id: Seq<char>,
    key: Seq<char>,
    mark: Seq<char>,
    now: Seq<char>,
    revision: Seq<char>,
)
    ensures
        replay::start_goal(store, store_id, changeset_id, key, mark, now, revision) matches Ok(done)
            ==> {
            &&& replay::replay_state(store, store_id, changeset_id) matches Ok(Some(state))
            &&& state.complete || state.items.dom().contains(key) ==> done.0 == store && done.1
                is Complete
            &&& !state.complete && !state.items.dom().contains(key) ==> done.1 !is Complete
            &&& !state.complete && state.items.dom().contains(key) ==> state.items[key] == mark
            &&& done.1 !is Ready ==> done.0 == store
            &&& done.0.pages == store.pages
            &&& done.0.sources == store.sources
            &&& done.0.tags == store.tags
        },
        replay::start_goal(store, store_id, changeset_id, key, mark, now, revision) matches Ok(done)
            ==> (done.1 is Ready ==> {
            &&& done.0.operations.len() == store.operations.len() + 1
            &&& starts(
                done.0.operations.last(),
                replay::replay_target(store_id, changeset_id),
                key,
            )
        }),
{
    reveal_strlit("item_digest");
    reveal_strlit("item_key");
    assert("item_digest"@.len() == 11 && "item_key"@.len() == 8);
    reveal_with_fuel(json::lookup, 3);
    let detail = replay::item_json(key, mark);
    let entries = detail->Object_0;
    assert(entries.drop_first()[0] == entries[1]);
    assert(detail.text_at("item_key"@) == Some(key));
}

/// The content of a source is taken out of a state just where the state has it under its hash,
/// it is text, it is what the hash says, and it is no larger than may still come.
pub proof fn law_content_is_checked(
    shape: FileShape,
    blobs: Map<Seq<char>, Seq<u8>>,
    source: SourceIntentView,
    remaining: u64,
)
    ensures
        replay::carried_content(shape, blobs, source, remaining) is Ok <==> {
            let blob = blobs[source.content_hash];
            &&& sync_file::shape_check(shape) is Ok
            &&& blobs.dom().contains(source.content_hash)
            &&& blob.len() <= remaining
            &&& vstd::utf8::valid_utf8(blob)
            &&& digest::sha256_hex(blob) == source.content_hash
        },
        replay::carried_content(shape, blobs, source, remaining) matches Ok(content) ==> content
            == blobs[source.content_hash],
{
}

} // verus!
