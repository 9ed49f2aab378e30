//! What a sparse draft leaves in the live store when it is published.
use crate::pages;
use crate::publish;
use crate::publish::PublishView;
use crate::refusals;
use crate::rows::{OperationView, PathRevisionView};
use crate::sources;
use crate::spans::SegmentsView;
use crate::sparse_merge;
use crate::sparse_merge::{PlacedView, RemapView};
use crate::store;
use crate::store::StoreView;
use crate::table;
use crate::table::PairView;
use crate::text;
use crate::touched;
use vstd::prelude::*;

verus! {

// ---------------------------------------------------------------------------
// What was staged
// ---------------------------------------------------------------------------

/// An operation was written down after another one.
pub open spec fn is_staged(draft: StoreView, begin: i64, op: OperationView) -> bool {
    draft.operations.contains(op) && op.id > begin
}

/// The draft put or removed a page.
pub open spec fn touches_page(draft: StoreView, begin: i64, slug: Seq<char>) -> bool {
    exists|op: OperationView| #[trigger]
        is_staged(draft, begin, op) && (op.action == "page_put"@ || op.action == "page_remove"@)
            && op.target == slug
}

proof fn lemma_after(operations: Seq<OperationView>, id: i64, op: OperationView)
    ensures
        store::operations_after(operations, id).contains(op) <==> operations.contains(op) && op.id
            > id,
    decreases operations.len(),
{
    if operations.len() > 0 {
        let head = operations.drop_last();
        lemma_after(head, id, op);
        let less = store::operations_after(head, id);
        let all = store::operations_after(operations, id);
        if all.contains(op) {
            let i = all.index_of(op);
            if i < less.len() {
                assert(less[i] == op);
                assert(less.contains(op));
                assert(operations[head.index_of(op)] == op);
            } else {
                assert(operations[operations.len() - 1] == op);
            }
        }
        if operations.contains(op) && op.id > id {
            let i = operations.index_of(op);
            if i < head.len() {
                assert(head[i] == op);
                assert(less.contains(op));
                assert(all[less.index_of(op)] == op);
            } else {
                assert(all[less.len() as int] == op);
            }
        }
    }
}

/// The operations since another one are those that were written down after it, in their order.
pub proof fn law_staged_operations(draft: StoreView, begin: i64, op: OperationView)
    ensures
        store::operations_after(draft.operations, begin).contains(op) <==> is_staged(
            draft,
            begin,
            op,
        ),
{
    lemma_after(draft.operations, begin, op);
}

proof fn lemma_page_targets(operations: Seq<OperationView>, slug: Seq<char>)
    ensures
        touched::page_targets(operations).finite(),
        touched::page_targets(operations).contains(slug) <==> exists|k: int|
            0 <= k < operations.len() && ((#[trigger] operations[k]).action == "page_put"@
                || operations[k].action == "page_remove"@) && operations[k].target == slug,
    decreases operations.len(),
{
    if operations.len() > 0 {
        let head = operations.drop_last();
        lemma_page_targets(head, slug);
        let last = operations.len() - 1;
        if touched::page_targets(operations).contains(slug) {
            if touched::page_targets(head).contains(slug) {
                let k = choose|k: int|
                    0 <= k < head.len() && ((#[trigger] head[k]).action == "page_put"@
                        || head[k].action == "page_remove"@) && head[k].target == slug;
                assert(operations[k] == head[k]);
            } else {
                assert(operations[last].target == slug);
            }
        }
        if exists|k: int|
            0 <= k < operations.len() && ((#[trigger] operations[k]).action == "page_put"@
                || operations[k].action == "page_remove"@) && operations[k].target == slug {
            let k = choose|k: int|
                0 <= k < operations.len() && ((#[trigger] operations[k]).action == "page_put"@
                    || operations[k].action == "page_remove"@) && operations[k].target == slug;
            if k < last {
                assert(head[k] == operations[k]);
            }
        }
    }
}

proof fn lemma_touches(draft: StoreView, begin: i64, slug: Seq<char>)
    ensures
        touched::page_targets(store::operations_after(draft.operations, begin)).finite(),
        touched::page_targets(store::operations_after(draft.operations, begin)).contains(slug)
            <==> touches_page(draft, begin, slug),
{
    let operations = store::operations_after(draft.operations, begin);
    lemma_page_targets(operations, slug);
    if touched::page_targets(operations).contains(slug) {
        let k = choose|k: int|
            0 <= k < operations.len() && ((#[trigger] operations[k]).action == "page_put"@
                || operations[k].action == "page_remove"@) && operations[k].target == slug;
        assert(operations.contains(operations[k]));
        lemma_after(draft.operations, begin, operations[k]);
        assert(is_staged(draft, begin, operations[k]));
    }
    if touches_page(draft, begin, slug) {
        let op = choose|op: OperationView| #[trigger]
            is_staged(draft, begin, op) && (op.action == "page_put"@ || op.action
                == "page_remove"@) && op.target == slug;
        lemma_after(draft.operations, begin, op);
        let k = operations.index_of(op);
        assert(operations[k] == op);
    }
}

// ---------------------------------------------------------------------------
// Pages
// ---------------------------------------------------------------------------

/// What the live store has of a page that a draft put, beside what the live store had before.
pub open spec fn page_arrived(
    before: StoreView,
    after: StoreView,
    draft: StoreView,
    ids: Map<i64, i64>,
    slug: Seq<char>,
    now: Seq<char>,
) -> bool {
    let theirs = draft.pages[slug];
    let page = after.pages[slug];
    &&& after.pages.dom().contains(slug)
    &&& page.title == theirs.title
    &&& page.kind == theirs.kind
    &&& page.summary == theirs.summary
    &&& page.body == theirs.body
    &&& page.provenance == theirs.provenance
    &&& page.links == theirs.links
    &&& page.structural_navigation == theirs.structural_navigation
    &&& page.updated_at == now
    &&& page.created_at == (if before.pages.dom().contains(slug) {
        before.pages[slug].created_at
    } else {
        theirs.created_at
    })
    &&& forall|cited: i64| #[trigger]
        theirs.source_ids.contains(cited) ==> page.source_ids.contains(
            if ids.dom().contains(cited) {
                ids[cited]
            } else {
                cited
            },
        )
    &&& forall|id: i64| #[trigger]
        page.source_ids.contains(id) ==> exists|cited: i64| #[trigger]
            theirs.source_ids.contains(cited) && id == (if ids.dom().contains(cited) {
                ids[cited]
            } else {
                cited
            })
}

proof fn lemma_citations(store: StoreView, ids: Map<i64, i64>, cited: Seq<i64>, count: nat)
    requires
        count <= cited.len(),
    ensures
        sparse_merge::citations_merged(store, ids, cited, count) matches Ok(list) ==> {
            &&& list.len() == count
            &&& forall|k: int|
                0 <= k < count ==> #[trigger] list[k] == (if ids.dom().contains(cited[k]) {
                    ids[cited[k]]
                } else {
                    cited[k]
                })
        },
    decreases count,
{
    if count > 0 {
        lemma_citations(store, ids, cited, (count - 1) as nat);
    }
}

proof fn lemma_page(
    store: StoreView,
    draft: StoreView,
    segments: SegmentsView,
    slug: Seq<char>,
    ids: Map<i64, i64>,
    now: Seq<char>,
)
    ensures
        sparse_merge::page_merged(store, draft, segments, slug, ids, now) matches Ok(next) ==> {
            &&& draft.pages.dom().contains(slug) ==> page_arrived(
                store,
                next,
                draft,
                ids,
                slug,
                now,
            )
            &&& !draft.pages.dom().contains(slug) ==> !next.pages.dom().contains(slug)
            &&& forall|other: Seq<char>|
                other != slug ==> {
                    &&& #[trigger] next.pages.dom().contains(other) == store.pages.dom().contains(
                        other,
                    )
                    &&& next.pages.dom().contains(other) ==> next.pages[other]
                        == store.pages[other]
                }
            &&& next.sources == store.sources
            &&& next.meta == store.meta
            &&& next.operations == store.operations
        },
{
    reveal(sparse_merge::page_merged);
    if draft.pages.dom().contains(slug) {
        let theirs = draft.pages[slug];
        lemma_citations(store, ids, theirs.source_ids, theirs.source_ids.len());
        if let Ok(next) = sparse_merge::page_merged(store, draft, segments, slug, ids, now) {
            let cited = sparse_merge::citations_merged(
                store,
                ids,
                theirs.source_ids,
                theirs.source_ids.len(),
            )->Ok_0;
            refusals::lemma_distinct(cited);
            let page = next.pages[slug];
            assert(page.source_ids == pages::distinct(cited));
            assert forall|one: i64| #[trigger]
                theirs.source_ids.contains(one) implies page.source_ids.contains(
                if ids.dom().contains(one) {
                    ids[one]
                } else {
                    one
                },
            ) by {
                let k = theirs.source_ids.index_of(one);
                assert(cited.contains(cited[k]));
                assert(cited.to_set().contains(cited[k]));
                assert(page.source_ids.to_set().contains(cited[k]));
            }
            assert forall|id: i64| #[trigger] page.source_ids.contains(id) implies exists|one: i64|
             #[trigger]
                theirs.source_ids.contains(one) && id == (if ids.dom().contains(one) {
                    ids[one]
                } else {
                    one
                }) by {
                assert(page.source_ids.to_set().contains(id));
                assert(cited.to_set().contains(id));
                let k = cited.index_of(id);
                assert(theirs.source_ids.contains(theirs.source_ids[k]));
            }
        }
    }
}

proof fn lemma_pages(
    store: StoreView,
    draft: StoreView,
    segments: SegmentsView,
    slugs: Seq<Seq<char>>,
    ids: Map<i64, i64>,
    now: Seq<char>,
    count: nat,
    slug: Seq<char>,
)
    requires
        count <= slugs.len(),
        slugs.no_duplicates(),
    ensures
        sparse_merge::pages_merged(store, draft, segments, slugs, ids, now, count) matches Ok(next)
            ==> {
            &&& slugs.take(count as int).contains(slug) ==> {
                &&& draft.pages.dom().contains(slug) ==> page_arrived(
                    store,
                    next,
                    draft,
                    ids,
                    slug,
                    now,
                )
                &&& !draft.pages.dom().contains(slug) ==> !next.pages.dom().contains(slug)
            }
            &&& !slugs.take(count as int).contains(slug) ==> {
                &&& next.pages.dom().contains(slug) == store.pages.dom().contains(slug)
                &&& next.pages.dom().contains(slug) ==> next.pages[slug] == store.pages[slug]
            }
            &&& next.sources == store.sources
            &&& next.meta == store.meta
            &&& next.operations == store.operations
        },
    decreases count,
{
    if count > 0 {
        let less = (count - 1) as nat;
        lemma_pages(store, draft, segments, slugs, ids, now, less, slug);
        table::lemma_take_more(slugs, less as int);
        let last = slugs[less as int];
        if let Ok(so_far) = sparse_merge::pages_merged(
            store,
            draft,
            segments,
            slugs,
            ids,
            now,
            less,
        ) {
            lemma_page(so_far, draft, segments, last, ids, now);
            if slug == last {
                assert(!slugs.take(less as int).contains(slug)) by {
                    if slugs.take(less as int).contains(slug) {
                        let i = slugs.take(less as int).index_of(slug);
                        assert(slugs[i] == slugs[less as int]);
                    }
                }
            }
        }
    }
}

// ---------------------------------------------------------------------------
// What the other steps leave alone
// ---------------------------------------------------------------------------

proof fn lemma_placed_frame(
    live: StoreView,
    draft: StoreView,
    segments: SegmentsView,
    ids: Seq<i64>,
    now: Seq<char>,
    count: nat,
)
    requires
        count <= ids.len(),
    ensures
        sparse_merge::sources_placed(live, draft, segments, ids, now, count) matches Ok(next) ==> {
            &&& next.store.pages == live.pages
            &&& next.store.tags == live.tags
            &&& next.store.meta == live.meta
            &&& forall|k: int| 0 <= k < count ==> next.ids.dom().contains(#[trigger] ids[k])
            &&& forall|id: i64| #[trigger]
                next.ids.dom().contains(id) ==> ids.take(count as int).contains(id)
        },
    decreases count,
{
    reveal(sparse_merge::source_placed);
    if count > 0 {
        let less = (count - 1) as nat;
        lemma_placed_frame(live, draft, segments, ids, now, less);
        table::lemma_take_more(ids, less as int);
    } else {
        assert(ids.take(0) =~= Seq::empty());
    }
}

proof fn lemma_carried_frame(
    live: StoreView,
    draft: StoreView,
    operations: Seq<OperationView>,
    remaps: Seq<RemapView>,
    ids: Map<i64, i64>,
    count: nat,
)
    requires
        count <= operations.len(),
    ensures
        sparse_merge::observations_carried(live, draft, operations, remaps, ids, count) matches Ok(
            next,
        ) ==> {
            &&& next.store.pages == live.pages
            &&& next.store.tags == live.tags
            &&& next.store.meta == live.meta
            &&& next.operations.len() == count
            &&& forall|k: int|
                0 <= k < count ==> {
                    &&& (#[trigger] next.operations[k]).action == operations[k].action
                    &&& next.operations[k].target == operations[k].target
                    &&& operations[k].action != "source_add"@ ==> next.operations[k]
                        == operations[k]
                }
        },
    decreases count,
{
    if count > 0 {
        lemma_carried_frame(live, draft, operations, remaps, ids, (count - 1) as nat);
    }
}

proof fn lemma_retold_frame(operations: Seq<OperationView>, remaps: Seq<RemapView>, count: nat)
    requires
        count <= operations.len(),
    ensures
        sparse_merge::ingests_retold(operations, remaps, count) matches Ok(next) ==> {
            &&& next.len() == count
            &&& forall|k: int|
                0 <= k < count ==> {
                    &&& (#[trigger] next[k]).action == operations[k].action
                    &&& next[k].detail == operations[k].detail
                    &&& !"ingest_"@.is_prefix_of(operations[k].action) ==> next[k] == operations[k]
                }
        },
    decreases count,
{
    if count > 0 {
        lemma_retold_frame(operations, remaps, (count - 1) as nat);
    }
}

proof fn lemma_recorded_frame(
    live: StoreView,
    operations: Seq<OperationView>,
    now: Seq<char>,
    revision: Seq<char>,
    count: nat,
)
    requires
        count <= operations.len(),
    ensures
        sparse_merge::operations_recorded(live, operations, now, revision, count) matches Ok(next)
            ==> {
            &&& next.pages == live.pages
            &&& next.tags == live.tags
            &&& next.sources == live.sources
            &&& count > 0 ==> next.meta == live.meta.insert("store_revision"@, revision)
            &&& count == 0 ==> next == live
            &&& next.operations.len() == live.operations.len() + count
            &&& next.operations.take(live.operations.len() as int) == live.operations
            &&& forall|k: int|
                0 <= k < count ==> {
                    let op = #[trigger] next.operations[live.operations.len() + k];
                    &&& op.action == operations[k].action
                    &&& op.target == operations[k].target
                    &&& op.detail == operations[k].detail
                    &&& op.created_at == now
                }
        },
    decreases count,
{
    if count > 0 {
        let less = (count - 1) as nat;
        lemma_recorded_frame(live, operations, now, revision, less);
        if let Ok(next) = sparse_merge::operations_recorded(live, operations, now, revision, count) {
            let before = sparse_merge::operations_recorded(
                live,
                operations,
                now,
                revision,
                less,
            )->Ok_0;
            assert(next.operations.take(live.operations.len() as int)
                =~= before.operations.take(live.operations.len() as int));
            assert(next.meta =~= live.meta.insert("store_revision"@, revision));
            assert forall|k: int| 0 <= k < count implies {
                let op = #[trigger] next.operations[live.operations.len() + k];
                &&& op.action == operations[k].action
                &&& op.target == operations[k].target
                &&& op.detail == operations[k].detail
                &&& op.created_at == now
            } by {
                if k < less {
                    assert(next.operations[live.operations.len() + k]
                        == before.operations[live.operations.len() + k]);
                }
            }
        }
    } else {
        assert(live.operations.take(live.operations.len() as int) =~= live.operations);
    }
}

proof fn lemma_tags_frame(
    live: StoreView,
    draft: StoreView,
    operations: Seq<OperationView>,
    count: nat,
    tag: Seq<char>,
)
    requires
        count <= operations.len(),
    ensures
        sparse_merge::tags_merged(live, draft, operations, count) matches Ok(next) ==> {
            &&& next.pages == live.pages
            &&& next.sources == live.sources
            &&& next.meta == live.meta
            &&& next.operations == live.operations
            &&& (forall|k: int|
                0 <= k < count ==> !names_tag(#[trigger] operations[k], tag)) ==> {
                &&& next.tags.dom().contains(tag) == live.tags.dom().contains(tag)
                &&& next.tags.dom().contains(tag) ==> next.tags[tag] == live.tags[tag]
            }
        },
    decreases count,
{
    reveal(sparse_merge::tag_merged);
    if count > 0 {
        lemma_tags_frame(live, draft, operations, (count - 1) as nat, tag);
        if forall|k: int| 0 <= k < count ==> !names_tag(#[trigger] operations[k], tag) {
            assert(!names_tag(operations[count - 1], tag));
        }
    }
}

/// An operation changes a tag.
pub open spec fn names_tag(op: OperationView, tag: Seq<char>) -> bool {
    &&& op.action == "tag_set"@ || op.action == "tag_remove"@ || op.action == "tag_delete"@
        || op.action == "tag_autoload"@
    &&& op.detail.text_at("tag"@) == Some(tag)
}

// ---------------------------------------------------------------------------
// Merging a sparse draft
// ---------------------------------------------------------------------------

/// A sparse draft that is merged leaves every page that it put in the live store as it has it:
/// title, kind, summary, body, provenance and links. Its citations are told of the identifiers
/// of the live store, and a page that was there keeps the time of its creation. A page that it
/// removed is gone. Pages that it did not touch stay as they were, and so do tags that none of
/// its operations names. The schema and the purpose are those of the draft where it set them,
/// and else stay.
pub proof fn law_merged_draft_arrives(
    live: StoreView,
    draft: StoreView,
    segments: SegmentsView,
    begin: i64,
    validate: bool,
    now: Seq<char>,
    revision: Seq<char>,
    slug: Seq<char>,
)
    ensures
        sparse_merge::merge_goal(
            live,
            draft,
            segments,
            begin,
            validate,
            now,
            revision,
        ) matches Ok(merged) ==> {
            let next = merged.store;
            &&& touches_page(draft, begin, slug) && draft.pages.dom().contains(slug)
                ==> exists|ids: Map<i64, i64>| #[trigger]
                page_arrived(live, next, draft, ids, slug, now)
            &&& touches_page(draft, begin, slug) && !draft.pages.dom().contains(slug)
                ==> !next.pages.dom().contains(slug)
            &&& !touches_page(draft, begin, slug) ==> {
                &&& next.pages.dom().contains(slug) == live.pages.dom().contains(slug)
                &&& next.pages.dom().contains(slug) ==> next.pages[slug] == live.pages[slug]
            }
        },
{
    if let Ok(merged) = sparse_merge::merge_goal(
        live,
        draft,
        segments,
        begin,
        validate,
        now,
        revision,
    ) {
        let operations = store::operations_after(draft.operations, begin);
        lemma_touches(draft, begin, slug);
        let slugs = text::sorted(touched::page_targets(operations));
        table::lemma_texts_sorted(touched::page_targets(operations));
        assert(slugs.take(slugs.len() as int) =~= slugs);
        assert(slugs.contains(slug) == slugs.to_set().contains(slug));
        let first = sparse_merge::sources_merged(live, draft, segments, operations, now)->Ok_0;
        lemma_sources_frame(live, draft, segments, operations, now);
        let told = first.operations;
        lemma_recorded_frame(first.store, told, now, revision, told.len());
        let a = sparse_merge::operations_recorded(
            first.store,
            told,
            now,
            revision,
            told.len(),
        )->Ok_0;
        lemma_pages(a, draft, segments, slugs, first.ids, now, slugs.len(), slug);
        let b = sparse_merge::pages_merged(
            a,
            draft,
            segments,
            slugs,
            first.ids,
            now,
            slugs.len(),
        )->Ok_0;
        lemma_tags_frame(b, draft, told, told.len(), slug);
        assert(merged.store.pages == b.pages);
        if slugs.contains(slug) && draft.pages.dom().contains(slug) {
            assert(page_arrived(a, b, draft, first.ids, slug, now));
            assert(page_arrived(live, merged.store, draft, first.ids, slug, now));
        }
    }
}

proof fn lemma_sources_frame(
    live: StoreView,
    draft: StoreView,
    segments: SegmentsView,
    operations: Seq<OperationView>,
    now: Seq<char>,
)
    ensures
        sparse_merge::sources_merged(live, draft, segments, operations, now) matches Ok(first)
            ==> {
            &&& first.store.pages == live.pages
            &&& first.store.tags == live.tags
            &&& first.store.meta == live.meta
            &&& first.operations.len() == operations.len()
            &&& forall|k: int|
                0 <= k < operations.len() ==> {
                    &&& (#[trigger] first.operations[k]).action == operations[k].action
                    &&& operations[k].action != "source_add"@ && !"ingest_"@.is_prefix_of(
                        operations[k].action,
                    ) ==> first.operations[k] == operations[k]
                }
        },
{
    if let Ok(first) = sparse_merge::sources_merged(live, draft, segments, operations, now) {
        let ids = table::ordered::<i64>(touched::source_targets(operations));
        lemma_placed_frame(live, draft, segments, ids, now, ids.len());
        let placed = sparse_merge::sources_placed(
            live,
            draft,
            segments,
            ids,
            now,
            ids.len(),
        )->Ok_0;
        lemma_retold_frame(operations, placed.remaps, operations.len());
        let retold = sparse_merge::ingests_retold(
            operations,
            placed.remaps,
            operations.len(),
        )->Ok_0;
        lemma_carried_frame(
            placed.store,
            draft,
            retold,
            placed.remaps,
            placed.ids,
            retold.len(),
        );
    }
}

/// What a published sparse draft leaves: the same, by way of publishing.
pub proof fn law_published_draft_arrives(
    live: StoreView,
    draft: StoreView,
    segments: SegmentsView,
    entries: Set<PairView>,
    input: PublishView,
    now: Seq<char>,
    revision: Seq<char>,
    slug: Seq<char>,
)
    requires
        store::meta_value(draft, "changeset_storage"@) == Some("sparse-v1"@),
    ensures
        publish::publish_goal(
            live,
            draft,
            segments,
            entries,
            input,
            now,
            revision,
        ) matches Ok(done) ==> {
            let begin = draft.changesets[input.id].begin_operation_id;
            let next = done.store;
            &&& touches_page(draft, begin, slug) && draft.pages.dom().contains(slug) ==> {
                let theirs = draft.pages[slug];
                &&& next.pages.dom().contains(slug)
                &&& next.pages[slug].title == theirs.title
                &&& next.pages[slug].kind == theirs.kind
                &&& next.pages[slug].summary == theirs.summary
                &&& next.pages[slug].body == theirs.body
                &&& next.pages[slug].provenance == theirs.provenance
                &&& next.pages[slug].links == theirs.links
                &&& next.pages[slug].updated_at == now
                &&& live.pages.dom().contains(slug) ==> next.pages[slug].created_at
                    == live.pages[slug].created_at
                &&& !live.pages.dom().contains(slug) ==> next.pages[slug].created_at
                    == theirs.created_at
            }
            &&& touches_page(draft, begin, slug) && !draft.pages.dom().contains(slug)
                ==> !next.pages.dom().contains(slug)
            &&& !touches_page(draft, begin, slug) ==> {
                &&& next.pages.dom().contains(slug) == live.pages.dom().contains(slug)
                &&& next.pages.dom().contains(slug) ==> next.pages[slug] == live.pages[slug]
            }
        },
{
    if let Ok(done) = publish::publish_goal(
        live,
        draft,
        segments,
        entries,
        input,
        now,
        revision,
    ) {
        let begin = draft.changesets[input.id].begin_operation_id;
        law_merged_draft_arrives(live, draft, segments, begin, true, now, revision, slug);
        let merged = sparse_merge::merge_goal(
            live,
            draft,
            segments,
            begin,
            true,
            now,
            revision,
        )->Ok_0;
        assert(done.store.pages == merged.store.pages);
    }
}

/// The schema and the purpose are those of the draft where it set them, and else stay.
pub proof fn law_published_meta_arrives(
    live: StoreView,
    draft: StoreView,
    segments: SegmentsView,
    begin: i64,
    validate: bool,
    now: Seq<char>,
    revision: Seq<char>,
    op: OperationView,
)
    requires
        live.meta.dom().contains("schema"@),
        live.meta.dom().contains("purpose"@),
    ensures
        sparse_merge::merge_goal(
            live,
            draft,
            segments,
            begin,
            validate,
            now,
            revision,
        ) matches Ok(merged) ==> {
            let meta = merged.store.meta;
            &&& is_staged(draft, begin, op) && op.action == "schema_set"@ ==> {
                &&& draft.meta.dom().contains("schema"@)
                &&& meta["schema"@] == draft.meta["schema"@]
            }
            &&& is_staged(draft, begin, op) && op.action == "purpose_set"@ ==> {
                &&& draft.meta.dom().contains("purpose"@)
                &&& meta["purpose"@] == draft.meta["purpose"@]
            }
            &&& (forall|one: OperationView| #[trigger]
                is_staged(draft, begin, one) ==> one.action != "schema_set"@) ==> meta["schema"@]
                == live.meta["schema"@]
            &&& (forall|one: OperationView| #[trigger]
                is_staged(draft, begin, one) ==> one.action != "purpose_set"@) ==> meta["purpose"@]
                == live.meta["purpose"@]
            &&& forall|key: Seq<char>|
                key != "schema"@ && key != "purpose"@ && key != "store_revision"@ ==> {
                    &&& #[trigger] meta.dom().contains(key) == live.meta.dom().contains(key)
                    &&& meta.dom().contains(key) ==> meta[key] == live.meta[key]
                }
        },
{
    if let Ok(merged) = sparse_merge::merge_goal(
        live,
        draft,
        segments,
        begin,
        validate,
        now,
        revision,
    ) {
        reveal_strlit("schema");
        reveal_strlit("purpose");
        reveal_strlit("store_revision");
        assert("schema"@.len() == 6 && "purpose"@.len() == 7 && "store_revision"@.len() == 14);
        let operations = store::operations_after(draft.operations, begin);
        lemma_sources_frame(live, draft, segments, operations, now);
        let first = sparse_merge::sources_merged(live, draft, segments, operations, now)->Ok_0;
        let told = first.operations;
        lemma_recorded_frame(first.store, told, now, revision, told.len());
        let a = sparse_merge::operations_recorded(
            first.store,
            told,
            now,
            revision,
            told.len(),
        )->Ok_0;
        let slugs = text::sorted(touched::page_targets(operations));
        lemma_page_targets(operations, Seq::empty());
        table::lemma_texts_sorted(touched::page_targets(operations));
        lemma_pages(a, draft, segments, slugs, first.ids, now, slugs.len(), Seq::empty());
        let b = sparse_merge::pages_merged(
            a,
            draft,
            segments,
            slugs,
            first.ids,
            now,
            slugs.len(),
        )->Ok_0;
        lemma_tags_frame(b, draft, told, told.len(), Seq::empty());
        lemma_action(draft, begin, operations, told, "schema_set"@);
        lemma_action(draft, begin, operations, told, "purpose_set"@);
        lemma_after(draft.operations, begin, op);
    }
}

proof fn lemma_action(
    draft: StoreView,
    begin: i64,
    operations: Seq<OperationView>,
    told: Seq<OperationView>,
    action: Seq<char>,
)
    requires
        operations == store::operations_after(draft.operations, begin),
        told.len() == operations.len(),
        forall|k: int|
            0 <= k < operations.len() ==> (#[trigger] told[k]).action == operations[k].action,
    ensures
        sparse_merge::has_action(told, action) <==> exists|one: OperationView| #[trigger]
            is_staged(draft, begin, one) && one.action == action,
{
    if sparse_merge::has_action(told, action) {
        let k = choose|k: int| 0 <= k < told.len() && (#[trigger] told[k]).action == action;
        lemma_after(draft.operations, begin, operations[k]);
        assert(operations.contains(operations[k]));
        assert(is_staged(draft, begin, operations[k]));
    }
    if exists|one: OperationView| #[trigger]
        is_staged(draft, begin, one) && one.action == action {
        let one = choose|one: OperationView| #[trigger]
            is_staged(draft, begin, one) && one.action == action;
        lemma_after(draft.operations, begin, one);
        let k = operations.index_of(one);
        assert(told[k].action == action);
    }
}

/// A tag that no operation of the draft names stays as it was.
pub proof fn law_other_tags_stay(
    live: StoreView,
    draft: StoreView,
    segments: SegmentsView,
    begin: i64,
    validate: bool,
    now: Seq<char>,
    revision: Seq<char>,
    tag: Seq<char>,
)
    requires
        forall|op: OperationView| #[trigger] is_staged(draft, begin, op) ==> !names_tag(op, tag),
    ensures
        sparse_merge::merge_goal(
            live,
            draft,
            segments,
            begin,
            validate,
            now,
            revision,
        ) matches Ok(merged) ==> {
            &&& merged.store.tags.dom().contains(tag) ==> live.tags.dom().contains(tag)
            &&& merged.store.tags.dom().contains(tag) ==> merged.store.tags[tag].policy
                == live.tags[tag].policy
        },
{
    if let Ok(merged) = sparse_merge::merge_goal(
        live,
        draft,
        segments,
        begin,
        validate,
        now,
        revision,
    ) {
        let operations = store::operations_after(draft.operations, begin);
        lemma_sources_frame(live, draft, segments, operations, now);
        let first = sparse_merge::sources_merged(live, draft, segments, operations, now)->Ok_0;
        let told = first.operations;
        lemma_recorded_frame(first.store, told, now, revision, told.len());
        let a = sparse_merge::operations_recorded(
            first.store,
            told,
            now,
            revision,
            told.len(),
        )->Ok_0;
        let slugs = text::sorted(touched::page_targets(operations));
        lemma_pages_tags(a, draft, segments, slugs, first.ids, now, slugs.len(), tag);
        let b = sparse_merge::pages_merged(
            a,
            draft,
            segments,
            slugs,
            first.ids,
            now,
            slugs.len(),
        )->Ok_0;
        lemma_tag_actions();
        assert forall|k: int| 0 <= k < told.len() implies !names_tag(#[trigger] told[k], tag) by {
            if names_tag(told[k], tag) {
                lemma_after(draft.operations, begin, operations[k]);
                assert(operations.contains(operations[k]));
                assert(told[k] == operations[k]);
                assert(is_staged(draft, begin, operations[k]));
            }
        }
        lemma_tags_frame(b, draft, told, told.len(), tag);
    }
}

proof fn lemma_tag_actions()
    ensures
        !"ingest_"@.is_prefix_of("tag_set"@) && "tag_set"@ != "source_add"@,
        !"ingest_"@.is_prefix_of("tag_remove"@) && "tag_remove"@ != "source_add"@,
        !"ingest_"@.is_prefix_of("tag_delete"@) && "tag_delete"@ != "source_add"@,
        !"ingest_"@.is_prefix_of("tag_autoload"@) && "tag_autoload"@ != "source_add"@,
{
    reveal_strlit("ingest_");
    reveal_strlit("source_add");
    reveal_strlit("tag_set");
    reveal_strlit("tag_remove");
    reveal_strlit("tag_delete");
    reveal_strlit("tag_autoload");
    assert("ingest_"@.len() == 7 && "ingest_"@[0] == 'i');
    assert("source_add"@[0] == 's');
    assert("tag_set"@[0] == 't');
    assert("tag_remove"@[0] == 't');
    assert("tag_delete"@[0] == 't');
    assert("tag_autoload"@[0] == 't');
}

proof fn lemma_pages_tags(
    store: StoreView,
    draft: StoreView,
    segments: SegmentsView,
    slugs: Seq<Seq<char>>,
    ids: Map<i64, i64>,
    now: Seq<char>,
    count: nat,
    tag: Seq<char>,
)
    requires
        count <= slugs.len(),
    ensures
        sparse_merge::pages_merged(store, draft, segments, slugs, ids, now, count) matches Ok(next)
            ==> {
            &&& next.tags.dom().contains(tag) == store.tags.dom().contains(tag)
            &&& next.tags.dom().contains(tag) ==> next.tags[tag].policy == store.tags[tag].policy
        },
    decreases count,
{
    reveal(sparse_merge::page_merged);
    if count > 0 {
        lemma_pages_tags(store, draft, segments, slugs, ids, now, (count - 1) as nat, tag);
    }
}

/// What one operation of a draft on a tag does to the live store: a page that the draft has in
/// the tag is in it as the draft has it, a page that was taken out is not in it, a tag that was
/// deleted is gone, and the policy of a tag is that of the draft where it was set. Other tags,
/// and other pages of the tag, stay.
pub proof fn law_tag_operation_arrives(store: StoreView, draft: StoreView, op: OperationView)
    ensures
        sparse_merge::tag_merged(store, draft, op) matches Ok(next) ==> {
            let tag = op.detail.text_at("tag"@);
            let page = op.detail.text_at("page"@);
            &&& op.action == "tag_set"@ && tag is Some && page is Some && draft.tags.dom().contains(
                tag->0,
            ) && draft.tags[tag->0].members.dom().contains(page->0) ==> {
                &&& next.tags.dom().contains(tag->0)
                &&& next.tags[tag->0].members.dom().contains(page->0)
                &&& next.tags[tag->0].members[page->0] == draft.tags[tag->0].members[page->0]
                &&& store.pages.dom().contains(page->0)
                &&& store.tags.dom().contains(tag->0) ==> next.tags[tag->0].policy
                    == store.tags[tag->0].policy
                &&& !store.tags.dom().contains(tag->0) ==> next.tags[tag->0].policy
                    == draft.tags[tag->0].policy
            }
            &&& op.action == "tag_remove"@ && tag is Some && page is Some
                && next.tags.dom().contains(tag->0) ==> {
                &&& !next.tags[tag->0].members.dom().contains(page->0)
                &&& next.tags[tag->0].policy == store.tags[tag->0].policy
            }
            &&& op.action == "tag_delete"@ && tag is Some ==> !next.tags.dom().contains(tag->0)
            &&& op.action == "tag_autoload"@ && tag is Some ==> {
                &&& next.tags.dom().contains(tag->0)
                &&& draft.tags.dom().contains(tag->0)
                &&& next.tags[tag->0].policy == draft.tags[tag->0].policy
                &&& next.tags[tag->0].members == store.tags[tag->0].members
            }
            &&& forall|other: Seq<char>|
                Some(other) != tag ==> {
                    &&& #[trigger] next.tags.dom().contains(other) == store.tags.dom().contains(
                        other,
                    )
                    &&& next.tags.dom().contains(other) ==> next.tags[other] == store.tags[other]
                }
            &&& tag is Some && page is Some && store.tags.dom().contains(tag->0)
                && next.tags.dom().contains(tag->0) ==> forall|other: Seq<char>|
                other != page->0 ==> {
                    &&& #[trigger] next.tags[tag->0].members.dom().contains(other)
                        == store.tags[tag->0].members.dom().contains(other)
                    &&& next.tags[tag->0].members.dom().contains(other)
                        ==> next.tags[tag->0].members[other] == store.tags[tag->0].members[other]
                }
            &&& next.pages == store.pages
            &&& next.sources == store.sources
        },
{
    reveal(sparse_merge::tag_merged);
    reveal_strlit("tag_set");
    reveal_strlit("tag_remove");
    reveal_strlit("tag_delete");
    reveal_strlit("tag_autoload");
    assert("tag_set"@.len() == 7);
    assert("tag_remove"@.len() == 10 && "tag_remove"@[4] == 'r');
    assert("tag_delete"@.len() == 10 && "tag_delete"@[4] == 'd');
    assert("tag_autoload"@.len() == 12);
}

/// Where a source of a draft goes: a content that the live store has is not kept twice, and
/// stands under its identifier there. Else the source arrives as the draft has it, under its own
/// identifier where that is free, with the job that the draft has for it. The caller is told
/// where it moved, or that it was known.
pub proof fn law_source_arrives(
    so_far: PlacedView,
    draft: StoreView,
    segments: SegmentsView,
    id: i64,
    now: Seq<char>,
)
    requires
        so_far.store.sources.dom().finite(),
    ensures
        sparse_merge::source_placed(so_far, draft, segments, id, now) matches Ok(next) ==> {
            let at = next.ids[id];
            let known = exists|other: i64| #[trigger]
                so_far.store.sources.dom().contains(other) && so_far.store.sources[other].content_hash
                    == draft.sources[id].content_hash;
            &&& draft.sources.dom().contains(id)
            &&& next.ids.dom().contains(id)
            &&& next.store.sources.dom().contains(at)
            &&& next.store.sources[at].content_hash == draft.sources[id].content_hash
            &&& next.store.ingest_jobs.dom().contains(at)
            &&& known ==> next.store.sources == so_far.store.sources
            &&& !known ==> {
                &&& next.store.sources == so_far.store.sources.insert(at, draft.sources[id])
                &&& !so_far.store.sources.dom().contains(id) ==> at == id
                &&& draft.ingest_jobs.dom().contains(id) ==> next.store.ingest_jobs[at]
                    == draft.ingest_jobs[id]
            }
            &&& known || at != id ==> {
                &&& next.remaps.len() == so_far.remaps.len() + 1
                &&& next.remaps.last() == (RemapView { draft_id: id, live_id: at, created: !known })
            }
            &&& !known && at == id ==> next.remaps == so_far.remaps
            &&& next.store.pages == so_far.store.pages
        },
        !draft.sources.dom().contains(id) ==> sparse_merge::source_placed(
            so_far,
            draft,
            segments,
            id,
            now,
        ) is Err,
{
    reveal(sparse_merge::source_placed);
    if draft.sources.dom().contains(id) {
        let hash = draft.sources[id].content_hash;
        let order = table::ordered::<i64>(so_far.store.sources.dom());
        table::lemma_has_order::<i64>(so_far.store.sources.dom());
        lemma_first_hash(so_far.store, order, hash);
        assert forall|other: i64| #[trigger]
            so_far.store.sources.dom().contains(other) && so_far.store.sources[other].content_hash
                == hash implies sources::source_with_hash(so_far.store, hash) is Some by {
            assert(order.to_set().contains(other));
            let k = order.index_of(other);
            assert(so_far.store.sources[order[k]].content_hash == hash);
        }
        if let Some(found) = sources::source_with_hash(so_far.store, hash) {
            assert(order.to_set().contains(found));
            assert(so_far.store.sources.dom().contains(found));
        }
    }
}

proof fn lemma_first_hash(store: StoreView, order: Seq<i64>, hash: Seq<char>)
    ensures
        sources::first_with_hash(store.sources, order, hash) is Some <==> exists|k: int|
            0 <= k < order.len() && store.sources[#[trigger] order[k]].content_hash == hash,
        sources::first_with_hash(store.sources, order, hash) matches Some(found)
            ==> order.contains(found) && store.sources[found].content_hash == hash,
    decreases order.len(),
{
    if order.len() > 0 && store.sources[order[0]].content_hash != hash {
        let rest = order.drop_first();
        lemma_first_hash(store, rest, hash);
        if sources::first_with_hash(store.sources, order, hash) is Some {
            let found = sources::first_with_hash(store.sources, order, hash)->0;
            let k = rest.index_of(found);
            assert(order[k + 1] == found);
        }
        if exists|k: int|
            0 <= k < order.len() && store.sources[#[trigger] order[k]].content_hash == hash {
            let k = choose|k: int|
                0 <= k < order.len() && store.sources[#[trigger] order[k]].content_hash == hash;
            assert(rest[k - 1] == order[k]);
        }
    }
}

// ---------------------------------------------------------------------------
// What is refused
// ---------------------------------------------------------------------------

/// A draft is merged only where no page that it touched has moved on in the live store: the page
/// is there as it was when the draft first touched it, or still is not.
pub proof fn law_moved_pages_stop_a_draft(
    live: StoreView,
    draft: StoreView,
    segments: SegmentsView,
    begin: i64,
    validate: bool,
    now: Seq<char>,
    revision: Seq<char>,
    slug: Seq<char>,
)
    requires
        touches_page(draft, begin, slug),
    ensures
        ({
            let base = store::meta_value(draft, "changeset_base_page:"@ + slug);
            let absent = base is None || base == Some("absent"@);
            let merged = sparse_merge::merge_goal(
                live,
                draft,
                segments,
                begin,
                validate,
                now,
                revision,
            );
            merged is Ok ==> {
                &&& absent ==> !live.pages.dom().contains(slug)
                &&& !absent ==> live.pages.dom().contains(slug) && base == Some(
                    pages::page_mark(live.pages[slug]),
                )
                &&& draft.pages.dom().contains(slug) || live.pages.dom().contains(slug)
            }
        }),
{
    let operations = store::operations_after(draft.operations, begin);
    lemma_touches(draft, begin, slug);
    let slugs = text::sorted(touched::page_targets(operations));
    table::lemma_texts_sorted(touched::page_targets(operations));
    assert(slugs.to_set().contains(slug));
    if sparse_merge::merge_goal(live, draft, segments, begin, validate, now, revision) is Ok {
        lemma_no_page_obstacle(live, draft, slugs, slugs.index_of(slug));
    }
}

proof fn lemma_no_page_obstacle(live: StoreView, draft: StoreView, slugs: Seq<Seq<char>>, k: int)
    requires
        0 <= k < slugs.len(),
        sparse_merge::page_obstacles(live, draft, slugs) is None,
    ensures
        sparse_merge::page_obstacle(live, draft, slugs[k]) is None,
    decreases slugs.len(),
{
    if k > 0 {
        assert(slugs.drop_first()[k - 1] == slugs[k]);
        lemma_no_page_obstacle(live, draft, slugs.drop_first(), k - 1);
    }
}

/// When a path was seen to show a source is told by the first entry of its log for that
/// revision and source.
pub proof fn law_first_observation_counts(
    log: Seq<PathRevisionView>,
    revision: i64,
    source_id: i64,
)
    ensures
        sparse_merge::observed_at(log, revision, source_id) is None <==> forall|k: int|
            0 <= k < log.len() ==> (#[trigger] log[k]).revision != revision || log[k].source_id
                != source_id,
        sparse_merge::observed_at(log, revision, source_id) matches Some(at) ==> exists|k: int| {
            &&& 0 <= k < log.len()
            &&& (#[trigger] log[k]).revision == revision
            &&& log[k].source_id == source_id
            &&& log[k].observed_at == at
            &&& forall|j: int|
                0 <= j < k ==> (#[trigger] log[j]).revision != revision || log[j].source_id
                    != source_id
        },
    decreases log.len(),
{
    if log.len() > 0 {
        let rest = log.drop_first();
        law_first_observation_counts(rest, revision, source_id);
        if log[0].revision == revision && log[0].source_id == source_id {
            assert(log[0].observed_at == log[0].observed_at);
        } else {
            if let Some(at) = sparse_merge::observed_at(rest, revision, source_id) {
                let k = choose|k: int| {
                    &&& 0 <= k < rest.len()
                    &&& (#[trigger] rest[k]).revision == revision
                    &&& rest[k].source_id == source_id
                    &&& rest[k].observed_at == at
                    &&& forall|j: int|
                        0 <= j < k ==> (#[trigger] rest[j]).revision != revision
                            || rest[j].source_id != source_id
                };
                assert(log[k + 1] == rest[k]);
                assert forall|j: int| 0 <= j < k + 1 implies (#[trigger] log[j]).revision
                    != revision || log[j].source_id != source_id by {
                    if j > 0 {
                        assert(rest[j - 1] == log[j]);
                    }
                }
            } else {
                assert forall|k: int| 0 <= k < log.len() implies (#[trigger] log[k]).revision
                    != revision || log[k].source_id != source_id by {
                    if k > 0 {
                        assert(rest[k - 1] == log[k]);
                    }
                }
            }
        }
    }
}

/// The document of a source that a path shows in one of two stores and not in the other is
/// one that changed, and no other document is.
pub proof fn law_changed_heads(
    live: StoreView,
    other: StoreView,
    path: Seq<char>,
    document: PairView,
)
    requires
        live.paths.dom().finite(),
        other.paths.dom().finite(),
    ensures
        sources::path_head(live, path) != sources::path_head(other, path) ==> {
            &&& sources::path_head(live, path) matches Some(id) ==> publish::changed_heads(
                live,
                other,
            ).contains(PairView { first: "source"@, second: text::decimal(id as int) })
            &&& sources::path_head(other, path) matches Some(id) ==> publish::changed_heads(
                live,
                other,
            ).contains(PairView { first: "source"@, second: text::decimal(id as int) })
        },
        publish::changed_heads(live, other).contains(document) ==> exists|one: Seq<char>| {
            let a = #[trigger] sources::path_head(live, one);
            let b = sources::path_head(other, one);
            &&& a != b
            &&& document == sources::source_document(a->0) && a is Some || document
                == sources::source_document(b->0) && b is Some
        },
{
    let all = live.paths.dom() + other.paths.dom();
    table::lemma_has_order::<String>(all);
    let paths = table::ordered::<String>(all);
    lemma_heads(live, other, paths, paths.len());
    if sources::path_head(live, path) != sources::path_head(other, path) {
        assert(all.contains(path));
        assert(paths.to_set().contains(path));
        let k = paths.index_of(path);
        assert(paths[k] == path);
    }
    if publish::changed_heads(live, other).contains(document) {
        let k = choose|k: int| {
            let a = sources::path_head(live, #[trigger] paths[k]);
            let b = sources::path_head(other, paths[k]);
            &&& 0 <= k < paths.len()
            &&& a != b
            &&& document == sources::source_document(a->0) && a is Some || document
                == sources::source_document(b->0) && b is Some
        };
        assert(sources::path_head(live, paths[k]) != sources::path_head(other, paths[k]));
    }
}

proof fn lemma_heads(live: StoreView, other: StoreView, paths: Seq<Seq<char>>, count: nat)
    requires
        count <= paths.len(),
    ensures
        forall|k: int|
            0 <= k < count && sources::path_head(live, #[trigger] paths[k]) != sources::path_head(
                other,
                paths[k],
            ) ==> {
                &&& sources::path_head(live, paths[k]) matches Some(id) ==> publish::head_pairs(
                    live,
                    other,
                    paths,
                    count,
                ).contains(sources::source_document(id))
                &&& sources::path_head(other, paths[k]) matches Some(id) ==> publish::head_pairs(
                    live,
                    other,
                    paths,
                    count,
                ).contains(sources::source_document(id))
            },
        forall|document: PairView| #[trigger]
            publish::head_pairs(live, other, paths, count).contains(document) ==> exists|k: int| {
                let a = sources::path_head(live, #[trigger] paths[k]);
                let b = sources::path_head(other, paths[k]);
                &&& 0 <= k < count
                &&& a != b
                &&& document == sources::source_document(a->0) && a is Some || document
                    == sources::source_document(b->0) && b is Some
            },
    decreases count,
{
    if count > 0 {
        lemma_heads(live, other, paths, (count - 1) as nat);
        let head = publish::head_pairs(live, other, paths, (count - 1) as nat);
        let all = publish::head_pairs(live, other, paths, count);
        assert forall|document: PairView| #[trigger] all.contains(document) implies exists|k: int| {
            let a = sources::path_head(live, #[trigger] paths[k]);
            let b = sources::path_head(other, paths[k]);
            &&& 0 <= k < count
            &&& a != b
            &&& document == sources::source_document(a->0) && a is Some || document
                == sources::source_document(b->0) && b is Some
        } by {
            if head.contains(document) {
                let k = choose|k: int| {
                    let a = sources::path_head(live, #[trigger] paths[k]);
                    let b = sources::path_head(other, paths[k]);
                    &&& 0 <= k < count - 1
                    &&& a != b
                    &&& document == sources::source_document(a->0) && a is Some || document
                        == sources::source_document(b->0) && b is Some
                };
                assert(sources::path_head(live, paths[k]) != sources::path_head(other, paths[k]));
            } else {
                assert(sources::path_head(live, paths[count - 1]) != sources::path_head(
                    other,
                    paths[count - 1],
                ));
            }
        }
    }
}

/// The documents of sources and of pages are those of the ones that are listed.
pub proof fn law_documents_of_a_list(
    ids: Seq<i64>,
    slugs: Seq<Seq<char>>,
    document: PairView,
)
    ensures
        publish::source_pairs(ids).contains(document) <==> exists|k: int|
            0 <= k < ids.len() && document == (PairView {
                first: "source"@,
                second: text::decimal(#[trigger] ids[k] as int),
            }),
        publish::page_pairs(slugs).contains(document) <==> exists|k: int|
            0 <= k < slugs.len() && document == (PairView {
                first: "page"@,
                second: #[trigger] slugs[k],
            }),
    decreases ids.len() + slugs.len(),
{
    if ids.len() > 0 {
        let head = ids.drop_last();
        law_documents_of_a_list(head, slugs, document);
        assert forall|k: int| 0 <= k < head.len() implies head[k] == ids[k] by {}
        if publish::source_pairs(ids).contains(document) {
            if publish::source_pairs(head).contains(document) {
                let k = choose|k: int|
                    0 <= k < head.len() && document == (PairView {
                        first: "source"@,
                        second: text::decimal(#[trigger] head[k] as int),
                    });
                assert(ids[k] == head[k]);
            } else {
                assert(ids[ids.len() - 1] == ids.last());
            }
        }
        if exists|k: int|
            0 <= k < ids.len() && document == (PairView {
                first: "source"@,
                second: text::decimal(#[trigger] ids[k] as int),
            }) {
            let k = choose|k: int|
                0 <= k < ids.len() && document == (PairView {
                    first: "source"@,
                    second: text::decimal(#[trigger] ids[k] as int),
                });
            if k < head.len() {
                assert(head[k] == ids[k]);
            }
        }
    }
    if slugs.len() > 0 {
        let head = slugs.drop_last();
        law_documents_of_a_list(ids, head, document);
        if publish::page_pairs(slugs).contains(document) {
            if publish::page_pairs(head).contains(document) {
                let k = choose|k: int|
                    0 <= k < head.len() && document == (PairView {
                        first: "page"@,
                        second: #[trigger] head[k],
                    });
                assert(slugs[k] == head[k]);
            } else {
                assert(slugs[slugs.len() - 1] == slugs.last());
            }
        }
        if exists|k: int|
            0 <= k < slugs.len() && document == (PairView {
                first: "page"@,
                second: #[trigger] slugs[k],
            }) {
            let k = choose|k: int|
                0 <= k < slugs.len() && document == (PairView {
                    first: "page"@,
                    second: #[trigger] slugs[k],
                });
            if k < head.len() {
                assert(head[k] == slugs[k]);
            }
        }
    }
}

} // verus!
