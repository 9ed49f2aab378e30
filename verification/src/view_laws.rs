//! What a store shows of what it keeps.
use crate::artifacts;
use crate::artifacts::DefaultsView;
use crate::changesets;
use crate::checkpoints;
use crate::digest;
use crate::discussion_book::{DiscussionApplied, InputView};
use crate::discussion_store;
use crate::error::{AppError, AppErrorView, ErrorCode};
use crate::file_laws;
use crate::ingest;
use crate::json;
use crate::json::JsonView;
use crate::maintenance;
use crate::pages;
use crate::paging;
use crate::paging::{Rank, RankView};
use crate::retrieval;
use crate::search;
use crate::sources;
use crate::sources::{AddedSourceView, SourceAddInput, SourceAddView};
use crate::spans::SpanRecordView;
use crate::spans;
use crate::store::{IdentityView, StoreView};
use crate::sync_resolve;
use crate::sync_state;
use crate::sync_state::ObjectRowView;
use crate::table;
use crate::table::{PairView, TripleView};
use crate::text;
use vstd::prelude::*;

verus! {

// ---------------------------------------------------------------------------
// Spans
// ---------------------------------------------------------------------------

proof fn lemma_children(store: StoreView, parent: Seq<char>)
    requires
        store.spans.dom().finite(),
    ensures
        forall|k: int|
            0 <= k < spans::children_of(store, parent).len() ==> {
                let rank = #[trigger] spans::children_of(store, parent)[k];
                &&& store.spans.dom().contains(rank.id)
                &&& store.spans[rank.id].parent_identifier == parent
                &&& store.spans[rank.id].active
                &&& store.spans[rank.id].ordinal == rank.ordinal
            },
        forall|id: Seq<char>| #[trigger]
            store.spans.dom().contains(id) && store.spans[id].parent_identifier == parent
                && store.spans[id].active ==> exists|k: int|
                0 <= k < spans::children_of(store, parent).len() && (
                #[trigger] spans::children_of(store, parent)[k]).id == id,
        forall|i: int, j: int|
            0 <= i < j < spans::children_of(store, parent).len() ==> (
            #[trigger] spans::children_of(store, parent)[i]).ordinal <= (
            #[trigger] spans::children_of(store, parent)[j]).ordinal,
{
    let set = Set::new(
        |rank: RankView|
            {
                &&& store.spans.dom().contains(rank.id)
                &&& store.spans[rank.id].parent_identifier == parent
                &&& store.spans[rank.id].active
                &&& store.spans[rank.id].ordinal == rank.ordinal
            },
    );
    let rank_of = |id: Seq<char>| RankView { ordinal: store.spans[id].ordinal as int, id };
    let all = store.spans.dom().map(rank_of);
    store.spans.dom().lemma_map_finite(rank_of);
    assert forall|rank: RankView| set.contains(rank) implies all.contains(rank) by {
        assert(rank_of(rank.id) == rank);
        assert(store.spans.dom().contains(rank.id));
    }
    vstd::set_lib::lemma_set_subset_finite(all, set);
    table::lemma_has_order::<Rank>(set);
    let list = spans::children_of(store, parent);
    assert(list == table::ordered::<Rank>(set));
    assert forall|k: int| 0 <= k < list.len() implies set.contains(#[trigger] list[k]) by {
        assert(list.to_set().contains(list[k]));
    }
    assert forall|id: Seq<char>| #[trigger]
        store.spans.dom().contains(id) && store.spans[id].parent_identifier == parent
            && store.spans[id].active implies exists|k: int|
        0 <= k < list.len() && (#[trigger] list[k]).id == id by {
        assert(set.contains(rank_of(id)));
        assert(list.to_set().contains(rank_of(id)));
        let k = list.index_of(rank_of(id));
        assert(list[k].id == id);
    }
    assert forall|i: int, j: int| 0 <= i < j < list.len() implies (#[trigger] list[i]).ordinal <= (
    #[trigger] list[j]).ordinal by {
        assert(<Rank as table::TableKey>::precedes(list[i], list[j]));
    }
}

proof fn lemma_records(store: StoreView, ids: Seq<Seq<char>>, version: i64, count: nat)
    requires
        count <= ids.len(),
    ensures
        spans::span_records(store, ids, version, count) matches Ok(list) ==> {
            &&& list.len() == count
            &&& forall|k: int|
                0 <= k < count ==> spans::span_record(store, #[trigger] ids[k], version) == Ok::<
                    SpanRecordView,
                    AppErrorView,
                >(list[k])
        },
    decreases count,
{
    if count > 0 {
        lemma_records(store, ids, version, (count - 1) as nat);
    }
}

/// A span is shown with its children: the first of them in the order in which they stand, as
/// many as are asked for, and a word on whether there are more.
pub proof fn law_children_are_shown(
    store: StoreView,
    identifier: Seq<char>,
    before: usize,
    after: usize,
    child_limit: usize,
    version: i64,
    i: int,
    j: int,
)
    requires
        store.spans.dom().finite(),
    ensures
        spans::expanded(store, identifier, before, after, child_limit, version) matches Ok(
            around,
        ) ==> {
            &&& around.span.identifier == identifier
            &&& around.children.len() <= child_limit
            &&& around.children_truncated ==> around.children.len() == child_limit
            &&& 0 <= i < around.children.len() ==> {
                let child = around.children[i].identifier;
                &&& store.spans.dom().contains(child)
                &&& store.spans[child].active
                &&& store.spans[child].parent_identifier == identifier
            }
            &&& 0 <= i < j < around.children.len() ==> {
                store.spans[around.children[i].identifier].ordinal
                    <= store.spans[around.children[j].identifier].ordinal
            }
            &&& !around.children_truncated ==> forall|id: Seq<char>| #[trigger]
                store.spans.dom().contains(id) && store.spans[id].parent_identifier == identifier
                    && store.spans[id].active ==> exists|k: int|
                    0 <= k < around.children.len() && (#[trigger] around.children[k]).identifier
                        == id
        },
{
    if let Ok(around) = spans::expanded(store, identifier, before, after, child_limit, version) {
        let below = spans::children_of(store, identifier);
        let part = paging::page_of(below, 0, child_limit as nat);
        let first = part.map_values(|rank: RankView| rank.id);
        lemma_children(store, identifier);
        lemma_records(store, first, version, first.len());
        assert forall|k: int| 0 <= k < around.children.len() implies (
        #[trigger] around.children[k]).identifier == below[k].id by {
            assert(first[k] == below[k].id);
        }
        if !around.children_truncated {
            assert forall|id: Seq<char>| #[trigger]
                store.spans.dom().contains(id) && store.spans[id].parent_identifier == identifier
                    && store.spans[id].active implies exists|k: int|
                0 <= k < around.children.len() && (#[trigger] around.children[k]).identifier
                    == id by {
                let k = choose|k: int| 0 <= k < below.len() && (#[trigger] below[k]).id == id;
                assert(around.children[k].identifier == id);
            }
        }
        if 0 <= i < around.children.len() {
            assert(below[i].id == around.children[i].identifier);
        }
        if 0 <= j < around.children.len() {
            assert(below[j].id == around.children[j].identifier);
        }
    }
}

/// The siblings that a span is shown with have its parent and its kind, and the parent that it
/// is shown with is its own.
pub proof fn law_siblings_and_parent_are_shown(
    store: StoreView,
    identifier: Seq<char>,
    before: usize,
    after: usize,
    child_limit: usize,
    version: i64,
    i: int,
)
    requires
        store.spans.dom().finite(),
    ensures
        spans::expanded(store, identifier, before, after, child_limit, version) matches Ok(
            around,
        ) ==> {
            &&& 0 <= i < around.siblings.len() ==> {
                let one = around.siblings[i].identifier;
                &&& store.spans.dom().contains(one)
                &&& store.spans[one].active
                &&& store.spans[one].parent_identifier == around.span.parent_identifier
                &&& store.spans[one].span_type == around.span.span_type
            }
            &&& around.parent matches Some(parent) ==> parent.identifier
                == around.span.parent_identifier
        },
{
    if let Ok(around) = spans::expanded(store, identifier, before, after, child_limit, version) {
        let list = spans::children_of(store, around.span.parent_identifier);
        let low = spans::lowest(around.span.ordinal, before);
        let high = spans::highest(around.span.ordinal, after);
        let kind = around.span.span_type;
        let near = spans::near_spans(store, list, kind, low, high, list.len());
        lemma_children(store, around.span.parent_identifier);
        lemma_records(store, near, version, near.len());
        lemma_near(store, list, kind, low, high, list.len());
        if 0 <= i < around.siblings.len() {
            assert(near[i] == around.siblings[i].identifier);
            let n = choose|n: int|
                0 <= n < list.len() && (#[trigger] list[n]).id == near[i]
                    && store.spans[near[i]].span_type == kind;
            assert(list[n].id == near[i]);
        }
    }
}

proof fn lemma_near(
    store: StoreView,
    list: Seq<RankView>,
    kind: Seq<char>,
    low: i64,
    high: i64,
    count: nat,
)
    requires
        count <= list.len(),
    ensures
        forall|k: int|
            0 <= k < spans::near_spans(store, list, kind, low, high, count).len() ==> exists|n: int|
                0 <= n < count && (#[trigger] list[n]).id == #[trigger] spans::near_spans(
                    store,
                    list,
                    kind,
                    low,
                    high,
                    count,
                )[k] && store.spans[list[n].id].span_type == kind,
    decreases count,
{
    if count > 0 {
        lemma_near(store, list, kind, low, high, (count - 1) as nat);
        let head = spans::near_spans(store, list, kind, low, high, (count - 1) as nat);
        let all = spans::near_spans(store, list, kind, low, high, count);
        assert forall|k: int| 0 <= k < all.len() implies exists|n: int|
            0 <= n < count && (#[trigger] list[n]).id == #[trigger] all[k]
                && store.spans[list[n].id].span_type == kind by {
            if k < head.len() {
                assert(all[k] == head[k]);
                let n = choose|n: int|
                    0 <= n < count - 1 && (#[trigger] list[n]).id == head[k]
                        && store.spans[list[n].id].span_type == kind;
                assert(list[n].id == all[k]);
            } else {
                assert(list[count - 1].id == all[k]);
            }
        }
    }
}

// ---------------------------------------------------------------------------
// Lists
// ---------------------------------------------------------------------------

/// Each page of a store stands once among the pages of its graph, with the sources that it
/// cites and the pages that it links to.
pub proof fn law_pages_of_a_graph(store: StoreView, slug: Seq<char>, id: i64, target: Seq<char>)
    requires
        store.pages.dom().finite(),
        store.pages.dom().contains(slug),
    ensures
        exists|k: int| {
            &&& 0 <= k < maintenance::graph_pages(store).len()
            &&& (#[trigger] maintenance::graph_pages(store)[k]).slug == slug
            &&& maintenance::graph_pages(store)[k].title == store.pages[slug].title
            &&& maintenance::graph_pages(store)[k].kind == store.pages[slug].kind
            &&& maintenance::graph_pages(store)[k].source_ids.contains(id)
                == store.pages[slug].source_ids.contains(id)
            &&& maintenance::graph_pages(store)[k].outlinks.contains(target)
                == store.pages[slug].links.contains(target)
        },
        maintenance::graph_pages(store).len() == store.pages.dom().len(),
{
    table::lemma_has_order::<String>(store.pages.dom());
    let slugs = table::ordered::<String>(store.pages.dom());
    table::lemma_in_order_distinct::<String>(slugs);
    slugs.unique_seq_to_set();
    assert(slugs.to_set().contains(slug));
    let k = slugs.index_of(slug);
    let page = store.pages[slug];
    table::lemma_has_order::<i64>(page.source_ids.to_set());
    table::lemma_texts_sorted(page.links.to_set());
    let shown = maintenance::graph_pages(store)[k];
    assert(shown == maintenance::graph_page(store, slug));
    assert(shown.source_ids.to_set().contains(id) == page.source_ids.to_set().contains(id));
    assert(shown.outlinks.to_set().contains(target) == page.links.to_set().contains(target));
}

/// What is written out of a store holds each of its sources and each of its pages, in the order
/// of their names, and its operations; a schema or purpose that was not set is the usual one.
pub proof fn law_store_is_written_out(
    store: StoreView,
    whole: bool,
    defaults: DefaultsView,
    id: i64,
    slug: Seq<char>,
)
    requires
        store.sources.dom().finite(),
        store.pages.dom().finite(),
    ensures
        ({
            let out = artifacts::materialized(store, whole, defaults).snapshot;
            &&& out.sources.len() == store.sources.dom().len()
            &&& out.pages.len() == store.pages.dom().len()
            &&& out.operations == store.operations
            &&& store.meta.dom().contains("schema"@) ==> out.schema == store.meta["schema"@]
            &&& !store.meta.dom().contains("schema"@) ==> out.schema == defaults.schema
            &&& store.meta.dom().contains("purpose"@) ==> out.purpose == store.meta["purpose"@]
            &&& !store.meta.dom().contains("purpose"@) ==> out.purpose == defaults.purpose
            &&& store.sources.dom().contains(id) ==> exists|k: int|
                0 <= k < out.sources.len() && #[trigger] out.sources[k]
                    == artifacts::artifact_source(store, id, whole)->0
            &&& store.pages.dom().contains(slug) ==> exists|k: int|
                0 <= k < out.pages.len() && #[trigger] out.pages[k] == artifacts::artifact_page(
                    store,
                    slug,
                )->0
        }),
        artifacts::materialized(store, whole, defaults).include_raw_sources == whole,
{
    let out = artifacts::materialized(store, whole, defaults).snapshot;
    table::lemma_has_order::<i64>(store.sources.dom());
    table::lemma_has_order::<String>(store.pages.dom());
    let ids = table::ordered::<i64>(store.sources.dom());
    let slugs = table::ordered::<String>(store.pages.dom());
    table::lemma_in_order_distinct::<i64>(ids);
    table::lemma_in_order_distinct::<String>(slugs);
    ids.unique_seq_to_set();
    slugs.unique_seq_to_set();
    if store.sources.dom().contains(id) {
        assert(ids.to_set().contains(id));
        let k = ids.index_of(id);
        assert(out.sources[k] == artifacts::artifact_source(store, id, whole)->0);
    }
    if store.pages.dom().contains(slug) {
        assert(slugs.to_set().contains(slug));
        let k = slugs.index_of(slug);
        assert(out.pages[k] == artifacts::artifact_page(store, slug)->0);
    }
}

/// The weights of a target are those that a person gave it and those that an agent observed,
/// as they were given.
pub proof fn law_weights_of_a_target(
    store: StoreView,
    target_type: Seq<char>,
    plain: Seq<char>,
    provenance: Seq<char>,
)
    ensures
        ({
            let key = TripleView { first: target_type, second: plain, third: provenance };
            let shown = retrieval::weights_of(store, target_type, plain);
            (provenance == "user-provided"@ || provenance == "agent-observed"@)
                && store.weights.dom().contains(key) ==> exists|k: int| {
                &&& 0 <= k < shown.len()
                &&& (#[trigger] shown[k]).provenance == provenance
                &&& shown[k].target_type == target_type
                &&& shown[k].target_identifier == plain
                &&& shown[k].weight == store.weights[key].weight
                &&& shown[k].reason == store.weights[key].reason
                &&& shown[k].updated_at == store.weights[key].updated_at
            }
        }),
        forall|k: int|
            0 <= k < retrieval::weights_of(store, target_type, plain).len() ==> {
                let one = #[trigger] retrieval::weights_of(store, target_type, plain)[k];
                &&& one.target_type == target_type
                &&& one.target_identifier == plain
                &&& one.provenance == "user-provided"@ || one.provenance == "agent-observed"@
            },
{
    let key = TripleView { first: target_type, second: plain, third: provenance };
    let shown = retrieval::weights_of(store, target_type, plain);
    let mine = retrieval::weight_at(store, table::triple(target_type, plain, "user-provided"@));
    let theirs = retrieval::weight_at(store, table::triple(target_type, plain, "agent-observed"@));
    if store.weights.dom().contains(key) {
        if provenance == "user-provided"@ {
            assert(shown[0] == mine[0]);
        } else if provenance == "agent-observed"@ {
            assert(shown[mine.len() as int] == theirs[0]);
        }
    }
}

/// The pages of a list that are not there are those that no page is kept under.
pub proof fn law_absent_pages(store: StoreView, list: Seq<Seq<char>>, slug: Seq<char>)
    ensures
        pages::absent_among(store, list).contains(slug) <==> list.contains(slug)
            && !store.pages.dom().contains(slug),
    decreases list.len(),
{
    if list.len() > 0 {
        let head = list.drop_last();
        law_absent_pages(store, head, slug);
        let before = pages::absent_among(store, head);
        let all = pages::absent_among(store, list);
        if head.contains(slug) {
            let n = head.index_of(slug);
            assert(list[n] == slug);
        }
        if list.contains(slug) && slug != list.last() {
            let n = list.index_of(slug);
            assert(head[n] == slug);
        }
        if before.contains(slug) {
            let n = before.index_of(slug);
            assert(all[n] == slug);
        }
        if !store.pages.dom().contains(list.last()) {
            assert(all[before.len() as int] == list.last());
            if all.contains(slug) && slug != list.last() {
                let n = all.index_of(slug);
                assert(before[n] == slug);
            }
        }
        assert(list[list.len() - 1] == list.last());
    }
}

/// What was offered is taken item by item, in its order: what is nothing is passed over, and
/// the first that could not be read is answered with its error.
pub proof fn law_offers_are_taken(
    items: Seq<Result<Option<SourceAddInput>, AppError>>,
    count: nat,
    k: int,
)
    requires
        0 <= k < count <= items.len(),
    ensures
        sources::offered(items, count) matches Ok(list) ==> {
            &&& items[k] matches Ok(input)
            &&& input matches Some(source) ==> list.contains(source@)
            &&& list.len() <= count
        },
    decreases count,
{
    if let Ok(list) = sources::offered(items, count) {
        let head = sources::offered(items, (count - 1) as nat)->Ok_0;
        lemma_offers_len(items, count);
        if k < count - 1 {
            law_offers_are_taken(items, (count - 1) as nat, k);
            if let Ok(Some(source)) = items[k] {
                let n = head.index_of(source@);
                assert(list[n] == source@);
            }
        } else if let Ok(Some(source)) = items[k] {
            assert(list[head.len() as int] == source@);
        }
    }
}

proof fn lemma_offers_len(items: Seq<Result<Option<SourceAddInput>, AppError>>, count: nat)
    ensures
        sources::offered(items, count) matches Ok(list) ==> list.len() <= count,
    decreases count,
{
    if count > 0 {
        lemma_offers_len(items, (count - 1) as nat);
    }
}

/// After sources were added, each of them is to be indexed, and so is each source that a path
/// no longer shows.
pub proof fn law_documents_to_index(
    store: StoreView,
    inputs: Seq<SourceAddView>,
    added: Seq<AddedSourceView>,
    k: int,
    path: Seq<char>,
)
    ensures
        ({
            let documents = sources::documents_to_index(store, inputs, added);
            &&& 0 <= k < added.len() ==> documents.contains(
                PairView { first: "source"@, second: text::decimal(added[k].id as int) },
            )
            &&& (exists|n: int|
                0 <= n < inputs.len() && (#[trigger] inputs[n]).tracked_path == Some(path))
                && store.paths.dom().contains(path) && store.paths[path].len() >= 2
                ==> documents.contains(
                PairView {
                    first: "source"@,
                    second: text::decimal(
                        store.paths[path][store.paths[path].len() - 2].source_id as int,
                    ),
                },
            )
        }),
{
    let documents = sources::documents_to_index(store, inputs, added);
    let set = sources::touched_paths(inputs);
    let paths = text::sorted(set);
    let own = added.map_values(|one: AddedSourceView| sources::source_document(one.id));
    let more = sources::displaced_documents(store, paths, paths.len());
    if 0 <= k < added.len() {
        assert(documents[k] == own[k]);
    }
    if (exists|n: int| 0 <= n < inputs.len() && (#[trigger] inputs[n]).tracked_path == Some(path))
        && store.paths.dom().contains(path) && store.paths[path].len() >= 2 {
        let all = inputs.map_values(
            |input: SourceAddView|
                match input.tracked_path {
                    Some(one) => one,
                    None => Seq::empty(),
                },
        );
        assert forall|one: Seq<char>| set.contains(one) implies all.to_set().contains(one) by {
            let n = choose|n: int|
                0 <= n < inputs.len() && (#[trigger] inputs[n]).tracked_path == Some(one);
            assert(all[n] == one);
        }
        vstd::set_lib::lemma_set_subset_finite(all.to_set(), set);
        table::lemma_texts_sorted(set);
        assert(paths.to_set().contains(path));
        let n = paths.index_of(path);
        lemma_displaced(store, paths, paths.len(), n);
        let document = sources::source_document(
            store.paths[path][store.paths[path].len() - 2].source_id,
        );
        let m = more.index_of(document);
        assert(documents[own.len() + m] == document);
    }
}

proof fn lemma_displaced(store: StoreView, paths: Seq<Seq<char>>, count: nat, k: int)
    requires
        0 <= k < count <= paths.len(),
    ensures
        sources::displaced(store, paths[k]) matches Some(id) ==> sources::displaced_documents(
            store,
            paths,
            count,
        ).contains(sources::source_document(id)),
    decreases count,
{
    if let Some(id) = sources::displaced(store, paths[k]) {
        let head = sources::displaced_documents(store, paths, (count - 1) as nat);
        let all = sources::displaced_documents(store, paths, count);
        if k < count - 1 {
            lemma_displaced(store, paths, (count - 1) as nat, k);
            let n = head.index_of(sources::source_document(id));
            assert(all[n] == sources::source_document(id));
        } else {
            assert(all[head.len() as int] == sources::source_document(id));
        }
    }
}

/// A status of an ingest job is one of five.
pub proof fn law_statuses_are_known(status: Seq<char>)
    ensures
        ingest::status_checked(status) is Ok <==> status == "pending"@ || status == "analyzing"@
            || status == "generating"@ || status == "completed"@ || status == "failed"@,
        ingest::status_checked(status) matches Err(e) ==> e.code == ErrorCode::InvalidIngestStatus,
{
}

/// Hits of sentences and of passages are fused with their own; all others count as documents.
pub proof fn law_hits_have_a_size(result_type: Seq<char>)
    ensures
        search::granularity_of(result_type) is Sentence <==> result_type == "sentence"@,
        search::granularity_of(result_type) is Passage <==> result_type == "passage"@,
{
    reveal_strlit("sentence");
    reveal_strlit("passage");
    assert("sentence"@.len() == 8 && "passage"@.len() == 7);
}

// ---------------------------------------------------------------------------
// States and batches
// ---------------------------------------------------------------------------

proof fn lemma_rows_read(rows: Seq<ObjectRowView>, count: nat)
    requires
        count <= rows.len(),
    ensures
        sync_state::read_rows(rows, count) is Ok ==> forall|k: int|
            0 <= k < count ==> digest::text_digest((#[trigger] rows[k]).payload_json)
                == rows[k].payload_hash && json::parsed_json(rows[k].payload_json) is Ok,
        sync_state::read_rows(rows, count) matches Ok(objects) ==> forall|at: PairView| #[trigger]
            objects.dom().contains(at) <==> exists|k: int|
                0 <= k < count && (#[trigger] rows[k]).kind == at.first && rows[k].logical_key
                    == at.second,
        sync_state::read_rows(rows, count) matches Ok(objects) ==> forall|k: int|
            0 <= k < count && (forall|j: int|
                k < j < count ==> (#[trigger] rows[j]).kind != rows[k].kind || rows[j].logical_key
                    != rows[k].logical_key) ==> objects[PairView {
                first: (#[trigger] rows[k]).kind,
                second: rows[k].logical_key,
            }] == json::parsed_json(rows[k].payload_json)->Ok_0,
    decreases count,
{
    if count > 0 {
        lemma_rows_read(rows, (count - 1) as nat);
        if let Ok(objects) = sync_state::read_rows(rows, count) {
            let head = sync_state::read_rows(rows, (count - 1) as nat)->Ok_0;
            let last = rows[count - 1];
            assert forall|at: PairView| #[trigger] objects.dom().contains(at) <==> exists|k: int|
                0 <= k < count && (#[trigger] rows[k]).kind == at.first && rows[k].logical_key
                    == at.second by {
                if objects.dom().contains(at) {
                    if head.dom().contains(at) {
                        let k = choose|k: int|
                            0 <= k < count - 1 && (#[trigger] rows[k]).kind == at.first
                                && rows[k].logical_key == at.second;
                        assert(rows[k].kind == at.first);
                    } else {
                        assert(last.kind == at.first);
                    }
                }
                if exists|k: int|
                    0 <= k < count && (#[trigger] rows[k]).kind == at.first && rows[k].logical_key
                        == at.second {
                    let k = choose|k: int|
                        0 <= k < count && (#[trigger] rows[k]).kind == at.first
                            && rows[k].logical_key == at.second;
                    if k < count - 1 {
                        assert(head.dom().contains(at));
                    }
                }
            }
            assert forall|k: int|
                0 <= k < count && (forall|j: int|
                    k < j < count ==> (#[trigger] rows[j]).kind != rows[k].kind
                        || rows[j].logical_key != rows[k].logical_key) implies objects[PairView {
                first: (#[trigger] rows[k]).kind,
                second: rows[k].logical_key,
            }] == json::parsed_json(rows[k].payload_json)->Ok_0 by {
                if k < count - 1 {
                    assert(rows[count - 1].kind != rows[k].kind || rows[count - 1].logical_key
                        != rows[k].logical_key);
                }
            }
        }
    }
}

/// The rows of a state are read only where each payload has the digest that is said of it, and
/// is one. The objects are those of the rows, by kind and key.
pub proof fn law_rows_are_read(rows: Seq<ObjectRowView>, k: int, at: PairView)
    requires
        0 <= k < rows.len(),
        forall|i: int, j: int|
            0 <= i < j < rows.len() ==> (#[trigger] rows[i]).kind != (#[trigger] rows[j]).kind
                || rows[i].logical_key != rows[j].logical_key,
    ensures
        sync_state::read_rows(rows, rows.len()) matches Ok(objects) ==> {
            let own = PairView { first: rows[k].kind, second: rows[k].logical_key };
            &&& digest::text_digest(rows[k].payload_json) == rows[k].payload_hash
            &&& objects.dom().contains(own)
            &&& json::parsed_json(rows[k].payload_json) == Ok::<JsonView, Seq<char>>(objects[own])
            &&& objects.dom().contains(at) ==> exists|n: int|
                0 <= n < rows.len() && (#[trigger] rows[n]).kind == at.first && rows[n].logical_key
                    == at.second
        },
{
    lemma_rows_read(rows, rows.len());
    if let Ok(objects) = sync_state::read_rows(rows, rows.len()) {
        assert(rows[k].kind == rows[k].kind);
        assert(digest::text_digest(rows[k].payload_json) == rows[k].payload_hash);
    }
}

/// One conflict always fits in a batch that asks for decisions, twenty are the most, and what
/// fits still fits with fewer.
pub proof fn law_batches_of_conflicts(conflicts: Seq<JsonView>, count: nat, fewer: nat)
    ensures
        conflicts.len() >= 1 ==> sync_resolve::batch_fits(conflicts, 1),
        sync_resolve::batch_fits(conflicts, count) ==> count <= 20 && count <= conflicts.len(),
        sync_resolve::batch_fits(conflicts, count) && fewer <= count ==> sync_resolve::batch_fits(
            conflicts,
            fewer,
        ),
        sync_resolve::batch_fits(conflicts, count) && count >= 2 ==> sync_resolve::batch_bytes(
            conflicts,
            count,
        ) <= sync_resolve::MAX_PACKET_BYTES,
        sync_resolve::batch_bytes(conflicts, 0) == 2,
        0 < count <= conflicts.len() ==> sync_resolve::batch_bytes(conflicts, count)
            >= sync_resolve::batch_bytes(conflicts, (count - 1) as nat) + text::byte_count(
            json::canonical_text(conflicts[count - 1]),
        ),
{
}

/// The store that a sparse draft begins with goes on from the store that it is based on: with
/// its identity, schema and purpose, no operations, and the marks of what it was based on.
pub proof fn law_sparse_draft_begins(
    store: StoreView,
    base: IdentityView,
    schema: Seq<char>,
    purpose: Seq<char>,
    max_source_id: i64,
)
    ensures
        ({
            let next = changesets::sparse_base(store, base, schema, purpose, max_source_id);
            &&& next.operations.len() == 0
            &&& next.changesets.dom() == Set::<Seq<char>>::empty()
            &&& next.operation_sequence == base.operation_id
            &&& next.source_sequence == max_source_id
            &&& next.meta["store_id"@] == base.store_id
            &&& next.meta["store_revision"@] == base.revision
            &&& next.meta["schema"@] == schema
            &&& next.meta["purpose"@] == purpose
            &&& next.meta["changeset_storage"@] == "sparse-v1"@
            &&& next.meta["changeset_base_meta:schema"@] == digest::text_digest(schema)
            &&& next.meta["changeset_base_meta:purpose"@] == digest::text_digest(purpose)
            &&& next.pages == store.pages
            &&& next.sources == store.sources
            &&& next.tags == store.tags
        }),
{
    reveal_strlit("store_id");
    reveal_strlit("store_revision");
    reveal_strlit("schema");
    reveal_strlit("purpose");
    reveal_strlit("changeset_storage");
    reveal_strlit("changeset_base_meta:schema");
    reveal_strlit("changeset_base_meta:purpose");
    assert("store_id"@.len() == 8);
    assert("store_revision"@.len() == 14);
    assert("schema"@.len() == 6);
    assert("purpose"@.len() == 7);
    assert("changeset_storage"@.len() == 17);
    assert("changeset_base_meta:schema"@.len() == 26);
    assert("changeset_base_meta:purpose"@.len() == 27);
}

/// The checkpoint that is made for a changeset is named after it, by a name that is free.
pub proof fn law_checkpoint_of_a_changeset(
    store: StoreView,
    word: Seq<char>,
    directory: Seq<char>,
    taken: Seq<Seq<char>>,
    millis: nat,
    id: Seq<char>,
)
    ensures
        checkpoints::changeset_checkpoint_goal(
            store,
            word,
            directory,
            taken,
            millis,
            id,
        ) matches Ok(made) ==> {
            &&& id.len() == 64
            &&& !taken.contains(made.checkpoint)
            &&& (word + id.take(12)).is_prefix_of(made.checkpoint)
            &&& made.scope == store.scope
            &&& made.database == store.database
            &&& made.safety_checkpoint is None
        },
{
    file_laws::law_fresh_names_are_free(word + id.take(12), millis, taken, 0);
}

/// A batch that is refused or was known already leaves the store as it is. One that is taken
/// raises the revision of its discussion by one and is entered as one operation.
pub proof fn law_batch_is_settled(
    before: StoreView,
    after: StoreView,
    input: InputView,
    secret: bool,
    now: Seq<char>,
    r: Result<DiscussionApplied, AppError>,
)
    requires
        discussion_store::batch_settled(before, after, input, secret, now, r),
    ensures
        r is Err ==> after == before,
        r matches Ok(done) ==> done@.id == input.id,
        r matches Ok(done) ==> (done@.replayed ==> after == before),
        r matches Ok(done) ==> (!done@.replayed ==> {
            &&& done@.revision == input.if_revision + 1
            &&& after.operations.len() == before.operations.len() + 1
            &&& after.operations.last().action == "discussion.apply"@
            &&& after.operations.last().target == input.id
            &&& after.operations.take(before.operations.len() as int) == before.operations
            &&& after.operation_sequence == before.operation_sequence + 1
            &&& after.discussions.discussions.dom().contains(input.id)
            &&& after.discussions.discussions[input.id].revision == input.if_revision + 1
            &&& after.discussions.discussions[input.id].context == input.context
            &&& after.discussions.revisions[input.id].last().input == input
            &&& after.pages == before.pages
            &&& after.sources == before.sources
        }),
        secret ==> after == before,
{
    if after.operations.len() == before.operations.len() + 1 {
        assert(after.operations.take(before.operations.len() as int) =~= before.operations);
    }
}

} // verus!
