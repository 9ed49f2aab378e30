//! Spans, detached changesets, checkpoints and the files that are written out.
use crate::artifacts;
use crate::artifacts::{ArtifactStepView, CitationView, DefaultsView};
use crate::checkpoints;
use crate::checkpoints::{BackupActionView, BackupStep, CheckpointFileView};
use crate::changesets::HistoryView;
use crate::detached;
use crate::detached::ActionView;
use crate::digest;
use crate::error::ErrorCode;
use crate::paging::RankView;
use crate::pages;
use crate::rows::{OperationView, SpanView};
use crate::spans;
use crate::spans::DocumentView;
use crate::store;
use crate::store::StoreView;
use crate::table;
use crate::table::PairView;
use crate::text;
use vstd::prelude::*;

verus! {

// ---------------------------------------------------------------------------
// Spans
// ---------------------------------------------------------------------------

/// The spans of a document that is switched off are not in use; all else of them stays, and so
/// do the spans of other documents.
pub proof fn law_document_is_switched_off(
    index: Map<Seq<char>, SpanView>,
    document_type: Seq<char>,
    identifier: Seq<char>,
    id: Seq<char>,
)
    ensures
        ({
            let next = spans::deactivated(index, document_type, identifier);
            let own = index[id].document_type == document_type && index[id].document_identifier
                == identifier;
            &&& next.dom() == index.dom()
            &&& index.dom().contains(id) && own ==> next[id] == (SpanView {
                active: false,
                ..index[id]
            })
            &&& index.dom().contains(id) && !own ==> next[id] == index[id]
        }),
{
    assert(spans::deactivated(index, document_type, identifier).dom() =~= index.dom());
}

/// A span that is entered is in use, under the identifier of its place. A new one is of the
/// document, of that kind, at that place, under that parent; one that was known is only
/// switched on. Other spans stay. It must be a text of the document.
pub proof fn law_span_is_entered(
    index: Map<Seq<char>, SpanView>,
    document: DocumentView,
    kind: Seq<char>,
    parent: Seq<char>,
    ordinal: usize,
    start: usize,
    end: usize,
)
    requires
        ordinal <= i64::MAX,
        start <= i64::MAX,
        end <= i64::MAX,
    ensures
        spans::with_span(index, document, kind, parent, ordinal, start, end) is Ok
            <==> spans::text_between(document.content, start as int, end as int) is Some,
        spans::with_span(index, document, kind, parent, ordinal, start, end) matches Ok(next) ==> {
            let id = spans::span_id(kind, document, start, end);
            &&& next.dom() == index.dom().insert(id)
            &&& next[id].active
            &&& index.dom().contains(id) ==> next[id] == (SpanView { active: true, ..index[id] })
            &&& !index.dom().contains(id) ==> {
                &&& next[id].span_type == kind
                &&& next[id].document_type == document.document_type
                &&& next[id].document_identifier == document.identifier
                &&& next[id].parent_identifier == parent
                &&& next[id].ordinal == ordinal
                &&& next[id].byte_start == start
                &&& next[id].byte_end == end
                &&& next[id].content_fingerprint == digest::text_digest(document.content)
                &&& next[id].segmenter_version == document.version
            }
            &&& forall|other: Seq<char>|
                other != id && #[trigger] index.dom().contains(other) ==> next[other]
                    == index[other]
        },
{
    if let Ok(next) = spans::with_span(index, document, kind, parent, ordinal, start, end) {
        assert(next.dom() =~= index.dom().insert(spans::span_id(kind, document, start, end)));
    }
}

/// A span is shown exactly where it is in use, its document has the content that it was cut
/// from, and its place is one of that content. What is shown is the text there.
pub proof fn law_span_is_shown(store: StoreView, id: Seq<char>, version: i64)
    ensures
        spans::span_record(store, id, version) is Ok <==> {
            let span = store.spans[id];
            let content = spans::document_content(store, span);
            &&& store.spans.dom().contains(id)
            &&& span.active
            &&& content is Some
            &&& digest::text_digest(content->0) == span.content_fingerprint
            &&& 0 <= span.byte_start <= usize::MAX
            &&& 0 <= span.byte_end <= usize::MAX
            &&& spans::text_between(
                content->0,
                span.byte_start as int,
                span.byte_end as int,
            ) is Some
        },
        spans::span_record(store, id, version) matches Ok(shown) ==> {
            let span = store.spans[id];
            &&& shown.identifier == id
            &&& shown.span_type == span.span_type
            &&& shown.document_type == span.document_type
            &&& shown.document_identifier == span.document_identifier
            &&& shown.parent_identifier == span.parent_identifier
            &&& shown.byte_start == span.byte_start
            &&& shown.byte_end == span.byte_end
            &&& shown.content_fingerprint == span.content_fingerprint
            &&& 0 <= span.ordinal <= usize::MAX ==> shown.ordinal == span.ordinal
            &&& 0 <= span.segmenter_version <= u32::MAX ==> shown.segmenter_version
                == span.segmenter_version
            &&& span.document_type == "page"@ ==> spans::text_between(
                store.pages[span.document_identifier].body,
                span.byte_start as int,
                span.byte_end as int,
            ) == Some(shown.text)
        },
        !store.spans.dom().contains(id) ==> (spans::span_record(store, id, version) matches Err(e)
            && e.code == ErrorCode::SpanNotFound),
        store.spans.dom().contains(id) && !store.spans[id].active ==> (spans::span_record(
            store,
            id,
            version,
        ) matches Err(e) && e.code == ErrorCode::StaleSpan),
{
}

/// The neighbourhood of a place: as many before it and after it as are asked for, but none below
/// the first.
pub proof fn law_neighbourhood_is_bounded(ordinal: usize, before: usize, after: usize)
    requires
        ordinal + after <= usize::MAX,
        ordinal + after <= i64::MAX,
    ensures
        before <= ordinal ==> spans::lowest(ordinal, before) == ordinal - before,
        before > ordinal ==> spans::lowest(ordinal, before) == 0,
        spans::highest(ordinal, after) == ordinal + after,
{
}

proof fn lemma_near_spans(
    store: StoreView,
    list: Seq<RankView>,
    kind: Seq<char>,
    low: i64,
    high: i64,
    count: nat,
)
    requires
        count <= list.len(),
    ensures
        spans::near_spans(store, list, kind, low, high, count) == list.take(count as int).filter(
            |rank: RankView|
                store.spans[rank.id].span_type == kind && low <= store.spans[rank.id].ordinal
                    && store.spans[rank.id].ordinal <= high,
        ).map_values(|rank: RankView| rank.id),
    decreases count,
{
    reveal(Seq::filter);
    let part = list.take(count as int);
    let f = |rank: RankView|
        store.spans[rank.id].span_type == kind && low <= store.spans[rank.id].ordinal
            && store.spans[rank.id].ordinal <= high;
    let g = |rank: RankView| rank.id;
    if count > 0 {
        lemma_near_spans(store, list, kind, low, high, (count - 1) as nat);
        assert(part.drop_last() =~= list.take(count - 1));
        assert(part.last() == list[count - 1]);
        let before = list.take(count - 1).filter(f);
        if f(list[count - 1]) {
            assert(part.filter(f) == before.push(list[count - 1]));
            assert(before.push(list[count - 1]).map_values(g) =~= before.map_values(g).push(
                list[count - 1].id,
            ));
        } else {
            assert(part.filter(f) == before);
        }
    } else {
        assert(part =~= Seq::empty());
        assert(part.filter(f).map_values(g) =~= Seq::empty());
    }
}

/// The siblings of a span are those of its kind under its parent whose place is near enough, in
/// their order.
pub proof fn law_siblings_are_near(
    store: StoreView,
    list: Seq<RankView>,
    kind: Seq<char>,
    low: i64,
    high: i64,
)
    ensures
        spans::near_spans(store, list, kind, low, high, list.len()) == list.filter(
            |rank: RankView|
                store.spans[rank.id].span_type == kind && low <= store.spans[rank.id].ordinal
                    && store.spans[rank.id].ordinal <= high,
        ).map_values(|rank: RankView| rank.id),
{
    lemma_near_spans(store, list, kind, low, high, list.len());
    assert(list.take(list.len() as int) =~= list);
}

// ---------------------------------------------------------------------------
// Detached changesets
// ---------------------------------------------------------------------------

/// An origin goes along only where it means the same elsewhere: not where it begins with a
/// slash of either kind, or with the letter of a drive.
pub proof fn law_origins_are_portable(origin: Seq<char>)
    ensures
        detached::portable(origin) matches Some(kept) ==> kept == origin,
        origin.len() > 0 && (origin[0] == '/' || origin[0] == '\\') ==> detached::portable(origin)
            is None,
        origin.len() > 2 && ('a' <= origin[0] <= 'z' || 'A' <= origin[0] <= 'Z') && origin[1] == ':'
            && (origin[2] == '/' || origin[2] == '\\') ==> detached::portable(origin) is None,
        detached::portable(origin) is None ==> origin.len() > 0 && (origin[0] == '/' || origin[0]
            == '\\' || origin.len() > 2 && origin[1] == ':'),
{
}

/// A source of an intent is the source of the draft, and says how its job stands. Its content
/// goes along where the draft created it, and is then new to the other side.
pub proof fn law_source_goes_along(store: StoreView, id: i64, required: bool)
    ensures
        ({
            let intent = detached::source_intent(store, id, required);
            let source = store.sources[id];
            let job = store.ingest_jobs[id];
            &&& intent.content_hash == source.content_hash
            &&& intent.title == source.title
            &&& intent.origin == detached::portable(source.origin)
            &&& intent.structural_navigation == source.structural_navigation
            &&& intent.content_required == required
            &&& required ==> intent.base_fingerprint == "absent"@
            &&& !required ==> intent.base_fingerprint == source.content_hash
            &&& intent.ingest.status == job.status
            &&& intent.ingest.attempts == job.attempts
            &&& intent.ingest.analysis == job.analysis
            &&& intent.ingest.no_derived_pages_reason == job.no_derived_pages_reason
        }),
{
}

/// The sources of an intent are those that were asked for, in that order, each with its job; the
/// contents that go along are those of the sources that the draft created, and no more bytes
/// of them than may be carried.
pub proof fn law_contents_go_along(
    store: StoreView,
    ids: Seq<i64>,
    created: Set<i64>,
    count: nat,
)
    requires
        count <= ids.len(),
    ensures
        detached::sources_exported(store, ids, created, count) matches Ok(done) ==> {
            &&& done.sources.len() == count
            &&& done.total <= detached::MAX_BLOB_BYTES
            &&& forall|k: int|
                0 <= k < count ==> {
                    &&& store.sources.dom().contains(#[trigger] ids[k])
                    &&& store.ingest_jobs.dom().contains(ids[k])
                    &&& done.sources[k] == detached::source_intent(
                        store,
                        ids[k],
                        created.contains(ids[k]),
                    )
                }
            &&& forall|n: int|
                0 <= n < done.blobs.len() ==> {
                    let blob = #[trigger] done.blobs[n];
                    &&& created.contains(blob.source_id)
                    &&& ids.take(count as int).contains(blob.source_id)
                    &&& blob.content_hash == store.sources[blob.source_id].content_hash
                    &&& blob.bytes == text::byte_count(store.sources[blob.source_id].content)
                }
            &&& forall|k: int|
                0 <= k < count && created.contains(#[trigger] ids[k]) ==> exists|n: int|
                    0 <= n < done.blobs.len() && (#[trigger] done.blobs[n]).source_id == ids[k]
        },
    decreases count,
{
    if count > 0 {
        let less = (count - 1) as nat;
        law_contents_go_along(store, ids, created, less);
        table::lemma_take_more(ids, less as int);
        if let Ok(done) = detached::sources_exported(store, ids, created, count) {
            let head = detached::sources_exported(store, ids, created, less)->Ok_0;
            let id = ids[less as int];
            assert forall|k: int| 0 <= k < count implies {
                &&& store.sources.dom().contains(#[trigger] ids[k])
                &&& store.ingest_jobs.dom().contains(ids[k])
                &&& done.sources[k] == detached::source_intent(
                    store,
                    ids[k],
                    created.contains(ids[k]),
                )
            } by {
                if k < less {
                    assert(done.sources[k] == head.sources[k]);
                }
            }
            assert forall|k: int|
                0 <= k < count && created.contains(#[trigger] ids[k]) implies exists|n: int|
                0 <= n < done.blobs.len() && (#[trigger] done.blobs[n]).source_id == ids[k] by {
                if k < less {
                    let n = choose|n: int|
                        0 <= n < head.blobs.len() && (#[trigger] head.blobs[n]).source_id
                            == ids[k];
                    assert(done.blobs[n] == head.blobs[n]);
                } else {
                    assert(done.blobs[head.blobs.len() as int].source_id == id);
                }
            }
            assert forall|n: int| 0 <= n < done.blobs.len() implies {
                let blob = #[trigger] done.blobs[n];
                &&& created.contains(blob.source_id)
                &&& ids.take(count as int).contains(blob.source_id)
                &&& blob.content_hash == store.sources[blob.source_id].content_hash
                &&& blob.bytes == text::byte_count(store.sources[blob.source_id].content)
            } by {
                if n < head.blobs.len() {
                    assert(done.blobs[n] == head.blobs[n]);
                } else {
                    assert(ids.take(count as int)[less as int] == id);
                }
            }
        }
    }
}

proof fn lemma_cited(store: StoreView, items: Seq<i64>, count: nat)
    requires
        count <= items.len(),
    ensures
        detached::cited_hashes(store, items, count) matches Ok(list) ==> {
            &&& list.len() == count
            &&& forall|k: int|
                0 <= k < count ==> store.sources.dom().contains(#[trigger] items[k])
                    && list[k] == store.sources[items[k]].content_hash
        },
    decreases count,
{
    if count > 0 {
        lemma_cited(store, items, (count - 1) as nat);
        if let Ok(list) = detached::cited_hashes(store, items, count) {
            let head = detached::cited_hashes(store, items, (count - 1) as nat)->Ok_0;
            assert forall|k: int| 0 <= k < count implies store.sources.dom().contains(
                #[trigger] items[k],
            ) && list[k] == store.sources[items[k]].content_hash by {
                if k < count - 1 {
                    assert(list[k] == head[k]);
                }
            }
        }
    }
}

/// What an intent wants of a page is what the draft has of it, with its citations by content; a
/// page that the draft does not have is to be gone.
pub proof fn law_page_goes_along(store: StoreView, touched: PairView)
    ensures
        detached::page_intent(store, touched) matches Ok(intent) ==> {
            let page = store.pages[touched.first];
            &&& intent.slug == touched.first
            &&& intent.base_fingerprint == touched.second
            &&& intent.after is None <==> !store.pages.dom().contains(touched.first)
            &&& intent.after matches Some(after) ==> {
                &&& after.title == page.title
                &&& after.kind == page.kind
                &&& after.summary == page.summary
                &&& after.body == page.body
                &&& after.provenance == page.provenance
                &&& after.source_hashes.len() == page.source_ids.len()
                &&& forall|k: int|
                    0 <= k < page.source_ids.len() ==> #[trigger] after.source_hashes[k]
                        == store.sources[page.source_ids[k]].content_hash
            }
        },
{
    let page = store.pages[touched.first];
    lemma_cited(store, page.source_ids, page.source_ids.len());
}

/// What an intent wants of a tag is what the draft has of it: its policy and its pages; a tag
/// that the draft does not have is to be gone.
pub proof fn law_tag_goes_along(store: StoreView, name: Seq<char>)
    requires
        store.tags.dom().contains(name) ==> store.tags[name].members.dom().finite(),
    ensures
        detached::tag_after(store, name) is None <==> !store.tags.dom().contains(name),
        detached::tag_after(store, name) matches Some(after) ==> {
            let tag = store.tags[name];
            &&& after.autoload == tag.policy.autoload
            &&& after.autoload_priority == tag.policy.autoload_priority
            &&& after.autoload_limit == tag.policy.autoload_limit
            &&& after.autoload_max_chars == tag.policy.autoload_max_chars
            &&& after.reason == tag.policy.reason
            &&& forall|k: int|
                0 <= k < after.memberships.len() ==> {
                    let one = #[trigger] after.memberships[k];
                    &&& tag.members.dom().contains(one.page_slug)
                    &&& one.priority == tag.members[one.page_slug].priority
                    &&& one.reason == tag.members[one.page_slug].reason
                }
            &&& forall|slug: Seq<char>| #[trigger]
                tag.members.dom().contains(slug) ==> exists|k: int|
                    0 <= k < after.memberships.len() && (#[trigger] after.memberships[k]).page_slug
                        == slug
        },
{
    if let Some(after) = detached::tag_after(store, name) {
        let members = store.tags[name].members;
        let order = table::ordered::<String>(members.dom());
        table::lemma_has_order::<String>(members.dom());
        assert forall|k: int| 0 <= k < after.memberships.len() implies members.dom().contains(
            (#[trigger] after.memberships[k]).page_slug,
        ) by {
            assert(order.to_set().contains(order[k]));
        }
        assert forall|slug: Seq<char>| #[trigger] members.dom().contains(slug) implies exists|
            k: int,
        |
            0 <= k < after.memberships.len() && (#[trigger] after.memberships[k]).page_slug
                == slug by {
            assert(order.to_set().contains(slug));
            let k = order.index_of(slug);
            assert(after.memberships[k].page_slug == slug);
        }
    }
}

/// Only the schema and the purpose go along of the metadata, as the draft has them.
pub proof fn law_meta_goes_along(store: StoreView, touched: PairView)
    ensures
        detached::meta_intent(store, touched) is Ok <==> (touched.first == "schema"@
            || touched.first == "purpose"@) && store.meta.dom().contains(touched.first),
        detached::meta_intent(store, touched) matches Ok(intent) ==> {
            &&& intent.key == touched.first
            &&& intent.base_fingerprint == touched.second
            &&& intent.value == store.meta[touched.first]
        },
{
}

/// An operation goes along in terms of content: a source by its digest, a page by its slug, a
/// tag by its name.
pub proof fn law_action_goes_along(store: StoreView, op: OperationView)
    ensures
        detached::detached_action(store, op) matches Ok(action) ==> {
            &&& op.action == "source_add"@ ==> {
                &&& op.detail.int_at("source_id"@) matches Some(id)
                &&& store.sources.dom().contains(id)
                &&& action == (ActionView::SourceAdd {
                    content_hash: store.sources[id].content_hash,
                })
            }
            &&& op.action == "page_put"@ ==> action == (ActionView::PagePut { slug: op.target })
            &&& op.action == "page_remove"@ ==> action == (ActionView::PageRemove {
                slug: op.target,
            })
            &&& op.action == "schema_set"@ ==> action == (ActionView::MetaSet { key: "schema"@ })
            &&& op.action == "purpose_set"@ ==> action == (ActionView::MetaSet { key: "purpose"@ })
            &&& op.action == "search"@ ==> action is Search
            &&& op.action == "tag_set"@ || op.action == "tag_remove"@ || op.action
                == "tag_delete"@ || op.action == "tag_autoload"@ ==> {
                &&& op.detail.text_at("tag"@) matches Some(name)
                &&& action == (ActionView::Tag { action: op.action, name })
            }
            &&& op.action == "ingest_claim"@ || op.action == "ingest_analyze"@ || op.action
                == "ingest_complete"@ || op.action == "ingest_fail"@ || op.action
                == "ingest_retry"@ ==> {
                &&& text::reads_as_i64(op.target) matches Some(id)
                &&& store.sources.dom().contains(id as i64)
                &&& action == (ActionView::Ingest {
                    action: op.action,
                    content_hash: store.sources[id as i64].content_hash,
                })
            }
        },
{
    reveal_strlit("source_add");
    reveal_strlit("page_put");
    reveal_strlit("page_remove");
    reveal_strlit("schema_set");
    reveal_strlit("purpose_set");
    reveal_strlit("search");
    reveal_strlit("tag_set");
    reveal_strlit("tag_remove");
    reveal_strlit("tag_delete");
    reveal_strlit("tag_autoload");
    reveal_strlit("ingest_claim");
    reveal_strlit("ingest_analyze");
    reveal_strlit("ingest_complete");
    reveal_strlit("ingest_fail");
    reveal_strlit("ingest_retry");
    assert("source_add"@.len() == 10 && "source_add"@[1] == 'o' && "source_add"@[0] == 's');
    assert("page_put"@.len() == 8 && "page_remove"@.len() == 11 && "page_remove"@[1] == 'a');
    assert("schema_set"@.len() == 10 && "schema_set"@[1] == 'c' && "schema_set"@[0] == 's');
    assert("purpose_set"@.len() == 11 && "purpose_set"@[1] == 'u' && "purpose_set"@[0] == 'p');
    assert("search"@.len() == 6);
    assert("tag_set"@.len() == 7 && "tag_remove"@.len() == 10 && "tag_remove"@[0] == 't'
        && "tag_delete"@.len() == 10 && "tag_delete"@[0] == 't' && "tag_autoload"@.len() == 12
        && "tag_autoload"@[0] == 't');
    assert("ingest_claim"@.len() == 12 && "ingest_claim"@[0] == 'i' && "ingest_analyze"@.len()
        == 14 && "ingest_complete"@.len() == 15 && "ingest_fail"@.len() == 11
        && "ingest_fail"@[0] == 'i' && "ingest_retry"@.len() == 12 && "ingest_retry"@[0] == 'i');
    assert("page_remove"@[0] == 'p');
}

// ---------------------------------------------------------------------------
// Checkpoints
// ---------------------------------------------------------------------------

/// A checkpoint has a name that is safe on a file system and no longer than eighty bytes.
pub proof fn law_checkpoint_names_are_safe(name: Seq<char>)
    ensures
        checkpoints::name_checked(name) is Ok <==> {
            &&& name.len() > 0
            &&& 0 < text::byte_count(name) <= 80
            &&& text::trimmed(name) == name
            &&& name != "."@
            &&& name != ".."@
            &&& forall|k: int| 0 <= k < name.len() ==> #[trigger] name[k] != '/' && name[k] != '\\'
            &&& !text::has_control(name)
        },
        checkpoints::name_checked(name) matches Err(e) ==> e.code
            == ErrorCode::CheckpointNameInvalid,
{
    if name.contains('/') {
        assert(name[name.index_of('/')] == '/');
    }
    if name.contains('\\') {
        assert(name[name.index_of('\\')] == '\\');
    }
}

/// A fresh name is safe, begins as was asked for, and is that of no checkpoint.
pub proof fn law_fresh_names_are_free(
    prefix: Seq<char>,
    millis: nat,
    taken: Seq<Seq<char>>,
    turn: nat,
)
    ensures
        checkpoints::first_free(prefix, millis, taken, turn) matches Ok(name) ==> {
            &&& !taken.contains(name)
            &&& prefix.is_prefix_of(name)
            &&& checkpoints::name_checked(name) is Ok
        },
        checkpoints::fresh_name(prefix, millis, taken) == (if checkpoints::name_checked(
            prefix,
        ) is Ok {
            checkpoints::first_free(prefix, millis, taken, 0)
        } else {
            checkpoints::fresh_name(prefix, millis, taken)
        }),
        checkpoints::fresh_name(prefix, millis, taken) is Ok ==> checkpoints::name_checked(prefix)
            is Ok,
    decreases 1000 - turn,
{
    if turn < 1000 {
        let name = checkpoints::name_tried(prefix, millis, turn);
        assert(prefix.is_prefix_of(name)) by {
            assert(prefix =~= name.take(prefix.len() as int));
        }
        if checkpoints::name_checked(name) is Ok && taken.contains(name) {
            law_fresh_names_are_free(prefix, millis, taken, turn + 1);
        }
    }
}

/// A checkpoint is made exactly under a safe name that no checkpoint has.
pub proof fn law_checkpoint_is_made(
    store: StoreView,
    directory: Seq<char>,
    taken: Seq<Seq<char>>,
    name: Seq<char>,
)
    ensures
        checkpoints::create_goal(store, directory, taken, name) is Ok <==> !taken.contains(name)
            && checkpoints::name_checked(name) is Ok,
        checkpoints::create_goal(store, directory, taken, name) matches Ok(made) ==> {
            &&& made.checkpoint == name
            &&& made.scope == store.scope
            &&& made.database == store.database
            &&& made.path == directory + "/"@ + name + ".db"@
            &&& made.safety_checkpoint is None
        },
        taken.contains(name) && checkpoints::name_checked(name) is Ok ==> (
        checkpoints::create_goal(store, directory, taken, name) matches Err(e) && e.code
            == ErrorCode::CheckpointExists),
{
}

/// A changeset can be taken back with a patch that is its own, or with a snapshot of its store,
/// and with nothing else.
pub proof fn law_checkpoint_belongs(
    history: HistoryView,
    store_id: Seq<char>,
    file: CheckpointFileView,
)
    ensures
        checkpoints::validated(history, store_id, file) matches Ok(patch) ==> {
            &&& history.pre_commit_checkpoint matches Some(name)
            &&& checkpoints::name_checked(name) is Ok
            &&& patch ==> {
                &&& file matches CheckpointFileView::Inverse(inverse)
                &&& inverse.store_id == store_id
                &&& inverse.changeset_id == history.id
            }
            &&& !patch ==> {
                &&& file matches CheckpointFileView::Snapshot(snapshot)
                &&& store::meta_value(snapshot, "store_id"@) == Some(store_id)
            }
        },
{
}

/// A restore waits while the store is in use and there is time, gives up when there is none,
/// goes on where the step is done, and tries again otherwise. A checkpoint that is copied in
/// one step is too small to be restored.
pub proof fn law_restore_waits(step: BackupStep, late: bool)
    ensures
        ({
            let lock = checkpoints::lock_action(step, late);
            let copy = checkpoints::copy_action(step, late);
            let used = step == BackupStep::Busy || step == BackupStep::Locked;
            &&& used && !late ==> lock is Wait && copy is Wait
            &&& used && late ==> (lock matches BackupActionView::Fail(e) && e.code
                == ErrorCode::DatabaseBusy) && (copy matches BackupActionView::Fail(e) && e.code
                == ErrorCode::DatabaseBusy)
            &&& step == BackupStep::More ==> lock is Go && copy is Again
            &&& step == BackupStep::Done ==> (lock matches BackupActionView::Fail(e) && e.code
                == ErrorCode::CheckpointInvalid) && copy is Go
            &&& step == BackupStep::Other ==> lock is Again && copy is Again
        }),
{
}

// ---------------------------------------------------------------------------
// Files
// ---------------------------------------------------------------------------

proof fn lemma_citations(store: StoreView, ids: Seq<i64>, count: nat)
    requires
        count <= ids.len(),
    ensures
        artifacts::citations_among(store, ids, count) == ids.take(count as int).filter(
            |id: i64| store.sources.dom().contains(id),
        ).map_values(|id: i64| CitationView { id, origin: store.sources[id].origin }),
    decreases count,
{
    reveal(Seq::filter);
    let part = ids.take(count as int);
    let f = |id: i64| store.sources.dom().contains(id);
    let g = |id: i64| CitationView { id, origin: store.sources[id].origin };
    if count > 0 {
        lemma_citations(store, ids, (count - 1) as nat);
        assert(part.drop_last() =~= ids.take(count - 1));
        assert(part.last() == ids[count - 1]);
        let before = ids.take(count - 1).filter(f);
        if f(ids[count - 1]) {
            assert(part.filter(f) == before.push(ids[count - 1]));
            assert(before.push(ids[count - 1]).map_values(g) =~= before.map_values(g).push(
                g(ids[count - 1]),
            ));
        } else {
            assert(part.filter(f) == before);
        }
    } else {
        assert(part =~= Seq::empty());
        assert(part.filter(f).map_values(g) =~= Seq::empty());
    }
}

/// A page is written out as it is, with the origins of the sources that it cites.
pub proof fn law_page_is_written_out(store: StoreView, slug: Seq<char>)
    ensures
        artifacts::artifact_page(store, slug) is Some <==> store.pages.dom().contains(slug),
        artifacts::artifact_page(store, slug) matches Some(file) ==> {
            let page = store.pages[slug];
            &&& file.slug == slug
            &&& file.title == page.title
            &&& file.kind == page.kind
            &&& file.summary == page.summary
            &&& file.body == page.body
            &&& file.created == page.created_at
            &&& file.updated == page.updated_at
            &&& file.provenance == pages::shown_provenance(
                page.source_ids.len() > 0,
                page.provenance,
            )
            &&& file.citations == page.source_ids.filter(
                |id: i64| store.sources.dom().contains(id),
            ).map_values(|id: i64| CitationView { id, origin: store.sources[id].origin })
        },
{
    let ids = store.pages[slug].source_ids;
    lemma_citations(store, ids, ids.len());
    assert(ids.take(ids.len() as int) =~= ids);
}

/// A source is written out as it is; its content only where that is asked for.
pub proof fn law_source_is_written_out(store: StoreView, id: i64, whole: bool)
    ensures
        artifacts::artifact_source(store, id, whole) is Some <==> store.sources.dom().contains(id),
        artifacts::artifact_source(store, id, whole) matches Some(file) ==> {
            &&& file.id == text::decimal(id as int)
            &&& file.title == store.sources[id].title
            &&& file.origin == store.sources[id].origin
            &&& whole ==> file.content == store.sources[id].content
            &&& !whole ==> file.content == ""@
        },
{
}

/// What an operation does to the files is what the store says now: a page that was put is
/// written where it is still there, a page that was removed goes, and so with sources where
/// their contents are written out; the schema and the purpose are written anew.
pub proof fn law_operation_reaches_the_files(
    store: StoreView,
    op: OperationView,
    whole: bool,
    defaults: DefaultsView,
)
    ensures
        ({
            let step = artifacts::step_for(store, op, whole, defaults);
            &&& op.action == "page_put"@ ==> (step is Some <==> store.pages.dom().contains(
                op.target,
            ))
            &&& op.action == "page_put"@ ==> (step matches Some(s) ==> (s
                matches ArtifactStepView::Page(page) && page.slug == op.target && page.body
                == store.pages[op.target].body))
            &&& op.action == "page_remove"@ ==> step == Some(
                ArtifactStepView::RemovePage(op.target),
            )
            &&& op.action == "source_add"@ && !whole ==> step is None
            &&& op.action == "source_add"@ && whole ==> (step matches Some(s) ==> (s
                matches ArtifactStepView::Source(source) && op.detail.int_at("source_id"@)
                matches Some(id) && source.content == store.sources[id].content && source.id
                == text::decimal(id as int)))
            &&& op.action == "source_add"@ && whole ==> (op.detail.int_at("source_id"@)
                matches Some(id) ==> (store.sources.dom().contains(id) ==> step is Some))
            &&& op.action == "source_remove"@ && whole ==> step == Some(
                ArtifactStepView::RemoveSource(op.target),
            )
            &&& op.action == "source_remove"@ && !whole ==> step is None
            &&& op.action == "schema_set"@ && store.meta.dom().contains("schema"@) ==> step == Some(
                ArtifactStepView::Text { path: "schema.md"@, content: store.meta["schema"@] },
            )
            &&& op.action == "purpose_set"@ && store.meta.dom().contains("purpose"@) ==> step
                == Some(
                ArtifactStepView::Text { path: "purpose.md"@, content: store.meta["purpose"@] },
            )
        }),
{
    reveal_strlit("page_put");
    reveal_strlit("page_remove");
    reveal_strlit("source_add");
    reveal_strlit("source_remove");
    reveal_strlit("schema_set");
    reveal_strlit("purpose_set");
    assert("page_put"@.len() == 8 && "page_remove"@.len() == 11 && "page_remove"@[1] == 'a'
        && "source_add"@.len() == 10 && "source_add"@[1] == 'o' && "source_remove"@.len() == 13
        && "schema_set"@.len() == 10 && "schema_set"@[1] == 'c' && "purpose_set"@.len() == 11
        && "purpose_set"@[1] == 'u');
}

/// What a publication names is written where it is there, and removed where it is not.
pub proof fn law_named_files_follow(store: StoreView, slug: Seq<char>, id: i64)
    ensures
        store.pages.dom().contains(slug) ==> (artifacts::page_step(store, slug)
            matches ArtifactStepView::Page(page) && page.slug == slug && page.title
            == store.pages[slug].title && page.body == store.pages[slug].body),
        !store.pages.dom().contains(slug) ==> artifacts::page_step(store, slug)
            == ArtifactStepView::RemovePage(slug),
        text::reads_as_i64(slug) == Some(id as int) && store.sources.dom().contains(id) ==> (
        artifacts::source_step(store, slug) matches ArtifactStepView::Source(source)
            && source.content == store.sources[id].content),
        text::reads_as_i64(slug) == Some(id as int) && !store.sources.dom().contains(id)
            ==> artifacts::source_step(store, slug) == ArtifactStepView::RemoveSource(slug),
{
}

/// A glance at a store shows its schema and purpose, its first pages and its newest operations,
/// the newest first.
pub proof fn law_glance_at_a_store(store: StoreView, limit: nat)
    ensures
        ({
            let seen = artifacts::context(store, limit);
            let log = store.operations;
            &&& seen.scope == store.scope
            &&& seen.database == store.database
            &&& store.meta.dom().contains("schema"@) ==> seen.schema == Some(store.meta["schema"@])
            &&& store.meta.dom().contains("purpose"@) ==> seen.purpose == Some(
                store.meta["purpose"@],
            )
            &&& seen.pages.len() <= limit
            &&& seen.recent_operations.len() <= limit
            &&& seen.recent_operations.len() == limit || seen.recent_operations.len() == log.len()
            &&& forall|k: int|
                0 <= k < seen.recent_operations.len() ==> #[trigger] seen.recent_operations[k]
                    == log[log.len() - 1 - k]
        }),
{
}

} // verus!
