//! What is cited can be looked up: the spans in use belong to the texts that the store holds.
use crate::digest;
use crate::error::AppErrorView;
use crate::indexing;
use crate::maintenance;
use crate::pages;
use crate::pages::PagePutView;
use crate::publish;
use crate::search;
use crate::search::{HitView, SearchOptionsView};
use crate::sources;
use crate::sources::SourceAddView;
use crate::span_hits;
use crate::spans;
use crate::spans::{DocumentView, SegmentsView};
use crate::store::StoreView;
use crate::table;
use crate::table::PairView;
use crate::text;
use vstd::prelude::*;
use vstd::utf8;

verus! {

/// A span is named after its document as the library names it, and its document still has the
/// text that the span was cut from.
pub open spec fn stands(store: StoreView, id: Seq<char>) -> bool {
    let span = store.spans[id];
    &&& span_hits::holds(store, id)
    &&& span.document_type == "source"@ ==> span.document_identifier == text::decimal(
        text::reads_as_i64(span.document_identifier)->0,
    )
}

/// All spans that are in use stand.
pub open spec fn all_stand(store: StoreView) -> bool {
    forall|id: Seq<char>| #[trigger] spans::in_use(store.spans, id) ==> stands(store, id)
}

/// A document whose size a machine can address, and under whose identifiers nothing else
/// stands. The latter holds unless different spans share a digest.
pub open spec fn can_be_cut(store: StoreView, document: DocumentView) -> bool {
    &&& utf8::encode_utf8(document.content).len() <= i64::MAX
    &&& utf8::encode_utf8(document.content).len() <= usize::MAX
    &&& spans::known_spans_fit(store.spans, document)
}

/// A store with the same documents and spans.
pub open spec fn same_texts(a: StoreView, b: StoreView) -> bool {
    a.spans == b.spans && a.pages == b.pages && a.sources == b.sources
}

proof fn lemma_same_texts(a: StoreView, b: StoreView)
    requires
        same_texts(a, b),
        all_stand(a),
    ensures
        all_stand(b),
{
    assert forall|id: Seq<char>| #[trigger] spans::in_use(b.spans, id) implies stands(b, id) by {
        assert(stands(a, id));
    }
}

proof fn lemma_cut(store: StoreView, segments: SegmentsView, document: DocumentView)
    requires
        can_be_cut(store, document),
        document.version == segments.version,
        document.document_type == "page"@ ==> store.pages.dom().contains(document.identifier)
            && store.pages[document.identifier].body == document.content,
        document.document_type == "source"@ ==> (text::reads_as_i64(document.identifier) matches Some(
            id,
        ) && document.identifier == text::decimal(id) && store.sources.dom().contains(id as i64)
            && store.sources[id as i64].content == document.content),
        document.document_type == "page"@ || document.document_type == "source"@,
        forall|id: Seq<char>| #[trigger]
            spans::in_use(store.spans, id) && !spans::belongs(store.spans, id, document) ==> stands(
                store,
                id,
            ),
    ensures
        spans::indexed(
            store,
            segments,
            document.document_type,
            document.identifier,
            document.content,
        ) matches Ok(next) ==> all_stand(next),
{
    spans::law_indexed_spans_resolve(store, segments, document, 0);
    if let Ok(next) = spans::indexed(
        store,
        segments,
        document.document_type,
        document.identifier,
        document.content,
    ) {
        assert forall|id: Seq<char>| #[trigger] spans::in_use(next.spans, id) implies stands(
            next,
            id,
        ) by {
            if spans::belongs(next.spans, id, document) {
                assert(spans::span_record(next, id, 0) is Ok);
            } else {
                assert(spans::same_under(store.spans, next.spans, id));
                assert(spans::in_use(store.spans, id));
                assert(stands(store, id));
            }
        }
    }
}

/// A new store has no spans.
pub proof fn law_store_without_spans_stands(store: StoreView)
    requires
        store.spans == Map::<Seq<char>, crate::rows::SpanView>::empty(),
    ensures
        all_stand(store),
{
}

/// To write a page keeps every span in use resolvable: the spans of the page are cut from its
/// new body, and those of the other documents stay.
pub proof fn law_written_page_stands(
    store: StoreView,
    segments: SegmentsView,
    input: PagePutView,
    seen: Option<Seq<char>>,
    now: Seq<char>,
    revision: Seq<char>,
)
    requires
        all_stand(store),
        can_be_cut(
            store,
            DocumentView {
                document_type: "page"@,
                identifier: input.slug,
                content: input.body,
                version: segments.version,
            },
        ),
    ensures
        pages::page_put_goal(store, segments, input, seen, now, revision) matches Ok(next)
            ==> all_stand(next),
{
    if let Ok(next) = pages::page_put_goal(store, segments, input, seen, now, revision) {
        let provenance = pages::explicit_provenance(input.provenance)->Ok_0;
        let page = pages::wanted_page(store, input, provenance, now);
        if !pages::is_unchanged(store, input.slug, page) {
            reveal_strlit("page");
            reveal_strlit("source");
            assert("page"@.len() == 4 && "source"@.len() == 6);
            let document = DocumentView {
                document_type: "page"@,
                identifier: input.slug,
                content: input.body,
                version: segments.version,
            };
            let start = StoreView { pages: store.pages.insert(input.slug, page), ..store };
            assert forall|id: Seq<char>| #[trigger]
                spans::in_use(start.spans, id) && !spans::belongs(
                    start.spans,
                    id,
                    document,
                ) implies stands(start, id) by {
                assert(spans::in_use(store.spans, id));
                assert(stands(store, id));
            }
            lemma_cut(start, segments, document);
            let cut = spans::indexed(start, segments, "page"@, input.slug, input.body)->Ok_0;
            lemma_same_texts(cut, next);
        }
    }
}

/// To remove a page leaves no span of it in use.
pub proof fn law_removed_page_stands(
    store: StoreView,
    slug: Seq<char>,
    now: Seq<char>,
    revision: Seq<char>,
)
    requires
        all_stand(store),
    ensures
        pages::page_remove_goal(store, slug, now, revision) matches Ok(next) ==> all_stand(next),
{
    if let Ok(next) = pages::page_remove_goal(store, slug, now, revision) {
        reveal_strlit("page");
        reveal_strlit("source");
        assert("page"@.len() == 4 && "source"@.len() == 6);
        assert forall|id: Seq<char>| #[trigger] spans::in_use(next.spans, id) implies stands(
            next,
            id,
        ) by {
            assert(spans::in_use(store.spans, id));
            assert(stands(store, id));
            assert(next.spans[id] == store.spans[id]);
        }
    }
}

/// To add a source keeps every span in use resolvable.
pub proof fn law_added_source_stands(
    store: StoreView,
    segments: SegmentsView,
    input: SourceAddView,
    now: Seq<char>,
    revision: Seq<char>,
)
    requires
        all_stand(store),
        can_be_cut(
            store,
            DocumentView {
                document_type: "source"@,
                identifier: text::decimal(store.source_sequence + 1),
                content: input.content,
                version: segments.version,
            },
        ),
    ensures
        sources::source_added(store, segments, input, now, revision) matches Ok(next)
            ==> all_stand(next),
{
    if let Ok(next) = sources::source_added(store, segments, input, now, revision) {
        match sources::source_with_hash(store, digest::text_digest(input.content)) {
            Some(_) => {
                lemma_same_texts(store, next);
            },
            None => {
                reveal_strlit("page");
                reveal_strlit("source");
                assert("page"@.len() == 4 && "source"@.len() == 6);
                let id = (store.source_sequence + 1) as i64;
                let source = sources::new_source(input, now);
                let document = DocumentView {
                    document_type: "source"@,
                    identifier: text::decimal(id as int),
                    content: input.content,
                    version: segments.version,
                };
                let start = StoreView {
                    sources: store.sources.insert(id, source),
                    source_sequence: id,
                    ..store
                };
                text::law_decimal_reads_back(id as int);
                assert forall|one: Seq<char>| #[trigger]
                    spans::in_use(start.spans, one) && !spans::belongs(
                        start.spans,
                        one,
                        document,
                    ) implies stands(start, one) by {
                    assert(spans::in_use(store.spans, one));
                    assert(stands(store, one));
                }
                lemma_cut(start, segments, document);
                let cut = spans::indexed(
                    start,
                    segments,
                    "source"@,
                    document.identifier,
                    input.content,
                )->Ok_0;
                assert(sources::source_created(store, segments, source) == Ok::<
                    StoreView,
                    AppErrorView,
                >(cut));
                lemma_same_texts(cut, next);
            },
        }
    }
}

/// To remove a source leaves no span of it in use.
pub proof fn law_removed_source_stands(
    store: StoreView,
    id: i64,
    now: Seq<char>,
    revision: Seq<char>,
)
    requires
        all_stand(store),
    ensures
        sources::source_remove_goal(store, id, now, revision) matches Ok(next) ==> all_stand(next),
{
    if let Ok(next) = sources::source_remove_goal(store, id, now, revision) {
        reveal_strlit("page");
        reveal_strlit("source");
        assert("page"@.len() == 4 && "source"@.len() == 6);
        assert forall|one: Seq<char>| #[trigger] spans::in_use(next.spans, one) implies stands(
            next,
            one,
        ) by {
            assert(spans::in_use(store.spans, one));
            assert(stands(store, one));
            assert(next.spans[one] == store.spans[one]);
        }
    }
}

/// A source of a store as its spans are cut.
pub open spec fn source_document(
    store: StoreView,
    segments: SegmentsView,
    id: i64,
) -> DocumentView {
    DocumentView {
        document_type: "source"@,
        identifier: text::decimal(id as int),
        content: store.sources[id].content,
        version: segments.version,
    }
}

/// A page of a store as its spans are cut.
pub open spec fn page_document(
    store: StoreView,
    segments: SegmentsView,
    slug: Seq<char>,
) -> DocumentView {
    DocumentView {
        document_type: "page"@,
        identifier: slug,
        content: store.pages[slug].body,
        version: segments.version,
    }
}

proof fn lemma_cut_source(store: StoreView, segments: SegmentsView, id: i64)
    requires
        all_stand(store),
        store.sources.dom().contains(id),
        can_be_cut(store, source_document(store, segments, id)),
    ensures
        spans::indexed(
            store,
            segments,
            "source"@,
            text::decimal(id as int),
            store.sources[id].content,
        ) matches Ok(next) ==> all_stand(next),
{
    reveal_strlit("page");
    reveal_strlit("source");
    assert("page"@.len() == 4 && "source"@.len() == 6);
    text::law_decimal_reads_back(id as int);
    lemma_cut(store, segments, source_document(store, segments, id));
}

proof fn lemma_cut_page(store: StoreView, segments: SegmentsView, slug: Seq<char>)
    requires
        all_stand(store),
        store.pages.dom().contains(slug),
        can_be_cut(store, page_document(store, segments, slug)),
    ensures
        spans::indexed(
            store,
            segments,
            "page"@,
            slug,
            store.pages[slug].body,
        ) matches Ok(next) ==> all_stand(next),
{
    reveal_strlit("page");
    reveal_strlit("source");
    assert("page"@.len() == 4 && "source"@.len() == 6);
    lemma_cut(store, segments, page_document(store, segments, slug));
}

// ---------------------------------------------------------------------------
// Cutting everything anew
// ---------------------------------------------------------------------------

/// All spans that are in use are named after a document that is there, whatever its text is.
pub open spec fn all_housed(store: StoreView) -> bool {
    forall|id: Seq<char>| #[trigger]
        spans::in_use(store.spans, id) ==> {
            let span = store.spans[id];
            &&& spans::document_content(store, span) is Some
            &&& span.document_type == "source"@ ==> span.document_identifier == text::decimal(
                text::reads_as_i64(span.document_identifier)->0,
            )
        }
}

/// The spans of a document that are in use stand.
pub open spec fn document_stands(store: StoreView, document: DocumentView) -> bool {
    forall|id: Seq<char>| #[trigger]
        spans::in_use(store.spans, id) && spans::belongs(store.spans, id, document) ==> stands(
            store,
            id,
        )
}

/// What cutting one document does to the spans of all of them.
proof fn lemma_cut_one(
    store: StoreView,
    segments: SegmentsView,
    document: DocumentView,
    other: DocumentView,
)
    requires
        can_be_cut(store, document),
        document.version == segments.version,
        document.document_type == "page"@ ==> store.pages.dom().contains(document.identifier)
            && store.pages[document.identifier].body == document.content,
        document.document_type == "source"@ ==> (text::reads_as_i64(document.identifier) matches Some(
            id,
        ) && document.identifier == text::decimal(id) && store.sources.dom().contains(id as i64)
            && store.sources[id as i64].content == document.content),
        document.document_type == "page"@ || document.document_type == "source"@,
        all_housed(store),
    ensures
        spans::indexed(
            store,
            segments,
            document.document_type,
            document.identifier,
            document.content,
        ) matches Ok(next) ==> {
            &&& all_housed(next)
            &&& document_stands(next, document)
            &&& document_stands(store, other) ==> document_stands(next, other)
        },
{
    spans::law_indexed_spans_resolve(store, segments, document, 0);
    if let Ok(next) = spans::indexed(
        store,
        segments,
        document.document_type,
        document.identifier,
        document.content,
    ) {
        assert forall|id: Seq<char>| #[trigger]
            spans::in_use(next.spans, id) && spans::belongs(
                next.spans,
                id,
                document,
            ) implies stands(next, id) by {
            assert(spans::span_record(next, id, 0) is Ok);
        }
        assert forall|id: Seq<char>| #[trigger] spans::in_use(next.spans, id) implies {
            let span = next.spans[id];
            &&& spans::document_content(next, span) is Some
            &&& span.document_type == "source"@ ==> span.document_identifier == text::decimal(
                text::reads_as_i64(span.document_identifier)->0,
            )
        } by {
            if spans::belongs(next.spans, id, document) {
                assert(stands(next, id));
            } else {
                assert(spans::same_under(store.spans, next.spans, id));
                assert(spans::in_use(store.spans, id));
            }
        }
        if document_stands(store, other) {
            assert forall|id: Seq<char>| #[trigger]
                spans::in_use(next.spans, id) && spans::belongs(
                    next.spans,
                    id,
                    other,
                ) implies stands(next, id) by {
                if !spans::belongs(next.spans, id, document) {
                    assert(spans::same_under(store.spans, next.spans, id));
                    assert(spans::in_use(store.spans, id));
                    assert(stands(store, id));
                }
            }
        }
    }
}

/// Nothing else stands under the identifiers of the sources when their turn comes.
pub open spec fn sources_can_be_cut(
    store: StoreView,
    segments: SegmentsView,
    ids: Seq<i64>,
) -> bool {
    forall|count: nat|
        count < ids.len() ==> (#[trigger] indexing::sources_cut(
            store,
            segments,
            ids,
            count,
        ) matches Ok(so_far) ==> can_be_cut(
            so_far,
            source_document(store, segments, ids[count as int]),
        ))
}

/// Nothing else stands under the identifiers of the pages when their turn comes.
pub open spec fn pages_can_be_cut(
    store: StoreView,
    segments: SegmentsView,
    slugs: Seq<Seq<char>>,
) -> bool {
    forall|count: nat|
        count < slugs.len() ==> (#[trigger] indexing::pages_cut(
            store,
            segments,
            slugs,
            count,
        ) matches Ok(so_far) ==> can_be_cut(
            so_far,
            page_document(store, segments, slugs[count as int]),
        ))
}

proof fn lemma_sources_cut(
    store: StoreView,
    segments: SegmentsView,
    ids: Seq<i64>,
    count: nat,
    k: int,
)
    requires
        count <= ids.len(),
        0 <= k < ids.len(),
        forall|i: int| 0 <= i < ids.len() ==> store.sources.dom().contains(#[trigger] ids[i]),
        sources_can_be_cut(store, segments, ids),
        all_housed(store),
    ensures
        indexing::sources_cut(store, segments, ids, count) matches Ok(next) ==> {
            &&& all_housed(next)
            &&& next == (StoreView { spans: next.spans, ..store })
            &&& k < count ==> document_stands(next, source_document(store, segments, ids[k]))
        },
    decreases count,
{
    if count > 0 {
        let less = (count - 1) as nat;
        lemma_sources_cut(store, segments, ids, less, k);
        if let Ok(so_far) = indexing::sources_cut(store, segments, ids, less) {
            reveal_strlit("page");
            reveal_strlit("source");
            assert("page"@.len() == 4 && "source"@.len() == 6);
            text::law_decimal_reads_back(ids[less as int] as int);
            assert(store.sources.dom().contains(ids[less as int]));
            lemma_cut_one(
                so_far,
                segments,
                source_document(store, segments, ids[less as int]),
                source_document(store, segments, ids[k]),
            );
        }
    }
}

proof fn lemma_pages_cut(
    store: StoreView,
    segments: SegmentsView,
    slugs: Seq<Seq<char>>,
    count: nat,
    k: int,
    other: DocumentView,
)
    requires
        count <= slugs.len(),
        forall|i: int| 0 <= i < slugs.len() ==> store.pages.dom().contains(#[trigger] slugs[i]),
        pages_can_be_cut(store, segments, slugs),
        all_housed(store),
    ensures
        indexing::pages_cut(store, segments, slugs, count) matches Ok(next) ==> {
            &&& all_housed(next)
            &&& next == (StoreView { spans: next.spans, ..store })
            &&& 0 <= k < count ==> document_stands(next, page_document(store, segments, slugs[k]))
            &&& document_stands(store, other) ==> document_stands(next, other)
        },
    decreases count,
{
    if count > 0 {
        let less = (count - 1) as nat;
        lemma_pages_cut(store, segments, slugs, less, k, other);
        if let Ok(so_far) = indexing::pages_cut(store, segments, slugs, less) {
            reveal_strlit("page");
            reveal_strlit("source");
            assert("page"@.len() == 4 && "source"@.len() == 6);
            assert(store.pages.dom().contains(slugs[less as int]));
            let document = page_document(store, segments, slugs[less as int]);
            lemma_cut_one(so_far, segments, document, other);
            lemma_cut_one(so_far, segments, document, page_document(store, segments, slugs[k]));
        }
    }
}

/// To index a store anew makes every span in use resolvable again, whatever the documents held
/// when the spans were cut before, as long as each of them is named after a document.
pub proof fn law_reindexed_store_stands(
    store: StoreView,
    segments: SegmentsView,
    now: Seq<char>,
    revision: Seq<char>,
)
    requires
        all_housed(store),
        store.sources.dom().finite(),
        store.pages.dom().finite(),
        sources_can_be_cut(store, segments, table::ordered::<i64>(store.sources.dom())),
        indexing::sources_cut(
            store,
            segments,
            table::ordered::<i64>(store.sources.dom()),
            table::ordered::<i64>(store.sources.dom()).len(),
        ) matches Ok(next) ==> pages_can_be_cut(
            next,
            segments,
            table::ordered::<String>(store.pages.dom()),
        ),
    ensures
        maintenance::reindexed(store, segments, now, revision) matches Ok(next) ==> all_stand(next),
{
    if let Ok(next) = maintenance::reindexed(store, segments, now, revision) {
        let ids = table::ordered::<i64>(store.sources.dom());
        let slugs = table::ordered::<String>(store.pages.dom());
        table::lemma_has_order::<i64>(store.sources.dom());
        table::lemma_has_order::<String>(store.pages.dom());
        assert forall|i: int| 0 <= i < ids.len() implies store.sources.dom().contains(
            #[trigger] ids[i],
        ) by {
            assert(ids.to_set().contains(ids[i]));
        }
        assert forall|i: int| 0 <= i < slugs.len() implies store.pages.dom().contains(
            #[trigger] slugs[i],
        ) by {
            assert(slugs.to_set().contains(slugs[i]));
        }
        let done = indexing::all_cut(store, segments)->Ok_0;
        assert(all_stand(done)) by {
            assert forall|id: Seq<char>| #[trigger] spans::in_use(done.spans, id) implies stands(
                done,
                id,
            ) by {
                lemma_one_stands(store, segments, ids, slugs, id);
            }
        }
        lemma_same_texts(done, next);
    }
}

proof fn lemma_one_stands(
    store: StoreView,
    segments: SegmentsView,
    ids: Seq<i64>,
    slugs: Seq<Seq<char>>,
    id: Seq<char>,
)
    requires
        all_housed(store),
        ids.to_set() == store.sources.dom(),
        slugs.to_set() == store.pages.dom(),
        forall|i: int| 0 <= i < ids.len() ==> store.sources.dom().contains(#[trigger] ids[i]),
        forall|i: int| 0 <= i < slugs.len() ==> store.pages.dom().contains(#[trigger] slugs[i]),
        sources_can_be_cut(store, segments, ids),
        indexing::sources_cut(store, segments, ids, ids.len()) matches Ok(half) && pages_can_be_cut(
            half,
            segments,
            slugs,
        ),
        indexing::pages_cut(
            indexing::sources_cut(store, segments, ids, ids.len())->Ok_0,
            segments,
            slugs,
            slugs.len(),
        ) matches Ok(done) && spans::in_use(done.spans, id),
    ensures
        stands(
            indexing::pages_cut(
                indexing::sources_cut(store, segments, ids, ids.len())->Ok_0,
                segments,
                slugs,
                slugs.len(),
            )->Ok_0,
            id,
        ),
{
    let half = indexing::sources_cut(store, segments, ids, ids.len())->Ok_0;
    let done = indexing::pages_cut(half, segments, slugs, slugs.len())->Ok_0;
    indexing::lemma_sources_cut(store, segments, ids, ids.len(), ids.len());
    let span = done.spans[id];
    let nobody = page_document(store, segments, Seq::empty());
    if ids.len() > 0 {
        lemma_sources_cut(store, segments, ids, ids.len(), 0);
    }
    assert(all_housed(half));
    lemma_pages_cut(half, segments, slugs, slugs.len(), -1, nobody);
    assert(spans::document_content(done, span) is Some);
    if span.document_type == "page"@ {
        assert(slugs.to_set().contains(span.document_identifier));
        let k = choose|k: int| 0 <= k < slugs.len() && slugs[k] == span.document_identifier;
        lemma_pages_cut(half, segments, slugs, slugs.len(), k, nobody);
        assert(spans::belongs(done.spans, id, page_document(half, segments, slugs[k])));
    } else {
        let number = text::reads_as_i64(span.document_identifier)->0 as i64;
        assert(ids.to_set().contains(number));
        let k = choose|k: int| 0 <= k < ids.len() && ids[k] == number;
        let document = source_document(store, segments, ids[k]);
        lemma_sources_cut(store, segments, ids, ids.len(), k);
        lemma_pages_cut(half, segments, slugs, slugs.len(), -1, document);
        assert(spans::belongs(done.spans, id, document));
    }
}

// ---------------------------------------------------------------------------
// Taking over another store
// ---------------------------------------------------------------------------

/// Nothing else stands under the identifiers of what changed when its turn comes.
pub open spec fn changes_can_be_cut(
    store: StoreView,
    segments: SegmentsView,
    entries: Set<PairView>,
    ids: Seq<i64>,
    slugs: Seq<Seq<char>>,
) -> bool {
    &&& forall|count: nat|
        count < ids.len() ==> (#[trigger] publish::sources_refreshed(
            store,
            segments,
            entries,
            ids,
            count,
        ) matches Ok(so_far) ==> can_be_cut(
            so_far,
            source_document(store, segments, ids[count as int]),
        ))
    &&& publish::sources_refreshed(store, segments, entries, ids, ids.len()) matches Ok(half)
        ==> forall|count: nat|
        count < slugs.len() ==> (#[trigger] publish::pages_refreshed(
            half,
            segments,
            entries,
            slugs,
            count,
        ) matches Ok(so_far) ==> can_be_cut(
            so_far,
            page_document(half, segments, slugs[count as int]),
        ))
}

proof fn lemma_sources_refreshed(
    store: StoreView,
    segments: SegmentsView,
    entries: Set<PairView>,
    ids: Seq<i64>,
    slugs: Seq<Seq<char>>,
    count: nat,
)
    requires
        all_stand(store),
        count <= ids.len(),
        changes_can_be_cut(store, segments, entries, ids, slugs),
    ensures
        publish::sources_refreshed(store, segments, entries, ids, count) matches Ok(next) ==> {
            &&& all_stand(next)
            &&& next == (StoreView { spans: next.spans, ..store })
        },
    decreases count,
{
    if count > 0 {
        let less = (count - 1) as nat;
        lemma_sources_refreshed(store, segments, entries, ids, slugs, less);
        if let Ok(so_far) = publish::sources_refreshed(store, segments, entries, ids, less) {
            let id = ids[less as int];
            if so_far.sources.dom().contains(id) {
                assert(source_document(store, segments, id) == source_document(
                    so_far,
                    segments,
                    id,
                ));
                lemma_cut_source(so_far, segments, id);
            }
        }
    }
}

proof fn lemma_pages_refreshed(
    store: StoreView,
    segments: SegmentsView,
    entries: Set<PairView>,
    slugs: Seq<Seq<char>>,
    count: nat,
)
    requires
        all_stand(store),
        count <= slugs.len(),
        forall|count: nat|
            count < slugs.len() ==> (#[trigger] publish::pages_refreshed(
                store,
                segments,
                entries,
                slugs,
                count,
            ) matches Ok(so_far) ==> can_be_cut(
                so_far,
                page_document(store, segments, slugs[count as int]),
            )),
    ensures
        publish::pages_refreshed(store, segments, entries, slugs, count) matches Ok(next) ==> {
            &&& all_stand(next)
            &&& next == (StoreView { spans: next.spans, ..store })
        },
    decreases count,
{
    if count > 0 {
        let less = (count - 1) as nat;
        lemma_pages_refreshed(store, segments, entries, slugs, less);
        if let Ok(so_far) = publish::pages_refreshed(store, segments, entries, slugs, less) {
            let slug = slugs[less as int];
            if so_far.pages.dom().contains(slug) {
                assert(page_document(store, segments, slug) == page_document(
                    so_far,
                    segments,
                    slug,
                ));
                lemma_cut_page(so_far, segments, slug);
            }
        }
    }
}

/// A store that takes over all that another one holds, as publishing a full draft and taking a
/// changeset back from a snapshot do, has every span in use resolvable where the other one has.
pub proof fn law_taken_over_store_stands(
    live: StoreView,
    other: StoreView,
    segments: SegmentsView,
    entries: Set<PairView>,
)
    requires
        all_stand(other),
        changes_can_be_cut(
            publish::replaced(live, other),
            segments,
            entries,
            table::ordered::<i64>(publish::changed_sources(live, other)),
            table::ordered::<String>(publish::changed_pages(live, other)),
        ),
    ensures
        publish::taken_over(live, other, segments, entries) matches Ok(next) ==> all_stand(next),
{
    let bare = publish::replaced(live, other);
    let ids = table::ordered::<i64>(publish::changed_sources(live, other));
    let slugs = table::ordered::<String>(publish::changed_pages(live, other));
    lemma_same_texts(other, bare);
    lemma_sources_refreshed(bare, segments, entries, ids, slugs, ids.len());
    if let Ok(half) = publish::sources_refreshed(bare, segments, entries, ids, ids.len()) {
        lemma_pages_refreshed(half, segments, entries, slugs, slugs.len());
    }
}

// ---------------------------------------------------------------------------
// Searching
// ---------------------------------------------------------------------------

/// Every result of a search in the spans of such a store can be looked up, and gives the text
/// that the result shows.
pub proof fn law_every_result_resolves(
    store: StoreView,
    hits: Seq<HitView>,
    limit: nat,
    options: SearchOptionsView,
    version: i64,
    k: int,
)
    requires
        all_stand(store),
        forall|j: int| 0 <= j < hits.len() ==> span_hits::comes_from(store, #[trigger] hits[j]),
        0 <= k < search::results(store, hits, limit, options).len(),
    ensures
        ({
            let result = search::results(store, hits, limit, options)[k];
            &&& spans::span_record(store, result.identifier, version) matches Ok(record)
            &&& record.text == result.snippet
            &&& spans::text_between(
                spans::document_content(store, store.spans[result.identifier])->0,
                result.span->0.byte_start as int,
                result.span->0.byte_end as int,
            ) == Some(result.snippet)
        }),
{
    span_hits::law_search_results_resolve(store, hits, limit, options, version, k);
    let result = search::results(store, hits, limit, options)[k];
    assert(stands(store, result.identifier));
}

} // verus!
