//! Hits in passages and sentences.
use crate::digest;
use crate::error;
use crate::error::{AppError, AppErrorView, ErrorCode};
use crate::rows::{SpanRow, SpanView};
use crate::search;
use crate::search::{
    DocumentRef, DocumentRefView, HitView, SearchHit, SearchOptionsView, SpanPlace, SpanPlaceView,
};
use crate::spans;
use crate::spans::slice_bytes;
use crate::store::{Store, StoreView};
use crate::text;
use crate::text::{copy_opt, owned, parse_i64, same_text};
use vstd::prelude::*;

verus! {

/// A hit in a span, and where its document stands.
pub struct SpanHit {
    pub hit: SearchHit,
    /// The slug of the page, or the origin of the source.
    pub path: String,
    pub structural_navigation: bool,
}

#[verifier::ext_equal]
pub struct SpanHitView {
    pub hit: HitView,
    pub path: Seq<char>,
    pub structural_navigation: bool,
}

impl View for SpanHit {
    type V = SpanHitView;

    open spec fn view(&self) -> SpanHitView {
        SpanHitView {
            hit: self.hit@,
            path: self.path@,
            structural_navigation: self.structural_navigation,
        }
    }
}

/// The text of a span in its document, where there is one at its place.
pub open spec fn snippet(content: Seq<char>, span: SpanView) -> Seq<char> {
    match spans::text_between(
        content,
        (span.byte_start as usize) as int,
        (span.byte_end as usize) as int,
    ) {
        Some(said) => said,
        None => Seq::empty(),
    }
}

/// The hit in a span of a document with this title, kind and summary.
pub open spec fn plain_hit(
    id: Seq<char>,
    span: SpanView,
    content: Seq<char>,
    title: Option<Seq<char>>,
    kind: Option<Seq<char>>,
    summary: Option<Seq<char>>,
) -> HitView {
    HitView {
        result_type: span.span_type,
        identifier: id,
        document: Some(
            DocumentRefView {
                document_type: span.document_type,
                identifier: span.document_identifier,
            },
        ),
        span: Some(
            SpanPlaceView {
                parent_identifier: span.parent_identifier,
                ordinal: span.ordinal as usize,
                byte_start: span.byte_start as usize,
                byte_end: span.byte_end as usize,
                content_fingerprint: span.content_fingerprint,
                segmenter_version: span.segmenter_version,
            },
        ),
        title,
        kind,
        summary,
        snippet: snippet(content, span),
        provenance: Seq::empty(),
        paired_source_ids: Seq::empty(),
        rank: 0,
        explanation: None,
    }
}

/// The hit in the span with an identifier that the index names: none where the span is not in
/// use. A span that is in use has a document.
pub open spec fn hit_goal(store: StoreView, id: Seq<char>) -> Result<
    Option<SpanHitView>,
    AppErrorView,
> {
    if !spans::in_use(store.spans, id) {
        Ok(None)
    } else {
        let span = store.spans[id];
        match spans::document_content(store, span) {
            None => error::refused(ErrorCode::DatabaseError, "Invalid column type Null"@),
            Some(content) => Ok(
                Some(
                    if span.document_type == "page"@ {
                        let page = store.pages[span.document_identifier];
                        SpanHitView {
                            hit: plain_hit(
                                id,
                                span,
                                content,
                                Some(page.title),
                                page.kind,
                                page.summary,
                            ),
                            path: span.document_identifier,
                            structural_navigation: page.structural_navigation,
                        }
                    } else {
                        let number = text::reads_as_i64(span.document_identifier)->0;
                        let source = store.sources[number as i64];
                        SpanHitView {
                            hit: plain_hit(id, span, content, source.title, None, None),
                            path: source.origin,
                            structural_navigation: source.structural_navigation,
                        }
                    },
                ),
            ),
        }
    }
}

fn make_hit(
    id: &str,
    span: &SpanRow,
    content: &str,
    title: Option<String>,
    kind: Option<String>,
    summary: Option<String>,
) -> (r: SearchHit)
    ensures
        r@ == plain_hit(
            id@,
            span@,
            content@,
            text::opt_text(title),
            text::opt_text(kind),
            text::opt_text(summary),
        ),
{
    let byte_start = span.byte_start as usize;
    let byte_end = span.byte_end as usize;
    let snippet = match slice_bytes(content, byte_start, byte_end) {
        Some(said) => said,
        None => String::new(),
    };
    let hit = SearchHit {
        result_type: owned(span.span_type.as_str()),
        identifier: owned(id),
        document: Some(
            DocumentRef {
                document_type: owned(span.document_type.as_str()),
                identifier: owned(span.document_identifier.as_str()),
            },
        ),
        span: Some(
            SpanPlace {
                parent_identifier: owned(span.parent_identifier.as_str()),
                ordinal: span.ordinal as usize,
                byte_start,
                byte_end,
                content_fingerprint: owned(span.content_fingerprint.as_str()),
                segmenter_version: span.segmenter_version,
            },
        ),
        title,
        kind,
        summary,
        snippet,
        provenance: Vec::new(),
        paired_source_ids: Vec::new(),
        rank: 0,
        explanation: None,
    };
    assert(hit@ =~= plain_hit(
        id@,
        span@,
        content@,
        text::opt_text(title),
        text::opt_text(kind),
        text::opt_text(summary),
    ));
    hit
}

impl Store {
    /// The hit in a span that the index names.
    pub fn span_hit(&self, id: &String) -> (r: Result<Option<SpanHit>, AppError>)
        ensures
            match hit_goal(self@, id@) {
                Ok(found) => r matches Ok(got) && text::opt_view(got) == found,
                Err(e) => r matches Err(got) && got@ == e,
            },
    {
        proof {
            reveal_strlit("page");
            reveal_strlit("source");
            assert("page"@.len() == 4 && "source"@.len() == 6);
        }
        let span = match self.spans.get(id) {
            Some(span) => span,
            None => {
                return Ok(None);
            },
        };
        if !span.active {
            return Ok(None);
        }
        if same_text(span.document_type.as_str(), "page") {
            if let Some(page) = self.pages.get(&span.document_identifier) {
                return Ok(
                    Some(
                        SpanHit {
                            hit: make_hit(
                                id.as_str(),
                                span,
                                page.body.as_str(),
                                Some(owned(page.title.as_str())),
                                copy_opt(&page.kind),
                                copy_opt(&page.summary),
                            ),
                            path: owned(span.document_identifier.as_str()),
                            structural_navigation: page.structural_navigation,
                        },
                    ),
                );
            }
        } else if same_text(span.document_type.as_str(), "source") {
            if let Some(number) = parse_i64(span.document_identifier.as_str()) {
                if let Some(source) = self.sources.get(&number) {
                    return Ok(
                        Some(
                            SpanHit {
                                hit: make_hit(
                                    id.as_str(),
                                    span,
                                    source.content.as_str(),
                                    copy_opt(&source.title),
                                    None,
                                    None,
                                ),
                                path: owned(source.origin.as_str()),
                                structural_navigation: source.structural_navigation,
                            },
                        ),
                    );
                }
            }
        }
        Err(AppError::new(ErrorCode::DatabaseError, "Invalid column type Null"))
    }
}

// ---------------------------------------------------------------------------
// Laws
// ---------------------------------------------------------------------------

/// The text of the document of a span is still the one that the span was cut from, and has a
/// text at its place.
pub open spec fn holds(store: StoreView, id: Seq<char>) -> bool {
    let span = store.spans[id];
    &&& spans::document_content(store, span) matches Some(content)
    &&& digest::text_digest(content) == span.content_fingerprint
    &&& 0 <= span.byte_start <= usize::MAX
    &&& 0 <= span.byte_end <= usize::MAX
    &&& spans::text_between(content, span.byte_start as int, span.byte_end as int) is Some
}

/// What a hit says can be looked up: the span that it names has the text that it shows, which
/// is the text of the document at that place. Where the document has changed since the span
/// was cut, the span is stale. An identifier that was never indexed is not found.
pub proof fn law_span_hits_resolve(store: StoreView, id: Seq<char>, version: i64)
    ensures
        hit_goal(store, id) matches Ok(Some(found)) ==> {
            let span = store.spans[id];
            let content = spans::document_content(store, span)->0;
            &&& found.hit.identifier == id
            &&& spans::span_record(store, id, version) is Ok == holds(store, id)
            &&& spans::span_record(store, id, version) matches Ok(record) ==> {
                &&& record.text == found.hit.snippet
                &&& found.hit.document == Some(
                    DocumentRefView {
                        document_type: record.document_type,
                        identifier: record.document_identifier,
                    },
                )
                &&& found.hit.span->0.byte_start == record.byte_start
                &&& found.hit.span->0.byte_end == record.byte_end
                &&& spans::text_between(
                    content,
                    record.byte_start as int,
                    record.byte_end as int,
                ) == Some(found.hit.snippet)
            }
            &&& digest::text_digest(content) != span.content_fingerprint ==> {
                &&& spans::span_record(store, id, version) matches Err(e)
                &&& e.code == ErrorCode::StaleSpan
            }
        },
        !store.spans.dom().contains(id) ==> {
            &&& spans::span_record(store, id, version) matches Err(e)
            &&& e.code == ErrorCode::SpanNotFound
        },
{
}

/// A hit is the one in the span that it names, but for how well it fits and why.
pub open spec fn comes_from(store: StoreView, hit: HitView) -> bool {
    &&& hit_goal(store, hit.identifier) matches Ok(Some(found))
    &&& hit == HitView { rank: hit.rank, explanation: hit.explanation, ..found.hit }
}

/// The results of a search in spans resolve: each names a span of the store, and to look it up
/// gives the text that the result shows, unless its document was changed behind the index.
pub proof fn law_search_results_resolve(
    store: StoreView,
    hits: Seq<HitView>,
    limit: nat,
    options: SearchOptionsView,
    version: i64,
    k: int,
)
    requires
        forall|j: int| 0 <= j < hits.len() ==> comes_from(store, #[trigger] hits[j]),
        0 <= k < search::results(store, hits, limit, options).len(),
    ensures
        ({
            let result = search::results(store, hits, limit, options)[k];
            let span = store.spans[result.identifier];
            &&& spans::in_use(store.spans, result.identifier)
            &&& result.span is Some
            &&& holds(store, result.identifier) ==> {
                &&& spans::span_record(store, result.identifier, version) matches Ok(record)
                &&& record.text == result.snippet
                &&& spans::text_between(
                    spans::document_content(store, span)->0,
                    result.span->0.byte_start as int,
                    result.span->0.byte_end as int,
                ) == Some(result.snippet)
            }
        }),
{
    let last = search::last_for(options.mode);
    let all = search::sorted(hits, last, hits.len());
    search::law_hits_come_in_order(hits, last, hits.len());
    assert(hits.take(hits.len() as int) =~= hits);
    let hit = all[k];
    assert(hits.contains(hit)) by {
        broadcast use vstd::seq_lib::group_to_multiset_ensures;

        assert(all.contains(hit));
        assert(all.to_multiset().count(hit) > 0);
        assert(hits.to_multiset().count(hit) > 0);
    }
    let j = choose|j: int| 0 <= j < hits.len() && hits[j] == hit;
    assert(comes_from(store, hits[j]));
    law_span_hits_resolve(store, hit.identifier, version);
}

} // verus!
