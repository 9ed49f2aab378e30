//! What of pages, sources and their spans goes into the text index.
use crate::error;
use crate::error::{AppError, AppErrorView, ErrorCode};
use crate::paging::{Rank, RankView};
use crate::rows::{SpanRow, SpanView};
use crate::search_text;
use crate::search_text::source_title_terms;
use crate::spans;
use crate::spans::{slice_bytes, Segments, SegmentsView, Sentence, SentenceView};
use crate::store::{Store, StoreView};
use crate::table;
use crate::table::{
    copy_records, same_records, Pair, PairView, Record, Table, TableKey, Triple, TripleView,
};
use crate::text;
use crate::text::{
    copy_opt, copy_texts, decimal_text, join2, join3, owned, parse_i64, same_opt, same_text,
    same_texts,
};
use vstd::prelude::*;

verus! {

// ---------------------------------------------------------------------------
// Documents
// ---------------------------------------------------------------------------

/// A document as the text index has it, before its texts are cut into terms.
pub struct IndexEntry {
    pub doc_type: String,
    pub identifier: String,
    pub title: String,
    pub path: String,
    pub summary: String,
    pub body: String,
}

#[verifier::ext_equal]
pub struct IndexEntryView {
    pub doc_type: Seq<char>,
    pub identifier: Seq<char>,
    pub title: Seq<char>,
    pub path: Seq<char>,
    pub summary: Seq<char>,
    pub body: Seq<char>,
}

impl View for IndexEntry {
    type V = IndexEntryView;

    open spec fn view(&self) -> IndexEntryView {
        IndexEntryView {
            doc_type: self.doc_type@,
            identifier: self.identifier@,
            title: self.title@,
            path: self.path@,
            summary: self.summary@,
            body: self.body@,
        }
    }
}

impl Record for IndexEntry {
    fn duplicate(&self) -> (r: Self) {
        IndexEntry {
            doc_type: owned(self.doc_type.as_str()),
            identifier: owned(self.identifier.as_str()),
            title: owned(self.title.as_str()),
            path: owned(self.path.as_str()),
            summary: owned(self.summary.as_str()),
            body: owned(self.body.as_str()),
        }
    }

    fn same(&self, other: &Self) -> (r: bool) {
        same_text(self.doc_type.as_str(), other.doc_type.as_str())
            && same_text(self.identifier.as_str(), other.identifier.as_str())
            && same_text(self.title.as_str(), other.title.as_str())
            && same_text(self.path.as_str(), other.path.as_str())
            && same_text(self.summary.as_str(), other.summary.as_str())
            && same_text(self.body.as_str(), other.body.as_str())
    }
}

pub open spec fn or_empty(value: Option<Seq<char>>) -> Seq<char> {
    match value {
        Some(t) => t,
        None => Seq::empty(),
    }
}

/// A page as the text index has it.
pub open spec fn page_entry(store: StoreView, slug: Seq<char>) -> Option<IndexEntryView> {
    if store.pages.dom().contains(slug) {
        let page = store.pages[slug];
        Some(
            IndexEntryView {
                doc_type: "page"@,
                identifier: slug,
                title: page.title,
                path: slug,
                summary: or_empty(page.summary),
                body: page.body,
            },
        )
    } else {
        None
    }
}

/// A source as the text index has it. The leaf and the parent are those of its origin.
pub open spec fn source_entry(
    store: StoreView,
    id: i64,
    leaf: Seq<char>,
    parent: Seq<char>,
) -> Option<IndexEntryView> {
    if store.sources.dom().contains(id) {
        let source = store.sources[id];
        Some(
            IndexEntryView {
                doc_type: "source"@,
                identifier: text::decimal(id as int),
                title: search_text::title_text(or_empty(source.title), source.origin, leaf),
                path: parent,
                summary: Seq::empty(),
                body: source.content,
            },
        )
    } else {
        None
    }
}

fn text_or_empty(value: &Option<String>) -> (r: String)
    ensures
        r@ == or_empty(text::opt_text(*value)),
{
    match value {
        Some(t) => owned(t.as_str()),
        None => {
            let none = String::new();
            assert(none@ =~= Seq::<char>::empty());
            none
        },
    }
}

impl Store {
    /// A page as the text index has it.
    pub fn index_page(&self, slug: &str) -> (r: Option<IndexEntry>)
        ensures
            text::opt_view(r) == page_entry(self@, slug@),
    {
        match self.pages.get(&owned(slug)) {
            Some(page) => Some(
                IndexEntry {
                    doc_type: owned("page"),
                    identifier: owned(slug),
                    title: owned(page.title.as_str()),
                    path: owned(slug),
                    summary: text_or_empty(&page.summary),
                    body: owned(page.body.as_str()),
                },
            ),
            None => None,
        }
    }

    /// A source as the text index has it. The leaf and the parent are those of its origin.
    pub fn index_source(&self, id: i64, leaf: &str, parent: &str) -> (r: Option<IndexEntry>)
        ensures
            text::opt_view(r) == source_entry(self@, id, leaf@, parent@),
    {
        match self.sources.get(&id) {
            Some(source) => {
                let title = text_or_empty(&source.title);
                let summary = String::new();
                assert(summary@ =~= Seq::<char>::empty());
                Some(
                    IndexEntry {
                        doc_type: owned("source"),
                        identifier: decimal_text(id),
                        title: source_title_terms(title.as_str(), source.origin.as_str(), leaf),
                        path: owned(parent),
                        summary,
                        body: owned(source.content.as_str()),
                    },
                )
            },
            None => None,
        }
    }
}

/// The leaf and the parent of the origin of a source.
pub open spec fn place_in(places: Map<i64, PairView>, id: i64) -> PairView {
    if places.dom().contains(id) {
        places[id]
    } else {
        table::pair(Seq::empty(), Seq::empty())
    }
}

/// All that the text index has: one entry for each source, by identifier, then one for each
/// page, by slug. `places` holds the leaf and the parent of the origin of each source.
pub open spec fn all_entries(store: StoreView, places: Map<i64, PairView>) -> Seq<IndexEntryView> {
    table::ordered::<i64>(store.sources.dom()).map_values(
        |id: i64|
            source_entry(store, id, place_in(places, id).first, place_in(places, id).second)->0,
    ) + table::ordered::<String>(store.pages.dom()).map_values(
        |slug: Seq<char>| page_entry(store, slug)->0,
    )
}

impl Store {
    /// All that the text index has.
    pub fn index_entries(&self, places: &Table<i64, Pair>) -> (r: Vec<IndexEntry>)
        ensures
            text::views(r@) == all_entries(self@, places@),
    {
        let mut out: Vec<IndexEntry> = Vec::new();
        let n = self.sources.len();
        let m = self.pages.len();
        let ghost ids = table::ordered::<i64>(self@.sources.dom());
        let ghost slugs = table::ordered::<String>(self@.pages.dom());
        proof {
            table::lemma_ordered_is::<i64>(self.sources.keys(), self@.sources.dom());
            table::lemma_ordered_is::<String>(self.pages.keys(), self@.pages.dom());
        }
        let ghost goal = all_entries(self@, places@);
        let mut i: usize = 0;
        while i < n
            invariant
                i <= n == ids.len(),
                ids == self.sources.keys(),
                goal == all_entries(self@, places@),
                goal.len() == n + m,
                text::views(out@) == goal.take(i as int),
            decreases n - i,
        {
            let id = *self.sources.key_at(i);
            assert(ids.to_set().contains(id)) by {
                assert(ids[i as int] == id);
            }
            let entry = match places.get(&id) {
                Some(place) => self.index_source(id, place.first.as_str(), place.second.as_str()),
                None => {
                    let none = String::new();
                    assert(none@ =~= Seq::<char>::empty());
                    self.index_source(id, none.as_str(), none.as_str())
                },
            };
            if let Some(one) = entry {
                proof {
                    assert(one@ == goal[i as int]);
                    text::lemma_views_push(out@, one);
                    assert(goal.take(i + 1) =~= goal.take(i as int).push(goal[i as int]));
                }
                out.push(one);
            }
            i += 1;
        }
        let mut j: usize = 0;
        while j < m
            invariant
                j <= m == slugs.len(),
                n == ids.len(),
                slugs == self.pages.keys(),
                goal == all_entries(self@, places@),
                goal.len() == n + m,
                text::views(out@) == goal.take(n + j),
            decreases m - j,
        {
            let slug = self.pages.key_at(j);
            assert(slugs.to_set().contains(slug@)) by {
                assert(slugs[j as int] == slug@);
            }
            if let Some(one) = self.index_page(slug.as_str()) {
                proof {
                    assert(one@ == goal[n + j]);
                    text::lemma_views_push(out@, one);
                    assert(goal.take(n + j + 1) =~= goal.take(n + j).push(goal[n + j]));
                }
                out.push(one);
            }
            j += 1;
        }
        assert(goal.take(n + m) =~= goal);
        out
    }
}

/// An entry is that of a source or of a page of the store.
pub open spec fn is_entry_of_one(
    store: StoreView,
    places: Map<i64, PairView>,
    entry: IndexEntryView,
) -> bool {
    ||| exists|id: i64| #[trigger]
        store.sources.dom().contains(id) && entry == source_entry(
            store,
            id,
            place_in(places, id).first,
            place_in(places, id).second,
        )->0
    ||| exists|slug: Seq<char>| #[trigger]
        store.pages.dom().contains(slug) && entry == page_entry(store, slug)->0
}

/// The text index has an entry for every source and for every page, and no other: each entry
/// is that of the source or the page that it names.
pub proof fn law_index_covers_everything(store: StoreView, places: Map<i64, PairView>)
    requires
        store.sources.dom().finite(),
        store.pages.dom().finite(),
    ensures
        all_entries(store, places).len() == store.sources.dom().len() + store.pages.dom().len(),
        forall|id: i64| #[trigger]
            store.sources.dom().contains(id) ==> all_entries(store, places).contains(
                source_entry(
                    store,
                    id,
                    place_in(places, id).first,
                    place_in(places, id).second,
                )->0,
            ),
        forall|slug: Seq<char>| #[trigger]
            store.pages.dom().contains(slug) ==> all_entries(store, places).contains(
                page_entry(store, slug)->0,
            ),
        forall|k: int|
            0 <= k < all_entries(store, places).len() ==> is_entry_of_one(
                store,
                places,
                #[trigger] all_entries(store, places)[k],
            ),
{
    let ids = table::ordered::<i64>(store.sources.dom());
    let slugs = table::ordered::<String>(store.pages.dom());
    let all = all_entries(store, places);
    table::lemma_has_order::<i64>(store.sources.dom());
    table::lemma_has_order::<String>(store.pages.dom());
    table::lemma_in_order_distinct::<i64>(ids);
    table::lemma_in_order_distinct::<String>(slugs);
    ids.unique_seq_to_set();
    slugs.unique_seq_to_set();
    assert forall|id: i64| #[trigger] store.sources.dom().contains(id) implies all.contains(
        source_entry(store, id, place_in(places, id).first, place_in(places, id).second)->0,
    ) by {
        assert(ids.to_set().contains(id));
        let k = ids.index_of(id);
        assert(all[k] == source_entry(
            store,
            id,
            place_in(places, id).first,
            place_in(places, id).second,
        )->0);
    }
    assert forall|slug: Seq<char>| #[trigger] store.pages.dom().contains(slug) implies all.contains(
        page_entry(store, slug)->0,
    ) by {
        assert(slugs.to_set().contains(slug));
        let k = slugs.index_of(slug);
        assert(all[ids.len() + k] == page_entry(store, slug)->0);
    }
    assert forall|k: int| 0 <= k < all.len() implies is_entry_of_one(
        store,
        places,
        #[trigger] all[k],
    ) by {
        if k < ids.len() {
            assert(ids.to_set().contains(ids[k]));
        } else {
            assert(slugs.to_set().contains(slugs[k - ids.len()]));
        }
    }
}

// ---------------------------------------------------------------------------
// Spans
// ---------------------------------------------------------------------------

/// A passage with the headings that it stands under.
pub struct HeadedPassage {
    pub start: usize,
    pub end: usize,
    pub headings: Vec<String>,
    pub sentences: Vec<Sentence>,
}

#[verifier::ext_equal]
pub struct HeadedPassageView {
    pub start: usize,
    pub end: usize,
    pub headings: Seq<Seq<char>>,
    pub sentences: Seq<SentenceView>,
}

impl View for HeadedPassage {
    type V = HeadedPassageView;

    open spec fn view(&self) -> HeadedPassageView {
        HeadedPassageView {
            start: self.start,
            end: self.end,
            headings: text::views(self.headings@),
            sentences: text::views(self.sentences@),
        }
    }
}

impl Record for HeadedPassage {
    fn duplicate(&self) -> (r: Self) {
        HeadedPassage {
            start: self.start,
            end: self.end,
            headings: copy_texts(&self.headings),
            sentences: copy_records(&self.sentences),
        }
    }

    fn same(&self, other: &Self) -> (r: bool) {
        self.start == other.start
            && self.end == other.end
            && same_texts(&self.headings, &other.headings)
            && same_records(&self.sentences, &other.sentences)
    }
}

/// What the segmenter made of a document: its passages, or why there are none.
pub struct HeadedDocument {
    pub failure: Option<String>,
    pub passages: Vec<HeadedPassage>,
}

#[verifier::ext_equal]
pub struct HeadedDocumentView {
    pub failure: Option<Seq<char>>,
    pub passages: Seq<HeadedPassageView>,
}

impl View for HeadedDocument {
    type V = HeadedDocumentView;

    open spec fn view(&self) -> HeadedDocumentView {
        HeadedDocumentView {
            failure: text::opt_text(self.failure),
            passages: text::views(self.passages@),
        }
    }
}

impl Record for HeadedDocument {
    fn duplicate(&self) -> (r: Self) {
        HeadedDocument {
            failure: copy_opt(&self.failure),
            passages: copy_records(&self.passages),
        }
    }

    fn same(&self, other: &Self) -> (r: bool) {
        same_opt(&self.failure, &other.failure)
            && same_records(&self.passages, &other.passages)
    }
}

/// A span as the text index has it, before its texts are cut into terms.
pub struct SpanEntry {
    pub span_id: String,
    pub span_type: String,
    pub document_type: String,
    pub document_identifier: String,
    pub title: String,
    pub path: String,
    pub headings: String,
    pub label: String,
}

#[verifier::ext_equal]
pub struct SpanEntryView {
    pub span_id: Seq<char>,
    pub span_type: Seq<char>,
    pub document_type: Seq<char>,
    pub document_identifier: Seq<char>,
    pub title: Seq<char>,
    pub path: Seq<char>,
    pub headings: Seq<char>,
    pub label: Seq<char>,
}

impl View for SpanEntry {
    type V = SpanEntryView;

    open spec fn view(&self) -> SpanEntryView {
        SpanEntryView {
            span_id: self.span_id@,
            span_type: self.span_type@,
            document_type: self.document_type@,
            document_identifier: self.document_identifier@,
            title: self.title@,
            path: self.path@,
            headings: self.headings@,
            label: self.label@,
        }
    }
}

impl Record for SpanEntry {
    fn duplicate(&self) -> (r: Self) {
        SpanEntry {
            span_id: owned(self.span_id.as_str()),
            span_type: owned(self.span_type.as_str()),
            document_type: owned(self.document_type.as_str()),
            document_identifier: owned(self.document_identifier.as_str()),
            title: owned(self.title.as_str()),
            path: owned(self.path.as_str()),
            headings: owned(self.headings.as_str()),
            label: owned(self.label.as_str()),
        }
    }

    fn same(&self, other: &Self) -> (r: bool) {
        same_text(self.span_id.as_str(), other.span_id.as_str())
            && same_text(self.span_type.as_str(), other.span_type.as_str())
            && same_text(self.document_type.as_str(), other.document_type.as_str())
            && same_text(self.document_identifier.as_str(), other.document_identifier.as_str())
            && same_text(self.title.as_str(), other.title.as_str())
            && same_text(self.path.as_str(), other.path.as_str())
            && same_text(self.headings.as_str(), other.headings.as_str())
            && same_text(self.label.as_str(), other.label.as_str())
    }
}

/// Texts with a space between them.
pub open spec fn spaced_out(list: Seq<Seq<char>>) -> Seq<char>
    decreases list.len(),
{
    if list.len() == 0 {
        Seq::empty()
    } else if list.len() == 1 {
        list[0]
    } else {
        spaced_out(list.drop_last()) + " "@ + list.last()
    }
}

fn join_spaced(list: &Vec<String>) -> (r: String)
    ensures
        r@ == spaced_out(text::views(list@)),
{
    let ghost all = text::views(list@);
    let mut out = String::new();
    assert(out@ =~= Seq::empty());
    assert(all.take(0) =~= Seq::empty());
    let mut i: usize = 0;
    while i < list.len()
        invariant
            i <= list@.len() == all.len(),
            all == text::views(list@),
            out@ == spaced_out(all.take(i as int)),
        decreases list@.len() - i,
    {
        assert(all.take(i + 1).drop_last() =~= all.take(i as int));
        assert(all.take(i + 1).last() == list@[i as int]@);
        assert(i == 0 ==> all.take(i + 1)[0] == list@[i as int]@);
        out = if i == 0 {
            owned(list[i].as_str())
        } else {
            join3(out.as_str(), " ", list[i].as_str())
        };
        i += 1;
    }
    assert(all.take(all.len() as int) =~= all);
    out
}

/// A passage covers exactly these bytes, itself or with one of its sentences.
pub open spec fn covers(passage: HeadedPassageView, start: int, end: int) -> bool {
    ||| passage.start == start && passage.end == end
    ||| exists|k: int|
        0 <= k < passage.sentences.len() && (#[trigger] passage.sentences[k]).start == start
            && passage.sentences[k].end == end
}

/// The headings over these bytes: those of the last passage that covers them.
pub open spec fn headings_over(
    passages: Seq<HeadedPassageView>,
    start: int,
    end: int,
    count: nat,
) -> Seq<char>
    decreases count,
{
    if count == 0 || count > passages.len() {
        Seq::empty()
    } else if covers(passages[count - 1], start, end) {
        spaced_out(passages[count - 1].headings)
    } else {
        headings_over(passages, start, end, (count - 1) as nat)
    }
}

fn passage_covers(passage: &HeadedPassage, start: usize, end: usize) -> (r: bool)
    ensures
        r == covers(passage@, start as int, end as int),
{
    if passage.start == start && passage.end == end {
        return true;
    }
    let ghost all = passage@.sentences;
    let mut i: usize = 0;
    while i < passage.sentences.len()
        invariant
            i <= passage.sentences@.len() == all.len(),
            all == text::views(passage.sentences@),
            forall|k: int|
                0 <= k < i ==> !((#[trigger] all[k]).start == start && all[k].end == end),
        decreases passage.sentences@.len() - i,
    {
        assert(all[i as int] == passage.sentences@[i as int]@);
        if passage.sentences[i].start == start && passage.sentences[i].end == end {
            assert(passage@.sentences[i as int].start == start);
            return true;
        }
        i += 1;
    }
    false
}

fn find_headings(passages: &Vec<HeadedPassage>, start: usize, end: usize) -> (r: String)
    ensures
        r@ == headings_over(text::views(passages@), start as int, end as int, passages@.len()),
{
    let ghost all = text::views(passages@);
    let mut i: usize = passages.len();
    while i > 0
        invariant
            i <= passages@.len() == all.len(),
            all == text::views(passages@),
            headings_over(all, start as int, end as int, all.len()) == headings_over(
                all,
                start as int,
                end as int,
                i as nat,
            ),
        decreases i,
    {
        assert(all[i - 1] == passages@[i - 1]@);
        if passage_covers(&passages[i - 1], start, end) {
            return join_spaced(&passages[i - 1].headings);
        }
        i -= 1;
    }
    let none = String::new();
    assert(none@ =~= Seq::<char>::empty());
    none
}

/// The order in which spans go into the index: by document, kind, ordinal and identifier.
pub struct SpanPlaceKey {
    pub place: Triple,
    pub rank: Rank,
}

#[verifier::ext_equal]
pub struct SpanPlaceKeyView {
    pub place: TripleView,
    pub rank: RankView,
}

impl View for SpanPlaceKey {
    type V = SpanPlaceKeyView;

    open spec fn view(&self) -> SpanPlaceKeyView {
        SpanPlaceKeyView { place: self.place@, rank: self.rank@ }
    }
}

impl TableKey for SpanPlaceKey {
    open spec fn precedes(a: SpanPlaceKeyView, b: SpanPlaceKeyView) -> bool {
        Triple::precedes(a.place, b.place) || a.place == b.place && Rank::precedes(a.rank, b.rank)
    }

    proof fn lemma_order(a: SpanPlaceKeyView, b: SpanPlaceKeyView, c: SpanPlaceKeyView) {
        Triple::lemma_order(a.place, b.place, c.place);
        Rank::lemma_order(a.rank, b.rank, c.rank);
    }

    fn is_before(&self, other: &Self) -> (r: bool) {
        self.place.is_before(&other.place) || self.place.is_same(&other.place)
            && self.rank.is_before(&other.rank)
    }

    fn is_same(&self, other: &Self) -> (r: bool) {
        self.place.is_same(&other.place) && self.rank.is_same(&other.rank)
    }

    fn again(&self) -> (r: Self) {
        SpanPlaceKey { place: self.place.again(), rank: self.rank.again() }
    }
}

/// Where a span stands in the index.
pub open spec fn place_of(id: Seq<char>, span: SpanView) -> SpanPlaceKeyView {
    SpanPlaceKeyView {
        place: table::triple(span.document_type, span.document_identifier, span.span_type),
        rank: RankView { ordinal: span.ordinal as int, id },
    }
}

/// The places of the active spans.
pub open spec fn active_places(store: StoreView) -> Set<SpanPlaceKeyView> {
    Set::new(
        |key: SpanPlaceKeyView|
            store.spans.dom().contains(key.rank.id) && store.spans[key.rank.id].active && key
                == place_of(key.rank.id, store.spans[key.rank.id]),
    )
}

/// The title and the path of the document that a span belongs to.
pub open spec fn title_and_path(store: StoreView, span: SpanView) -> (Seq<char>, Seq<char>) {
    if span.document_type == "page"@ {
        (store.pages[span.document_identifier].title, span.document_identifier)
    } else {
        let source = store.sources[text::reads_as_i64(span.document_identifier)->0 as i64];
        (
            match source.title {
                Some(title) => title,
                None => source.origin,
            },
            source.origin,
        )
    }
}

/// What the segmenter made of the document of a span.
pub open spec fn headed(headings: Map<PairView, HeadedDocumentView>, span: SpanView) -> Result<
    Seq<HeadedPassageView>,
    AppErrorView,
> {
    let key = PairView { first: span.document_type, second: span.document_identifier };
    if !headings.dom().contains(key) {
        error::refused(
            ErrorCode::GraphIndexCapacityExceeded,
            "document segmentation failed: no segments"@,
        )
    } else {
        match headings[key].failure {
            Some(reason) => error::refused(
                ErrorCode::GraphIndexCapacityExceeded,
                "document segmentation failed: "@ + reason,
            ),
            None => Ok(headings[key].passages),
        }
    }
}

/// A span as the text index has it.
pub open spec fn span_entry(
    store: StoreView,
    headings: Map<PairView, HeadedDocumentView>,
    id: Seq<char>,
) -> Result<SpanEntryView, AppErrorView> {
    let span = store.spans[id];
    match spans::document_content(store, span) {
        None => error::refused(ErrorCode::DatabaseError, "Invalid column type Null"@),
        Some(content) => if !(0 <= span.byte_start <= usize::MAX) {
            error::refused(ErrorCode::ChangesetCorrupt, "negative search span start"@)
        } else if !(0 <= span.byte_end <= usize::MAX) {
            error::refused(ErrorCode::ChangesetCorrupt, "negative search span end"@)
        } else {
            match spans::text_between(content, span.byte_start as int, span.byte_end as int) {
                None => error::refused(
                    ErrorCode::ChangesetCorrupt,
                    "search span has an invalid byte range"@,
                ),
                Some(label) => match headed(headings, span) {
                    Err(e) => Err(e),
                    Ok(passages) => Ok(
                        SpanEntryView {
                            span_id: id,
                            span_type: span.span_type,
                            document_type: span.document_type,
                            document_identifier: span.document_identifier,
                            title: title_and_path(store, span).0,
                            path: title_and_path(store, span).1,
                            headings: headings_over(
                                passages,
                                span.byte_start as int,
                                span.byte_end as int,
                                passages.len(),
                            ),
                            label,
                        },
                    ),
                },
            }
        },
    }
}

/// Some active span belongs to no document.
pub open spec fn has_stray(store: StoreView) -> bool {
    exists|id: Seq<char>| #[trigger]
        store.spans.dom().contains(id) && store.spans[id].active && spans::document_content(
            store,
            store.spans[id],
        ) is None
}

/// The first spans as the text index has them.
pub open spec fn span_entries(
    store: StoreView,
    headings: Map<PairView, HeadedDocumentView>,
    places: Seq<SpanPlaceKeyView>,
    count: nat,
) -> Result<Seq<SpanEntryView>, AppErrorView>
    decreases count,
{
    if count == 0 || count > places.len() {
        Ok(Seq::empty())
    } else {
        match span_entries(store, headings, places, (count - 1) as nat) {
            Err(e) => Err(e),
            Ok(head) => match span_entry(store, headings, places[count - 1].rank.id) {
                Err(e) => Err(e),
                Ok(one) => Ok(head.push(one)),
            },
        }
    }
}

/// The active spans as the text index has them.
pub open spec fn span_index(store: StoreView, headings: Map<PairView, HeadedDocumentView>) -> Result<
    Seq<SpanEntryView>,
    AppErrorView,
> {
    let places = table::ordered::<SpanPlaceKey>(active_places(store));
    if has_stray(store) {
        error::refused(ErrorCode::DatabaseError, "Invalid column type Null"@)
    } else {
        span_entries(store, headings, places, places.len())
    }
}

proof fn lemma_entries_stop(
    store: StoreView,
    headings: Map<PairView, HeadedDocumentView>,
    places: Seq<SpanPlaceKeyView>,
    count: nat,
    more: nat,
)
    requires
        0 < count <= more <= places.len(),
        span_entries(store, headings, places, count) is Err,
    ensures
        span_entries(store, headings, places, more) == span_entries(
            store,
            headings,
            places,
            count,
        ),
    decreases more - count,
{
    if count < more {
        lemma_entries_stop(store, headings, places, count, (more - 1) as nat);
    }
}

/// The content, the title and the path of the document that a span belongs to.
struct SpanDocument {
    content: String,
    title: String,
    path: String,
}

fn find_span_document(store: &Store, span: &SpanRow) -> (r: Option<SpanDocument>)
    ensures
        match spans::document_content(store@, span@) {
            None => r is None,
            Some(content) => {
                &&& r matches Some(found)
                &&& found.content@ == content
                &&& (found.title@, found.path@) == title_and_path(store@, span@)
            },
        },
{
    proof {
        reveal_strlit("page");
        reveal_strlit("source");
        assert("page"@.len() == 4 && "source"@.len() == 6);
    }
    if same_text(span.document_type.as_str(), "page") {
        return match store.pages.get(&span.document_identifier) {
            Some(page) => Some(
                SpanDocument {
                    content: owned(page.body.as_str()),
                    title: owned(page.title.as_str()),
                    path: owned(span.document_identifier.as_str()),
                },
            ),
            None => None,
        };
    }
    if !same_text(span.document_type.as_str(), "source") {
        return None;
    }
    match parse_i64(span.document_identifier.as_str()) {
        None => None,
        Some(id) => match store.sources.get(&id) {
            Some(source) => Some(
                SpanDocument {
                    content: owned(source.content.as_str()),
                    title: match &source.title {
                        Some(title) => owned(title.as_str()),
                        None => owned(source.origin.as_str()),
                    },
                    path: owned(source.origin.as_str()),
                },
            ),
            None => None,
        },
    }
}

fn make_span_entry(
    store: &Store,
    headings: &Table<Pair, HeadedDocument>,
    id: &String,
    span: &SpanRow,
) -> (r: Result<SpanEntry, AppError>)
    requires
        store@.spans.dom().contains(id@),
        span@ == store@.spans[id@],
    ensures
        error::outcome(r) == span_entry(store@, headings@, id@),
{
    let document = match find_span_document(store, span) {
        Some(document) => document,
        None => {
            return Err(AppError::new(ErrorCode::DatabaseError, "Invalid column type Null"));
        },
    };
    if span.byte_start < 0 || span.byte_start as u64 > usize::MAX as u64 {
        return Err(AppError::new(ErrorCode::ChangesetCorrupt, "negative search span start"));
    }
    if span.byte_end < 0 || span.byte_end as u64 > usize::MAX as u64 {
        return Err(AppError::new(ErrorCode::ChangesetCorrupt, "negative search span end"));
    }
    let label = slice_bytes(
        document.content.as_str(),
        span.byte_start as usize,
        span.byte_end as usize,
    );
    let label = match label {
        Some(label) => label,
        None => {
            return Err(
                AppError::new(ErrorCode::ChangesetCorrupt, "search span has an invalid byte range"),
            );
        },
    };
    let key = Pair {
        first: owned(span.document_type.as_str()),
        second: owned(span.document_identifier.as_str()),
    };
    let found = match headings.get(&key) {
        Some(found) => found,
        None => {
            return Err(
                AppError::new(
                    ErrorCode::GraphIndexCapacityExceeded,
                    "document segmentation failed: no segments",
                ),
            );
        },
    };
    if let Some(reason) = &found.failure {
        return Err(
            AppError::new(
                ErrorCode::GraphIndexCapacityExceeded,
                join2("document segmentation failed: ", reason.as_str()).as_str(),
            ),
        );
    }
    assert(text::views(found.passages@).len() == found.passages@.len());
    let over = find_headings(
        &found.passages,
        span.byte_start as usize,
        span.byte_end as usize,
    );
    Ok(
        SpanEntry {
            span_id: owned(id.as_str()),
            span_type: owned(span.span_type.as_str()),
            document_type: owned(span.document_type.as_str()),
            document_identifier: owned(span.document_identifier.as_str()),
            title: document.title,
            path: document.path,
            headings: over,
            label,
        },
    )
}

/// Whether some active span belongs to no document.
fn find_stray(store: &Store) -> (r: bool)
    ensures
        r == has_stray(store@),
{
    let n = store.spans.len();
    let ghost keys = store.spans.keys();
    let mut i: usize = 0;
    while i < n
        invariant
            i <= n == keys.len(),
            keys == store.spans.keys(),
            forall|j: int|
                0 <= j < i ==> !(store@.spans[#[trigger] keys[j]].active && spans::document_content(
                    store@,
                    store@.spans[keys[j]],
                ) is None),
        decreases n - i,
    {
        let span = store.spans.value_at(i);
        if span.active && find_span_document(store, span).is_none() {
            assert(store@.spans.dom().contains(keys[i as int]));
            return true;
        }
        i += 1;
    }
    proof {
        assert forall|id: Seq<char>| #[trigger]
            store@.spans.dom().contains(id) implies !(store@.spans[id].active
            && spans::document_content(store@, store@.spans[id]) is None) by {
            assert(keys.to_set().contains(id));
            let j = keys.index_of(id);
            assert(keys[j] == id);
        }
    }
    false
}

fn list_places(store: &Store) -> (r: Table<SpanPlaceKey, bool>)
    ensures
        r@.dom() == active_places(store@),
{
    let n = store.spans.len();
    let ghost keys = store.spans.keys();
    let ghost goal = active_places(store@);
    let mut out: Table<SpanPlaceKey, bool> = Table::new();
    let mut i: usize = 0;
    while i < n
        invariant
            i <= n == keys.len(),
            keys == store.spans.keys(),
            goal == active_places(store@),
            forall|key: SpanPlaceKeyView|
                #[trigger] out@.dom().contains(key) == (keys.take(i as int).contains(key.rank.id)
                    && goal.contains(key)),
        decreases n - i,
    {
        let id = store.spans.key_at(i);
        let span = store.spans.value_at(i);
        proof {
            table::lemma_take_more(keys, i as int);
        }
        if span.active {
            let key = SpanPlaceKey {
                place: Triple::new(
                    span.document_type.as_str(),
                    span.document_identifier.as_str(),
                    span.span_type.as_str(),
                ),
                rank: Rank { ordinal: span.ordinal, id: owned(id.as_str()) },
            };
            assert(key@ == place_of(id@, span@));
            out.put(key, true);
        }
        i += 1;
    }
    proof {
        assert(keys.take(n as int) =~= keys);
        assert forall|key: SpanPlaceKeyView| out@.dom().contains(key) == goal.contains(key) by {
            assert(keys.to_set().contains(key.rank.id) == store@.spans.dom().contains(key.rank.id));
        }
        assert(out@.dom() =~= goal);
    }
    out
}

impl Store {
    /// The active spans as the text index has them, in the order in which they go into it.
    pub fn rebuild_span_index(&self, headings: &Table<Pair, HeadedDocument>) -> (r: Result<
        Vec<SpanEntry>,
        AppError,
    >)
        ensures
            match span_index(self@, headings@) {
                Ok(entries) => r matches Ok(list) && text::views(list@) == entries,
                Err(e) => r matches Err(got) && got@ == e,
            },
    {
        if find_stray(self) {
            return Err(AppError::new(ErrorCode::DatabaseError, "Invalid column type Null"));
        }
        let order = list_places(self);
        let n = order.len();
        let ghost places = order.keys();
        proof {
            table::lemma_ordered_is::<SpanPlaceKey>(places, active_places(self@));
        }
        let mut out: Vec<SpanEntry> = Vec::new();
        assert(text::views(out@) =~= Seq::empty());
        let mut i: usize = 0;
        while i < n
            invariant
                i <= n == places.len(),
                places == order.keys(),
                table::lists::<SpanPlaceKey>(places, active_places(self@)),
                span_entries(self@, headings@, places, i as nat) == Ok::<
                    Seq<SpanEntryView>,
                    AppErrorView,
                >(text::views(out@)),
            decreases n - i,
        {
            let key = order.key_at(i);
            proof {
                assert(places.to_set().contains(key@));
                assert(active_places(self@).contains(key@));
            }
            match self.spans.get(&key.rank.id) {
                Some(span) => match make_span_entry(self, headings, &key.rank.id, span) {
                    Ok(one) => {
                        proof {
                            text::lemma_views_push(out@, one);
                        }
                        out.push(one);
                    },
                    Err(e) => {
                        proof {
                            lemma_entries_stop(
                                self@,
                                headings@,
                                places,
                                (i + 1) as nat,
                                places.len(),
                            );
                        }
                        return Err(e);
                    },
                },
                None => {
                    assert(false);
                },
            }
            i += 1;
        }
        Ok(out)
    }
}

// ---------------------------------------------------------------------------
// Spans that cannot be indexed
// ---------------------------------------------------------------------------

/// Why an active span cannot go into the index.
pub open spec fn span_fault(store: StoreView, segments: SegmentsView, id: Seq<char>) -> Option<
    AppErrorView,
> {
    let span = store.spans[id];
    match spans::document_content(store, span) {
        None => Some(error::app_error(ErrorCode::DatabaseError, "Invalid column type Null"@)),
        Some(content) => if !(0 <= span.byte_start <= usize::MAX) {
            Some(error::app_error(ErrorCode::ChangesetCorrupt, "negative search span start"@))
        } else if !(0 <= span.byte_end <= usize::MAX) {
            Some(error::app_error(ErrorCode::ChangesetCorrupt, "negative search span end"@))
        } else if spans::text_between(content, span.byte_start as int, span.byte_end as int)
            is None {
            Some(
                error::app_error(
                    ErrorCode::ChangesetCorrupt,
                    "search span has an invalid byte range"@,
                ),
            )
        } else {
            match spans::passages_of(segments, content) {
                Err(e) => Some(e),
                Ok(_) => None,
            }
        },
    }
}

/// Why the first of these spans that cannot go into the index cannot.
pub open spec fn first_fault(
    store: StoreView,
    segments: SegmentsView,
    places: Seq<SpanPlaceKeyView>,
    count: nat,
) -> Option<AppErrorView>
    decreases count,
{
    if count == 0 || count > places.len() {
        None
    } else {
        match first_fault(store, segments, places, (count - 1) as nat) {
            Some(e) => Some(e),
            None => span_fault(store, segments, places[count - 1].rank.id),
        }
    }
}

/// Why the active spans of a store cannot go into the index: one belongs to no document, or
/// has a range that its document does not, or its document cannot be cut.
pub open spec fn spans_refused(store: StoreView, segments: SegmentsView) -> Option<AppErrorView> {
    let places = table::ordered::<SpanPlaceKey>(active_places(store));
    if has_stray(store) {
        Some(error::app_error(ErrorCode::DatabaseError, "Invalid column type Null"@))
    } else {
        first_fault(store, segments, places, places.len())
    }
}

proof fn lemma_fault_stop(
    store: StoreView,
    segments: SegmentsView,
    places: Seq<SpanPlaceKeyView>,
    count: nat,
    more: nat,
)
    requires
        count <= more <= places.len(),
        first_fault(store, segments, places, count) is Some,
    ensures
        first_fault(store, segments, places, more) == first_fault(store, segments, places, count),
    decreases more,
{
    if count < more {
        lemma_fault_stop(store, segments, places, count, (more - 1) as nat);
    }
}

fn find_span_fault(store: &Store, segments: &Segments, id: &String, span: &SpanRow) -> (r: Option<
    AppError,
>)
    requires
        span@ == store@.spans[id@],
    ensures
        text::opt_view(r) == span_fault(store@, segments@, id@),
{
    let document = match find_span_document(store, span) {
        Some(document) => document,
        None => {
            return Some(AppError::new(ErrorCode::DatabaseError, "Invalid column type Null"));
        },
    };
    if span.byte_start < 0 || span.byte_start as u64 > usize::MAX as u64 {
        return Some(AppError::new(ErrorCode::ChangesetCorrupt, "negative search span start"));
    }
    if span.byte_end < 0 || span.byte_end as u64 > usize::MAX as u64 {
        return Some(AppError::new(ErrorCode::ChangesetCorrupt, "negative search span end"));
    }
    let label = slice_bytes(
        document.content.as_str(),
        span.byte_start as usize,
        span.byte_end as usize,
    );
    if label.is_none() {
        return Some(
            AppError::new(ErrorCode::ChangesetCorrupt, "search span has an invalid byte range"),
        );
    }
    match segments.find_passages(document.content.as_str()) {
        Ok(_) => None,
        Err(e) => Some(e),
    }
}

/// Why the active spans of a store cannot go into the index.
pub fn refuse_spans(store: &Store, segments: &Segments) -> (r: Option<AppError>)
    ensures
        text::opt_view(r) == spans_refused(store@, segments@),
{
    if find_stray(store) {
        return Some(AppError::new(ErrorCode::DatabaseError, "Invalid column type Null"));
    }
    let order = list_places(store);
    let n = order.len();
    let ghost places = order.keys();
    proof {
        table::lemma_ordered_is::<SpanPlaceKey>(places, active_places(store@));
    }
    let mut i: usize = 0;
    while i < n
        invariant
            i <= n == places.len(),
            places == order.keys(),
            table::lists::<SpanPlaceKey>(places, active_places(store@)),
            first_fault(store@, segments@, places, i as nat) is None,
        decreases n - i,
    {
        let key = order.key_at(i);
        proof {
            assert(places.to_set().contains(key@));
            assert(active_places(store@).contains(key@));
            if first_fault(store@, segments@, places, (i + 1) as nat) is Some {
                lemma_fault_stop(store@, segments@, places, (i + 1) as nat, places.len());
            }
        }
        if let Some(span) = store.spans.get(&key.rank.id) {
            if let Some(e) = find_span_fault(store, segments, &key.rank.id, span) {
                return Some(e);
            }
        }
        i += 1;
    }
    None
}

// ---------------------------------------------------------------------------
// Cutting every document anew
// ---------------------------------------------------------------------------

/// The store with the first `count` of these sources cut anew.
pub open spec fn sources_cut(store: StoreView, segments: SegmentsView, ids: Seq<i64>, count: nat)
    -> Result<StoreView, AppErrorView>
    decreases count,
{
    if count == 0 || count > ids.len() {
        Ok(store)
    } else {
        match sources_cut(store, segments, ids, (count - 1) as nat) {
            Err(e) => Err(e),
            Ok(so_far) => {
                let id = ids[count - 1];
                spans::indexed(
                    so_far,
                    segments,
                    "source"@,
                    text::decimal(id as int),
                    so_far.sources[id].content,
                )
            },
        }
    }
}

/// The store with the first `count` of these pages cut anew.
pub open spec fn pages_cut(
    store: StoreView,
    segments: SegmentsView,
    slugs: Seq<Seq<char>>,
    count: nat,
) -> Result<StoreView, AppErrorView>
    decreases count,
{
    if count == 0 || count > slugs.len() {
        Ok(store)
    } else {
        match pages_cut(store, segments, slugs, (count - 1) as nat) {
            Err(e) => Err(e),
            Ok(so_far) => {
                let slug = slugs[count - 1];
                spans::indexed(so_far, segments, "page"@, slug, so_far.pages[slug].body)
            },
        }
    }
}

/// The store with every document cut anew: the sources by identifier, then the pages by slug.
pub open spec fn all_cut(store: StoreView, segments: SegmentsView) -> Result<
    StoreView,
    AppErrorView,
> {
    let ids = table::ordered::<i64>(store.sources.dom());
    let slugs = table::ordered::<String>(store.pages.dom());
    match sources_cut(store, segments, ids, ids.len()) {
        Err(e) => Err(e),
        Ok(next) => pages_cut(next, segments, slugs, slugs.len()),
    }
}

/// Cutting sources changes their spans alone.
pub proof fn lemma_sources_cut(
    store: StoreView,
    segments: SegmentsView,
    ids: Seq<i64>,
    count: nat,
    more: nat,
)
    requires
        count <= more <= ids.len(),
    ensures
        sources_cut(store, segments, ids, count) matches Ok(next) ==> next == (StoreView {
            spans: next.spans,
            ..store
        }),
        sources_cut(store, segments, ids, count) is Err ==> sources_cut(
            store,
            segments,
            ids,
            more,
        ) == sources_cut(store, segments, ids, count),
    decreases more,
{
    if count < more {
        lemma_sources_cut(store, segments, ids, count, (more - 1) as nat);
    } else if count > 0 {
        lemma_sources_cut(store, segments, ids, (count - 1) as nat, (count - 1) as nat);
    }
}

/// Cutting pages changes their spans alone.
pub proof fn lemma_pages_cut(
    store: StoreView,
    segments: SegmentsView,
    slugs: Seq<Seq<char>>,
    count: nat,
    more: nat,
)
    requires
        count <= more <= slugs.len(),
    ensures
        pages_cut(store, segments, slugs, count) matches Ok(next) ==> next == (StoreView {
            spans: next.spans,
            ..store
        }),
        pages_cut(store, segments, slugs, count) is Err ==> pages_cut(store, segments, slugs, more)
            == pages_cut(store, segments, slugs, count),
    decreases more,
{
    if count < more {
        lemma_pages_cut(store, segments, slugs, count, (more - 1) as nat);
    } else if count > 0 {
        lemma_pages_cut(store, segments, slugs, (count - 1) as nat, (count - 1) as nat);
    }
}

/// Cutting every document anew changes the spans alone.
pub proof fn lemma_all_cut(store: StoreView, segments: SegmentsView)
    ensures
        all_cut(store, segments) matches Ok(next) ==> next == (StoreView {
            spans: next.spans,
            ..store
        }),
{
    let ids = table::ordered::<i64>(store.sources.dom());
    let slugs = table::ordered::<String>(store.pages.dom());
    lemma_sources_cut(store, segments, ids, ids.len(), ids.len());
    if let Ok(next) = sources_cut(store, segments, ids, ids.len()) {
        lemma_pages_cut(next, segments, slugs, slugs.len(), slugs.len());
    }
}

impl Store {
    /// Cuts every document of a store anew that is given up on an error.
    pub(crate) fn cut_all(&mut self, segments: &Segments) -> (r: Result<(), AppError>)
        ensures
            match all_cut(old(self)@, segments@) {
                Ok(next) => r is Ok && final(self)@ == next,
                Err(e) => r matches Err(got) && got@ == e,
            },
    {
        let ghost start = self@;
        let ghost ids = table::ordered::<i64>(start.sources.dom());
        let ghost slugs = table::ordered::<String>(start.pages.dom());
        let n = self.sources.len();
        let m = self.pages.len();
        proof {
            table::lemma_ordered_is::<i64>(self.sources.keys(), start.sources.dom());
            table::lemma_ordered_is::<String>(self.pages.keys(), start.pages.dom());
        }
        let sources = self.sources.copy();
        let pages = self.pages.copy();
        let mut i: usize = 0;
        while i < n
            invariant
                i <= n == ids.len(),
                sources.keys() == ids,
                sources@ == start.sources,
                sources_cut(start, segments@, ids, i as nat) == Ok::<StoreView, AppErrorView>(
                    self@,
                ),
            decreases n - i,
        {
            proof {
                lemma_sources_cut(start, segments@, ids, i as nat, i as nat);
                lemma_sources_cut(start, segments@, ids, (i + 1) as nat, ids.len());
            }
            let id = *sources.key_at(i);
            let name = decimal_text(id);
            let row = sources.value_at(i);
            if let Err(e) = self.index_spans(
                segments,
                "source",
                name.as_str(),
                row.content.as_str(),
            ) {
                return Err(e);
            }
            i += 1;
        }
        let ghost between = self@;
        proof {
            lemma_sources_cut(start, segments@, ids, ids.len(), ids.len());
        }
        let mut i: usize = 0;
        while i < m
            invariant
                i <= m == slugs.len(),
                pages.keys() == slugs,
                pages@ == start.pages,
                between.pages == start.pages,
                pages_cut(between, segments@, slugs, i as nat) == Ok::<StoreView, AppErrorView>(
                    self@,
                ),
            decreases m - i,
        {
            proof {
                lemma_pages_cut(between, segments@, slugs, i as nat, i as nat);
                lemma_pages_cut(between, segments@, slugs, (i + 1) as nat, slugs.len());
            }
            let slug = pages.key_at(i);
            let row = pages.value_at(i);
            if let Err(e) = self.index_spans(segments, "page", slug.as_str(), row.body.as_str()) {
                return Err(e);
            }
            i += 1;
        }
        Ok(())
    }
}

} // verus!
