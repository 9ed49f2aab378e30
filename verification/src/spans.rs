//! Spans: the passages and sentences of documents, by which a search points into
//! them.
use crate::digest;
use crate::digest::hash_content;
use crate::error;
use crate::error::{AppError, AppErrorView, ErrorCode};
use crate::json;
use crate::json::{Json, JsonView};
use crate::paging;
use crate::paging::{page_bounds, Rank, RankView};
use crate::rows::{SpanRow, SpanView};
use crate::store::{Store, StoreView};
use crate::table;
use crate::table::{
    copy_record_opt, copy_records, same_record_opt, same_records, Record, Table,
};
use crate::text;
use crate::text::{
    copy_opt, join2, join3, join4, join5, natural_text, owned, parse_i64, same_opt, same_text,
};
use vstd::prelude::*;
use vstd::utf8;

verus! {

// ---------------------------------------------------------------------------
// Segments
// ---------------------------------------------------------------------------

/// A sentence of a passage, by its bytes in the document.
pub struct Sentence {
    pub ordinal: usize,
    pub start: usize,
    pub end: usize,
}

#[verifier::ext_equal]
pub struct SentenceView {
    pub ordinal: usize,
    pub start: usize,
    pub end: usize,
}

impl View for Sentence {
    type V = SentenceView;

    open spec fn view(&self) -> SentenceView {
        SentenceView {
            ordinal: self.ordinal,
            start: self.start,
            end: self.end,
        }
    }
}

impl Record for Sentence {
    fn duplicate(&self) -> (r: Self) {
        Sentence {
            ordinal: self.ordinal,
            start: self.start,
            end: self.end,
        }
    }

    fn same(&self, other: &Self) -> (r: bool) {
        self.ordinal == other.ordinal
            && self.start == other.start
            && self.end == other.end
    }
}


/// A passage of a document, by its bytes, and its sentences.
pub struct Passage {
    pub ordinal: usize,
    pub start: usize,
    pub end: usize,
    pub sentences: Vec<Sentence>,
}

#[verifier::ext_equal]
pub struct PassageView {
    pub ordinal: usize,
    pub start: usize,
    pub end: usize,
    pub sentences: Seq<SentenceView>,
}

impl View for Passage {
    type V = PassageView;

    open spec fn view(&self) -> PassageView {
        PassageView {
            ordinal: self.ordinal,
            start: self.start,
            end: self.end,
            sentences: text::views(self.sentences@),
        }
    }
}

impl Record for Passage {
    fn duplicate(&self) -> (r: Self) {
        Passage {
            ordinal: self.ordinal,
            start: self.start,
            end: self.end,
            sentences: copy_records(&self.sentences),
        }
    }

    fn same(&self, other: &Self) -> (r: bool) {
        self.ordinal == other.ordinal
            && self.start == other.start
            && self.end == other.end
            && same_records(&self.sentences, &other.sentences)
    }
}


/// What the segmenter made of a document: its passages, or why there are none.
pub struct Segmented {
    pub failure: Option<String>,
    pub passages: Vec<Passage>,
}

#[verifier::ext_equal]
pub struct SegmentedView {
    pub failure: Option<Seq<char>>,
    pub passages: Seq<PassageView>,
}

impl View for Segmented {
    type V = SegmentedView;

    open spec fn view(&self) -> SegmentedView {
        SegmentedView {
            failure: text::opt_text(self.failure),
            passages: text::views(self.passages@),
        }
    }
}

impl Record for Segmented {
    fn duplicate(&self) -> (r: Self) {
        Segmented {
            failure: copy_opt(&self.failure),
            passages: copy_records(&self.passages),
        }
    }

    fn same(&self, other: &Self) -> (r: bool) {
        same_opt(&self.failure, &other.failure)
            && same_records(&self.passages, &other.passages)
    }
}


/// What the segmenter made of documents, by the digest of their content.
pub struct Segments {
    pub version: i64,
    pub contents: Table<String, Segmented>,
}

#[verifier::ext_equal]
pub struct SegmentsView {
    pub version: i64,
    pub contents: Map<Seq<char>, SegmentedView>,
}

impl View for Segments {
    type V = SegmentsView;

    open spec fn view(&self) -> SegmentsView {
        SegmentsView { version: self.version, contents: self.contents@ }
    }
}

// ---------------------------------------------------------------------------
// Text by bytes
// ---------------------------------------------------------------------------

/// The text between two byte offsets, where both stand between characters.
pub open spec fn text_between(content: Seq<char>, start: int, end: int) -> Option<Seq<char>> {
    let bytes = utf8::encode_utf8(content);
    if 0 <= start <= end <= bytes.len() && utf8::is_char_boundary(bytes, start)
        && utf8::is_char_boundary(bytes, end) {
        Some(utf8::decode_utf8(bytes.subrange(start, end)))
    } else {
        None
    }
}

proof fn lemma_slice_valid(bytes: Seq<u8>, start: int, end: int)
    requires
        utf8::valid_utf8(bytes),
        0 <= start <= end <= bytes.len(),
        utf8::is_char_boundary(bytes, start),
        utf8::is_char_boundary(bytes, end),
    ensures
        utf8::valid_utf8(bytes.subrange(start, end)),
{
    let head = bytes.subrange(0, end);
    utf8::valid_utf8_split(bytes, end);
    if start == end {
        assert(bytes.subrange(start, end) =~= Seq::<u8>::empty());
    } else {
        utf8::is_char_boundary_iff_not_is_continuation_byte(bytes, start);
        utf8::is_char_boundary_iff_not_is_continuation_byte(head, start);
        assert(head[start] == bytes[start]);
        utf8::valid_utf8_split(head, start);
        assert(head.subrange(start, head.len() as int) =~= bytes.subrange(start, end));
    }
}

/// The text between two byte offsets.
pub fn slice_bytes(content: &str, start: usize, end: usize) -> (r: Option<String>)
    ensures
        text::opt_text(r) == text_between(content@, start as int, end as int),
{
    let bytes = content.as_bytes();
    proof {
        utf8::encode_utf8_valid_utf8(content@);
    }
    if start > end || end > bytes.len() || !content.is_char_boundary(start)
        || !content.is_char_boundary(end) {
        return None;
    }
    proof {
        lemma_slice_valid(utf8::encode_utf8(content@), start as int, end as int);
    }
    let part = vstd::slice::slice_to_vec(vstd::slice::slice_subrange(bytes, start, end));
    let found = text::utf8_text(&part);
    proof {
        utf8::encode_utf8_decode_utf8(found->0@);
    }
    found
}

// ---------------------------------------------------------------------------
// The index of spans
// ---------------------------------------------------------------------------

/// The spans with those of a document switched off.
pub open spec fn deactivated(
    spans: Map<Seq<char>, SpanView>,
    document_type: Seq<char>,
    identifier: Seq<char>,
) -> Map<Seq<char>, SpanView> {
    spans.map_values(
        |span: SpanView|
            if span.document_type == document_type && span.document_identifier == identifier {
                SpanView { active: false, ..span }
            } else {
                span
            },
    )
}

/// A document as its spans are indexed.
#[verifier::ext_equal]
pub struct DocumentView {
    pub document_type: Seq<char>,
    pub identifier: Seq<char>,
    pub content: Seq<char>,
    pub version: i64,
}

impl DocumentView {
    pub open spec fn key(self) -> Seq<char> {
        self.document_type + ":"@ + self.identifier
    }

    pub open spec fn fingerprint(self) -> Seq<char> {
        digest::text_digest(self.content)
    }
}

/// The identifier of a span.
pub open spec fn span_id(
    kind: Seq<char>,
    document: DocumentView,
    start: usize,
    end: usize,
) -> Seq<char> {
    "span:"@ + digest::text_digest(
        kind + "\0"@ + document.key() + "\0"@ + document.fingerprint() + "\0"@ + text::natural(
            start as nat,
        ) + "\0"@ + text::natural(end as nat),
    )
}

/// The index with a span: a known one is switched on again, a new one is added.
pub open spec fn with_span(
    spans: Map<Seq<char>, SpanView>,
    document: DocumentView,
    kind: Seq<char>,
    parent: Seq<char>,
    ordinal: usize,
    start: usize,
    end: usize,
) -> Result<Map<Seq<char>, SpanView>, AppErrorView> {
    let id = span_id(kind, document, start, end);
    if text_between(document.content, start as int, end as int) is None {
        error::refused(ErrorCode::InvalidSpan, "Markdown span is outside its document"@)
    } else if spans.dom().contains(id) {
        Ok(spans.insert(id, SpanView { active: true, ..spans[id] }))
    } else {
        Ok(
            spans.insert(
                id,
                SpanView {
                    span_type: kind,
                    document_type: document.document_type,
                    document_identifier: document.identifier,
                    parent_identifier: parent,
                    ordinal: ordinal as i64,
                    byte_start: start as i64,
                    byte_end: end as i64,
                    content_fingerprint: document.fingerprint(),
                    segmenter_version: document.version,
                    active: true,
                },
            ),
        )
    }
}

/// The index with the first `count` sentences of a passage.
pub open spec fn with_sentences(
    spans: Map<Seq<char>, SpanView>,
    document: DocumentView,
    parent: Seq<char>,
    sentences: Seq<SentenceView>,
    count: nat,
) -> Result<Map<Seq<char>, SpanView>, AppErrorView>
    decreases count,
{
    if count == 0 || count > sentences.len() {
        Ok(spans)
    } else {
        match with_sentences(spans, document, parent, sentences, (count - 1) as nat) {
            Err(e) => Err(e),
            Ok(so_far) => {
                let sentence = sentences[count - 1];
                with_span(
                    so_far,
                    document,
                    "sentence"@,
                    parent,
                    sentence.ordinal,
                    sentence.start,
                    sentence.end,
                )
            },
        }
    }
}

/// The index with a passage and its sentences.
pub open spec fn with_passage(
    spans: Map<Seq<char>, SpanView>,
    document: DocumentView,
    passage: PassageView,
) -> Result<Map<Seq<char>, SpanView>, AppErrorView> {
    match with_span(
        spans,
        document,
        "passage"@,
        document.key(),
        passage.ordinal,
        passage.start,
        passage.end,
    ) {
        Err(e) => Err(e),
        Ok(next) => with_sentences(
            next,
            document,
            span_id("passage"@, document, passage.start, passage.end),
            passage.sentences,
            passage.sentences.len(),
        ),
    }
}

/// The index with the first `count` passages of a document.
pub open spec fn with_passages(
    spans: Map<Seq<char>, SpanView>,
    document: DocumentView,
    passages: Seq<PassageView>,
    count: nat,
) -> Result<Map<Seq<char>, SpanView>, AppErrorView>
    decreases count,
{
    if count == 0 || count > passages.len() {
        Ok(spans)
    } else {
        match with_passages(spans, document, passages, (count - 1) as nat) {
            Err(e) => Err(e),
            Ok(so_far) => with_passage(so_far, document, passages[count - 1]),
        }
    }
}

/// What the segmenter made of a content.
pub open spec fn passages_of(segments: SegmentsView, content: Seq<char>) -> Result<
    Seq<PassageView>,
    AppErrorView,
> {
    let key = digest::text_digest(content);
    if !segments.contents.dom().contains(key) {
        error::refused(
            ErrorCode::GraphIndexCapacityExceeded,
            "document segmentation failed: no segments"@,
        )
    } else {
        match segments.contents[key].failure {
            Some(reason) => error::refused(
                ErrorCode::GraphIndexCapacityExceeded,
                "document segmentation failed: "@ + reason,
            ),
            None => Ok(segments.contents[key].passages),
        }
    }
}

/// The store with the spans of a document indexed anew.
pub open spec fn indexed(
    store: StoreView,
    segments: SegmentsView,
    document_type: Seq<char>,
    identifier: Seq<char>,
    content: Seq<char>,
) -> Result<StoreView, AppErrorView> {
    match passages_of(segments, content) {
        Err(e) => Err(e),
        Ok(passages) => {
            let document = DocumentView {
                document_type,
                identifier,
                content,
                version: segments.version,
            };
            match with_passages(
                deactivated(store.spans, document_type, identifier),
                document,
                passages,
                passages.len(),
            ) {
                Err(e) => Err(e),
                Ok(spans) => Ok(StoreView { spans, ..store }),
            }
        },
    }
}

/// A document whose spans are being indexed.
struct Indexing<'a> {
    document_type: &'a str,
    identifier: &'a str,
    content: &'a str,
    version: i64,
    fingerprint: String,
    key: String,
}

impl<'a> Indexing<'a> {
    spec fn model(self) -> DocumentView {
        DocumentView {
            document_type: self.document_type@,
            identifier: self.identifier@,
            content: self.content@,
            version: self.version,
        }
    }

    spec fn ready(self) -> bool {
        &&& self.fingerprint@ == self.model().fingerprint()
        &&& self.key@ == self.model().key()
    }

    fn id_of(&self, kind: &str, start: usize, end: usize) -> (r: String)
        requires
            self.ready(),
        ensures
            r@ == span_id(kind@, self.model(), start, end),
    {
        let head = join5(kind, "\0", self.key.as_str(), "\0", self.fingerprint.as_str());
        let tail = join4(
            "\0",
            natural_text(start as u128).as_str(),
            "\0",
            natural_text(end as u128).as_str(),
        );
        let whole = join2(head.as_str(), tail.as_str());
        assert(whole@ =~= kind@ + "\0"@ + self.model().key() + "\0"@ + self.model().fingerprint()
            + "\0"@ + text::natural(start as nat) + "\0"@ + text::natural(end as nat));
        join2("span:", hash_content(whole.as_str()).as_str())
    }

    fn put(
        &self,
        spans: &mut Table<String, SpanRow>,
        kind: &str,
        parent: &str,
        ordinal: usize,
        start: usize,
        end: usize,
    ) -> (r: Result<(), AppError>)
        requires
            self.ready(),
        ensures
            match with_span(
                old(spans)@,
                self.model(),
                kind@,
                parent@,
                ordinal,
                start,
                end,
            ) {
                Ok(next) => r is Ok && final(spans)@ == next,
                Err(e) => r matches Err(got) && got@ == e,
            },
    {
        if slice_bytes(self.content, start, end).is_none() {
            return Err(
                AppError::new(ErrorCode::InvalidSpan, "Markdown span is outside its document"),
            );
        }
        let id = self.id_of(kind, start, end);
        let row = match spans.get(&id) {
            Some(known) => {
                let mut again = known.duplicate();
                again.active = true;
                again
            },
            None => SpanRow {
                span_type: owned(kind),
                document_type: owned(self.document_type),
                document_identifier: owned(self.identifier),
                parent_identifier: owned(parent),
                ordinal: ordinal as i64,
                byte_start: start as i64,
                byte_end: end as i64,
                content_fingerprint: owned(self.fingerprint.as_str()),
                segmenter_version: self.version,
                active: true,
            },
        };
        spans.put(id, row);
        Ok(())
    }
}

proof fn lemma_sentences_stop(
    spans: Map<Seq<char>, SpanView>,
    document: DocumentView,
    parent: Seq<char>,
    sentences: Seq<SentenceView>,
    count: nat,
    more: nat,
)
    requires
        count <= more <= sentences.len(),
        with_sentences(spans, document, parent, sentences, count) is Err,
    ensures
        with_sentences(spans, document, parent, sentences, more) == with_sentences(
            spans,
            document,
            parent,
            sentences,
            count,
        ),
    decreases more,
{
    if count < more {
        lemma_sentences_stop(spans, document, parent, sentences, count, (more - 1) as nat);
    }
}

proof fn lemma_passages_stop(
    spans: Map<Seq<char>, SpanView>,
    document: DocumentView,
    passages: Seq<PassageView>,
    count: nat,
    more: nat,
)
    requires
        count <= more <= passages.len(),
        with_passages(spans, document, passages, count) is Err,
    ensures
        with_passages(spans, document, passages, more) == with_passages(
            spans,
            document,
            passages,
            count,
        ),
    decreases more,
{
    if count < more {
        lemma_passages_stop(spans, document, passages, count, (more - 1) as nat);
    }
}

/// Indexes a passage and its sentences.
fn index_passage(indexing: &Indexing, spans: &mut Table<String, SpanRow>, passage: &Passage) -> (r:
    Result<(), AppError>)
    requires
        indexing.ready(),
    ensures
        match with_passage(old(spans)@, indexing.model(), passage@) {
            Ok(next) => r is Ok && final(spans)@ == next,
            Err(e) => r matches Err(got) && got@ == e,
        },
{
    let ghost document = indexing.model();
    if let Err(e) = indexing.put(
        spans,
        "passage",
        indexing.key.as_str(),
        passage.ordinal,
        passage.start,
        passage.end,
    ) {
        return Err(e);
    }
    let parent = indexing.id_of("passage", passage.start, passage.end);
    let ghost first = spans@;
    let ghost all = passage@.sentences;
    assert(all.len() == passage.sentences@.len());
    let mut i: usize = 0;
    while i < passage.sentences.len()
        invariant
            i <= passage.sentences@.len() == all.len(),
            with_sentences(first, document, parent@, all, i as nat) == Ok::<
                Map<Seq<char>, SpanView>,
                AppErrorView,
            >(spans@),
        decreases passage.sentences@.len() - i,
    {
        let sentence = &passage.sentences[i];
        assert(all[i as int] == sentence@);
        if let Err(e) = indexing.put(
            spans,
            "sentence",
            parent.as_str(),
            sentence.ordinal,
            sentence.start,
            sentence.end,
        ) {
            proof {
                lemma_sentences_stop(
                    first,
                    document,
                    parent@,
                    all,
                    (i + 1) as nat,
                    all.len(),
                );
            }
            return Err(e);
        }
        i += 1;
    }
    Ok(())
}

impl Segments {
    /// What the segmenter made of a content.
    pub fn find_passages(&self, content: &str) -> (r: Result<&Vec<Passage>, AppError>)
        ensures
            match passages_of(self@, content@) {
                Ok(passages) => r matches Ok(found) && text::views(found@) == passages,
                Err(e) => r matches Err(got) && got@ == e,
            },
    {
        match self.contents.get(&hash_content(content)) {
            Some(found) => match &found.failure {
                Some(reason) => Err(
                    AppError::new(
                        ErrorCode::GraphIndexCapacityExceeded,
                        join2("document segmentation failed: ", reason.as_str()).as_str(),
                    ),
                ),
                None => Ok(&found.passages),
            },
            None => Err(
                AppError::new(
                    ErrorCode::GraphIndexCapacityExceeded,
                    "document segmentation failed: no segments",
                ),
            ),
        }
    }
}

impl Store {
    /// Switches the spans of a document off.
    pub fn deactivate_search_spans(&mut self, document_type: &str, identifier: &str)
        ensures
            final(self)@ == (StoreView {
                spans: deactivated(old(self)@.spans, document_type@, identifier@),
                ..old(self)@
            }),
    {
        let next = without_document(&self.spans, document_type, identifier);
        self.spans = next;
    }

    /// Indexes the spans of a document anew.
    pub fn index_spans(
        &mut self,
        segments: &Segments,
        document_type: &str,
        identifier: &str,
        content: &str,
    ) -> (r: Result<(), AppError>)
        ensures
            crate::store::settled(
                old(self)@,
                final(self)@,
                r,
                indexed(old(self)@, segments@, document_type@, identifier@, content@),
            ),
    {
        let passages = match segments.find_passages(content) {
            Ok(passages) => passages,
            Err(e) => {
                return Err(e);
            },
        };
        let indexing = Indexing {
            document_type,
            identifier,
            content,
            version: segments.version,
            fingerprint: hash_content(content),
            key: join3(document_type, ":", identifier),
        };
        let ghost document = indexing.model();
        let mut spans = without_document(&self.spans, document_type, identifier);
        let ghost first = spans@;
        let ghost all = text::views(passages@);
        let mut i: usize = 0;
        while i < passages.len()
            invariant
                i <= passages@.len() == all.len(),
                all == text::views(passages@),
                with_passages(first, document, all, i as nat) == Ok::<
                    Map<Seq<char>, SpanView>,
                    AppErrorView,
                >(spans@),
            decreases passages@.len() - i,
        {
            assert(all[i as int] == passages@[i as int]@);
            if let Err(e) = index_passage(&indexing, &mut spans, &passages[i]) {
                proof {
                    lemma_passages_stop(first, document, all, (i + 1) as nat, all.len());
                }
                return Err(e);
            }
            i += 1;
        }
        self.spans = spans;
        Ok(())
    }
}

/// The spans with those of a document switched off.
fn without_document(
    spans: &Table<String, SpanRow>,
    document_type: &str,
    identifier: &str,
) -> (r: Table<String, SpanRow>)
    ensures
        r@ == deactivated(spans@, document_type@, identifier@),
{
    let n = spans.len();
    let ghost keys = spans.keys();
    let ghost goal = deactivated(spans@, document_type@, identifier@);
    let mut out: Table<String, SpanRow> = Table::new();
    let mut i: usize = 0;
    while i < n
        invariant
            i <= n == keys.len(),
            keys == spans.keys(),
            forall|k: Seq<char>| #[trigger]
                out@.dom().contains(k) == keys.take(i as int).contains(k),
            forall|k: Seq<char>| #[trigger] out@.dom().contains(k) ==> out@[k] == goal[k],
        decreases n - i,
    {
        let id = spans.key_at(i);
        let ghost was = out@;
        let mut row = spans.value_at(i).duplicate();
        if same_text(row.document_type.as_str(), document_type) && same_text(
            row.document_identifier.as_str(),
            identifier,
        ) {
            row.active = false;
        }
        out.put(owned(id.as_str()), row);
        proof {
            table::lemma_take_more(keys, i as int);
            assert(goal.dom().contains(id@));
        }
        i += 1;
    }
    proof {
        assert(keys.take(n as int) =~= keys);
        assert forall|k: Seq<char>| out@.dom().contains(k) == goal.dom().contains(k) by {
            assert(keys.to_set().contains(k) == spans@.dom().contains(k));
        }
        assert(out@ =~= goal);
    }
    out
}

// ---------------------------------------------------------------------------
// Reading spans
// ---------------------------------------------------------------------------

/// A span with its text.
pub struct SpanRecord {
    pub identifier: String,
    pub span_type: String,
    pub document_type: String,
    pub document_identifier: String,
    pub parent_identifier: String,
    pub ordinal: usize,
    pub byte_start: usize,
    pub byte_end: usize,
    pub content_fingerprint: String,
    pub segmenter_version: u32,
    pub text: String,
}

#[verifier::ext_equal]
pub struct SpanRecordView {
    pub identifier: Seq<char>,
    pub span_type: Seq<char>,
    pub document_type: Seq<char>,
    pub document_identifier: Seq<char>,
    pub parent_identifier: Seq<char>,
    pub ordinal: usize,
    pub byte_start: usize,
    pub byte_end: usize,
    pub content_fingerprint: Seq<char>,
    pub segmenter_version: u32,
    pub text: Seq<char>,
}

impl View for SpanRecord {
    type V = SpanRecordView;

    open spec fn view(&self) -> SpanRecordView {
        SpanRecordView {
            identifier: self.identifier@,
            span_type: self.span_type@,
            document_type: self.document_type@,
            document_identifier: self.document_identifier@,
            parent_identifier: self.parent_identifier@,
            ordinal: self.ordinal,
            byte_start: self.byte_start,
            byte_end: self.byte_end,
            content_fingerprint: self.content_fingerprint@,
            segmenter_version: self.segmenter_version,
            text: self.text@,
        }
    }
}

impl Record for SpanRecord {
    fn duplicate(&self) -> (r: Self) {
        SpanRecord {
            identifier: owned(self.identifier.as_str()),
            span_type: owned(self.span_type.as_str()),
            document_type: owned(self.document_type.as_str()),
            document_identifier: owned(self.document_identifier.as_str()),
            parent_identifier: owned(self.parent_identifier.as_str()),
            ordinal: self.ordinal,
            byte_start: self.byte_start,
            byte_end: self.byte_end,
            content_fingerprint: owned(self.content_fingerprint.as_str()),
            segmenter_version: self.segmenter_version,
            text: owned(self.text.as_str()),
        }
    }

    fn same(&self, other: &Self) -> (r: bool) {
        same_text(self.identifier.as_str(), other.identifier.as_str())
            && same_text(self.span_type.as_str(), other.span_type.as_str())
            && same_text(self.document_type.as_str(), other.document_type.as_str())
            && same_text(self.document_identifier.as_str(), other.document_identifier.as_str())
            && same_text(self.parent_identifier.as_str(), other.parent_identifier.as_str())
            && self.ordinal == other.ordinal
            && self.byte_start == other.byte_start
            && self.byte_end == other.byte_end
            && same_text(self.content_fingerprint.as_str(), other.content_fingerprint.as_str())
            && self.segmenter_version == other.segmenter_version
            && same_text(self.text.as_str(), other.text.as_str())
    }
}


/// The content of the document that a span belongs to.
pub open spec fn document_content(store: StoreView, span: SpanView) -> Option<Seq<char>> {
    if span.document_type == "page"@ {
        if store.pages.dom().contains(span.document_identifier) {
            Some(store.pages[span.document_identifier].body)
        } else {
            None
        }
    } else if span.document_type == "source"@ {
        match text::reads_as_i64(span.document_identifier) {
            Some(id) => if store.sources.dom().contains(id as i64) {
                Some(store.sources[id as i64].content)
            } else {
                None
            },
            None => None,
        }
    } else {
        None
    }
}

/// A number that may be absent, as JSON.
pub open spec fn optional_text_json(value: Option<Seq<char>>) -> JsonView {
    match value {
        Some(said) => JsonView::Text(said),
        None => JsonView::Null,
    }
}

/// What is said of a span that belongs to an older content.
pub open spec fn stale_details(
    identifier: Seq<char>,
    span: SpanView,
    current: Option<Seq<char>>,
    version: i64,
) -> JsonView {
    JsonView::Object(
        seq![
            json::entry(
                "current"@,
                JsonView::Object(
                    seq![
                        json::entry("content_fingerprint"@, optional_text_json(current)),
                        json::entry("segmenter_version"@, JsonView::Int(version as int)),
                    ],
                ),
            ),
            json::entry(
                "document"@,
                JsonView::Object(
                    seq![
                        json::entry("identifier"@, JsonView::Text(span.document_identifier)),
                        json::entry("type"@, JsonView::Text(span.document_type)),
                    ],
                ),
            ),
            json::entry("identifier"@, JsonView::Text(identifier)),
            json::entry(
                "prior"@,
                JsonView::Object(
                    seq![
                        json::entry(
                            "content_fingerprint"@,
                            JsonView::Text(span.content_fingerprint),
                        ),
                        json::entry(
                            "segmenter_version"@,
                            JsonView::Int(span.segmenter_version as int),
                        ),
                    ],
                ),
            ),
        ],
    )
}

/// A number as a count: one that is none counts as 0.
pub open spec fn as_count(n: i64) -> usize {
    if 0 <= n <= usize::MAX {
        n as usize
    } else {
        0
    }
}

/// A number as a version: one that is none counts as 0.
pub open spec fn as_version(n: i64) -> u32 {
    if 0 <= n <= u32::MAX {
        n as u32
    } else {
        0
    }
}

/// The span with an identifier. `version` is the segmenter's.
pub open spec fn span_record(store: StoreView, identifier: Seq<char>, version: i64) -> Result<
    SpanRecordView,
    AppErrorView,
> {
    if !store.spans.dom().contains(identifier) {
        error::refused(ErrorCode::SpanNotFound, "span locator was not found"@)
    } else {
        let span = store.spans[identifier];
        let content = document_content(store, span);
        let current = match content {
            Some(said) => Some(digest::text_digest(said)),
            None => None,
        };
        if !span.active || current != Some(span.content_fingerprint) {
            Err(
                AppErrorView {
                    code: ErrorCode::StaleSpan,
                    message: "span locator belongs to an older document fingerprint"@,
                    details: Some(stale_details(identifier, span, current, version)),
                },
            )
        } else if !(0 <= span.byte_start <= usize::MAX) {
            error::refused(ErrorCode::InvalidSpan, "span byte_start is invalid"@)
        } else if !(0 <= span.byte_end <= usize::MAX) {
            error::refused(ErrorCode::InvalidSpan, "span byte_end is invalid"@)
        } else {
            match text_between(content->0, span.byte_start as int, span.byte_end as int) {
                None => error::refused(
                    ErrorCode::StaleSpan,
                    "span byte range no longer matches the indexed document"@,
                ),
                Some(said) => Ok(
                    SpanRecordView {
                        identifier,
                        span_type: span.span_type,
                        document_type: span.document_type,
                        document_identifier: span.document_identifier,
                        parent_identifier: span.parent_identifier,
                        ordinal: as_count(span.ordinal),
                        byte_start: span.byte_start as usize,
                        byte_end: span.byte_end as usize,
                        content_fingerprint: span.content_fingerprint,
                        segmenter_version: as_version(span.segmenter_version),
                        text: said,
                    },
                ),
            }
        }
    }
}

/// A span and the store that it comes from.
pub struct SpanGetResponse {
    pub scope: String,
    pub database: String,
    pub span: SpanRecord,
}

/// The places of the active spans under a parent, by ordinal and identifier.
pub open spec fn children_of(store: StoreView, parent: Seq<char>) -> Seq<RankView> {
    table::ordered::<Rank>(
        Set::new(
            |rank: RankView|
                {
                    &&& store.spans.dom().contains(rank.id)
                    &&& store.spans[rank.id].parent_identifier == parent
                    &&& store.spans[rank.id].active
                    &&& store.spans[rank.id].ordinal == rank.ordinal
                },
        ),
    )
}

/// A span of a kind with an ordinal between two bounds.
pub open spec fn is_near(store: StoreView, id: Seq<char>, kind: Seq<char>, low: i64, high: i64)
    -> bool {
    store.spans[id].span_type == kind && low <= store.spans[id].ordinal <= high
}

/// The spans among the first `count` of a list that are of a kind and near.
pub open spec fn near_spans(
    store: StoreView,
    list: Seq<RankView>,
    kind: Seq<char>,
    low: i64,
    high: i64,
    count: nat,
) -> Seq<Seq<char>>
    decreases count,
{
    if count == 0 || count > list.len() {
        Seq::empty()
    } else {
        let head = near_spans(store, list, kind, low, high, (count - 1) as nat);
        if is_near(store, list[count - 1].id, kind, low, high) {
            head.push(list[count - 1].id)
        } else {
            head
        }
    }
}

/// The spans with the first `count` of these identifiers.
pub open spec fn span_records(
    store: StoreView,
    ids: Seq<Seq<char>>,
    version: i64,
    count: nat,
) -> Result<Seq<SpanRecordView>, AppErrorView>
    decreases count,
{
    if count == 0 || count > ids.len() {
        Ok(Seq::empty())
    } else {
        match span_records(store, ids, version, (count - 1) as nat) {
            Err(e) => Err(e),
            Ok(list) => match span_record(store, ids[count - 1], version) {
                Err(e) => Err(e),
                Ok(span) => Ok(list.push(span)),
            },
        }
    }
}

/// A span with what stands around it.
pub struct SpanNeighbourhood {
    pub span: SpanRecord,
    pub parent: Option<SpanRecord>,
    pub siblings: Vec<SpanRecord>,
    pub children: Vec<SpanRecord>,
    pub children_truncated: bool,
}

#[verifier::ext_equal]
pub struct NeighbourhoodView {
    pub span: SpanRecordView,
    pub parent: Option<SpanRecordView>,
    pub siblings: Seq<SpanRecordView>,
    pub children: Seq<SpanRecordView>,
    pub children_truncated: bool,
}

impl View for SpanNeighbourhood {
    type V = NeighbourhoodView;

    open spec fn view(&self) -> NeighbourhoodView {
        NeighbourhoodView {
            span: self.span@,
            parent: text::opt_view(self.parent),
            siblings: text::views(self.siblings@),
            children: text::views(self.children@),
            children_truncated: self.children_truncated,
        }
    }
}

impl Record for SpanNeighbourhood {
    fn duplicate(&self) -> (r: Self) {
        SpanNeighbourhood {
            span: self.span.duplicate(),
            parent: copy_record_opt(&self.parent),
            siblings: copy_records(&self.siblings),
            children: copy_records(&self.children),
            children_truncated: self.children_truncated,
        }
    }

    fn same(&self, other: &Self) -> (r: bool) {
        self.span.same(&other.span)
            && same_record_opt(&self.parent, &other.parent)
            && same_records(&self.siblings, &other.siblings)
            && same_records(&self.children, &other.children)
            && self.children_truncated == other.children_truncated
    }
}


/// The bounds of the neighbourhood of an ordinal.
pub open spec fn lowest(ordinal: usize, before: usize) -> i64 {
    (if before <= ordinal {
        (ordinal - before) as usize
    } else {
        0
    }) as i64
}

pub open spec fn highest(ordinal: usize, after: usize) -> i64 {
    (if ordinal + after <= usize::MAX {
        (ordinal + after) as usize
    } else {
        usize::MAX
    }) as i64
}

/// The span above another, where it is one.
pub open spec fn parent_of(store: StoreView, parent: Seq<char>, version: i64) -> Result<
    Option<SpanRecordView>,
    AppErrorView,
> {
    if store.spans.dom().contains(parent) && store.spans[parent].active && (
    store.spans[parent].span_type == "passage"@ || store.spans[parent].span_type == "sentence"@) {
        match span_record(store, parent, version) {
            Ok(span) => Ok(Some(span)),
            Err(e) => Err(e),
        }
    } else {
        Ok(None)
    }
}

/// A span with its parent, its siblings up to a distance, and its first children.
pub open spec fn expanded(
    store: StoreView,
    identifier: Seq<char>,
    before: usize,
    after: usize,
    child_limit: usize,
    version: i64,
) -> Result<NeighbourhoodView, AppErrorView> {
    match span_record(store, identifier, version) {
        Err(e) => Err(e),
        Ok(span) => match parent_of(store, span.parent_identifier, version) {
            Err(e) => Err(e),
            Ok(parent) => {
                let around = children_of(store, span.parent_identifier);
                let near = near_spans(
                    store,
                    around,
                    span.span_type,
                    lowest(span.ordinal, before),
                    highest(span.ordinal, after),
                    around.len(),
                );
                match span_records(store, near, version, near.len()) {
                    Err(e) => Err(e),
                    Ok(siblings) => {
                        let below = children_of(store, identifier);
                        let first = paging::page_of(below, 0, child_limit as nat).map_values(
                            |rank: RankView| rank.id,
                        );
                        match span_records(store, first, version, first.len()) {
                            Err(e) => Err(e),
                            Ok(children) => Ok(
                                NeighbourhoodView {
                                    span,
                                    parent,
                                    siblings,
                                    children,
                                    children_truncated: below.len() > child_limit,
                                },
                            ),
                        }
                    },
                }
            },
        },
    }
}

proof fn lemma_records_stop(
    store: StoreView,
    ids: Seq<Seq<char>>,
    version: i64,
    count: nat,
    more: nat,
)
    requires
        count <= more <= ids.len(),
        span_records(store, ids, version, count) is Err,
    ensures
        span_records(store, ids, version, more) == span_records(store, ids, version, count),
    decreases more,
{
    if count < more {
        lemma_records_stop(store, ids, version, count, (more - 1) as nat);
    }
}

fn optional_json(value: &Option<String>) -> (r: Json)
    ensures
        r@ == optional_text_json(text::opt_text(*value)),
{
    match value {
        Some(said) => Json::text(said.as_str()),
        None => Json::Null,
    }
}

fn stale_error(identifier: &str, span: &SpanRow, current: &Option<String>, version: i64) -> (r:
    AppError)
    ensures
        r@ == (AppErrorView {
            code: ErrorCode::StaleSpan,
            message: "span locator belongs to an older document fingerprint"@,
            details: Some(stale_details(identifier@, span@, text::opt_text(*current), version)),
        }),
{
    let now = Json::object2(
        "content_fingerprint",
        optional_json(current),
        "segmenter_version",
        Json::Int(version),
    );
    let document = Json::object2(
        "identifier",
        Json::text(span.document_identifier.as_str()),
        "type",
        Json::text(span.document_type.as_str()),
    );
    let prior = Json::object2(
        "content_fingerprint",
        Json::text(span.content_fingerprint.as_str()),
        "segmenter_version",
        Json::Int(span.segmenter_version),
    );
    let ghost goal = stale_details(identifier@, span@, text::opt_text(*current), version);
    let mut entries: Vec<(String, Json)> = Vec::new();
    entries.push((owned("current"), now));
    entries.push((owned("document"), document));
    entries.push((owned("identifier"), Json::text(identifier)));
    entries.push((owned("prior"), prior));
    assert(json::entry_views(entries@) =~= goal->Object_0);
    AppError {
        code: ErrorCode::StaleSpan,
        message: owned("span locator belongs to an older document fingerprint"),
        details: Some(Json::object(entries)),
    }
}

fn count_of(n: i64) -> (r: usize)
    ensures
        r == as_count(n),
{
    if n >= 0 && n as u64 <= usize::MAX as u64 {
        n as usize
    } else {
        0
    }
}

fn version_of(n: i64) -> (r: u32)
    ensures
        r == as_version(n),
{
    if 0 <= n && n <= 0xffff_ffff {
        n as u32
    } else {
        0
    }
}

impl Store {
    /// The content of the document that a span belongs to.
    fn content_of(&self, span: &SpanRow) -> (r: Option<&String>)
        ensures
            match document_content(self@, span@) {
                Some(said) => r matches Some(found) && found@ == said,
                None => r is None,
            },
    {
        if same_text(span.document_type.as_str(), "page") {
            match self.pages.get(&span.document_identifier) {
                Some(page) => Some(&page.body),
                None => None,
            }
        } else if same_text(span.document_type.as_str(), "source") {
            match parse_i64(span.document_identifier.as_str()) {
                Some(id) => match self.sources.get(&id) {
                    Some(source) => Some(&source.content),
                    None => None,
                },
                None => None,
            }
        } else {
            None
        }
    }

    /// The span with an identifier. `version` is the segmenter's.
    pub fn load_span_record(&self, identifier: &str, version: i64) -> (r: Result<
        SpanRecord,
        AppError,
    >)
        ensures
            error::outcome(r) == span_record(self@, identifier@, version),
    {
        let span = match self.spans.get(&owned(identifier)) {
            Some(span) => span,
            None => {
                return Err(AppError::new(ErrorCode::SpanNotFound, "span locator was not found"));
            },
        };
        let content = self.content_of(span);
        let current = match content {
            Some(said) => Some(hash_content(said.as_str())),
            None => None,
        };
        let fresh = match &current {
            Some(mark) => same_text(mark.as_str(), span.content_fingerprint.as_str()),
            None => false,
        };
        if !span.active || !fresh {
            return Err(stale_error(identifier, span, &current, version));
        }
        if span.byte_start < 0 || span.byte_start as u64 > usize::MAX as u64 {
            return Err(AppError::new(ErrorCode::InvalidSpan, "span byte_start is invalid"));
        }
        if span.byte_end < 0 || span.byte_end as u64 > usize::MAX as u64 {
            return Err(AppError::new(ErrorCode::InvalidSpan, "span byte_end is invalid"));
        }
        let start = span.byte_start as usize;
        let end = span.byte_end as usize;
        let said = match content {
            Some(said) => said,
            None => {
                assert(false);
                return Err(AppError::new(ErrorCode::StaleSpan, ""));
            },
        };
        match slice_bytes(said.as_str(), start, end) {
            None => Err(
                AppError::new(
                    ErrorCode::StaleSpan,
                    "span byte range no longer matches the indexed document",
                ),
            ),
            Some(part) => Ok(
                SpanRecord {
                    identifier: owned(identifier),
                    span_type: owned(span.span_type.as_str()),
                    document_type: owned(span.document_type.as_str()),
                    document_identifier: owned(span.document_identifier.as_str()),
                    parent_identifier: owned(span.parent_identifier.as_str()),
                    ordinal: count_of(span.ordinal),
                    byte_start: start,
                    byte_end: end,
                    content_fingerprint: owned(span.content_fingerprint.as_str()),
                    segmenter_version: version_of(span.segmenter_version),
                    text: part,
                },
            ),
        }
    }

    /// The span with an identifier. `version` is the segmenter's.
    pub fn span_get(&self, identifier: &str, version: i64) -> (r: Result<
        SpanGetResponse,
        AppError,
    >)
        ensures
            match span_record(self@, identifier@, version) {
                Ok(span) => {
                    &&& r matches Ok(got)
                    &&& got.span@ == span
                    &&& got.scope@ == self@.scope
                    &&& got.database@ == self@.database
                },
                Err(e) => r matches Err(got) && got@ == e,
            },
    {
        match self.load_span_record(identifier, version) {
            Ok(span) => Ok(
                SpanGetResponse {
                    scope: owned(self.scope.as_str()),
                    database: owned(self.database.as_str()),
                    span,
                },
            ),
            Err(e) => Err(e),
        }
    }

    /// The places of the active spans under a parent.
    fn list_children(&self, parent: &str) -> (r: Table<Rank, bool>)
        ensures
            r.keys() == children_of(self@, parent@),
            table::lists::<Rank>(r.keys(), r@.dom()),
            forall|rank: RankView| #[trigger]
                r@.dom().contains(rank) ==> self@.spans.dom().contains(rank.id),
    {
        let n = self.spans.len();
        let ghost keys = self.spans.keys();
        let ghost goal = Set::new(
            |rank: RankView|
                {
                    &&& self@.spans.dom().contains(rank.id)
                    &&& self@.spans[rank.id].parent_identifier == parent@
                    &&& self@.spans[rank.id].active
                    &&& self@.spans[rank.id].ordinal == rank.ordinal
                },
        );
        let mut out: Table<Rank, bool> = Table::new();
        let mut i: usize = 0;
        while i < n
            invariant
                i <= n == keys.len(),
                keys == self.spans.keys(),
                forall|rank: RankView| #[trigger]
                    out@.dom().contains(rank) == (keys.take(i as int).contains(rank.id)
                        && goal.contains(rank)),
            decreases n - i,
        {
            let id = self.spans.key_at(i);
            let span = self.spans.value_at(i);
            if same_text(span.parent_identifier.as_str(), parent) && span.active {
                out.put(Rank { ordinal: span.ordinal, id: owned(id.as_str()) }, true);
            }
            proof {
                table::lemma_take_more(keys, i as int);
            }
            i += 1;
        }
        proof {
            assert(keys.take(n as int) =~= keys);
            assert forall|rank: RankView| out@.dom().contains(rank) == goal.contains(rank) by {
                assert(keys.to_set().contains(rank.id) == self@.spans.dom().contains(rank.id));
            }
            assert(out@.dom() =~= goal);
        }
        let m = out.len();
        proof {
            table::lemma_ordered_is::<Rank>(out.keys(), goal);
        }
        out
    }

    /// The spans with these identifiers.
    fn load_spans(&self, ids: &Vec<String>, version: i64) -> (r: Result<
        Vec<SpanRecord>,
        AppError,
    >)
        ensures
            match span_records(self@, text::views(ids@), version, ids@.len()) {
                Ok(list) => r matches Ok(got) && text::views(got@) == list,
                Err(e) => r matches Err(got) && got@ == e,
            },
    {
        let ghost all = text::views(ids@);
        let mut out: Vec<SpanRecord> = Vec::new();
        let mut i: usize = 0;
        assert(text::views(out@) =~= Seq::empty());
        while i < ids.len()
            invariant
                i <= ids@.len() == all.len(),
                all == text::views(ids@),
                span_records(self@, all, version, i as nat) == Ok::<
                    Seq<SpanRecordView>,
                    AppErrorView,
                >(text::views(out@)),
            decreases ids@.len() - i,
        {
            match self.load_span_record(ids[i].as_str(), version) {
                Ok(span) => {
                    proof {
                        text::lemma_views_push(out@, span);
                    }
                    out.push(span);
                },
                Err(e) => {
                    proof {
                        lemma_records_stop(self@, all, version, (i + 1) as nat, all.len());
                    }
                    return Err(e);
                },
            }
            i += 1;
        }
        Ok(out)
    }

    /// A span with its parent, its siblings up to a distance, and its first children.
    pub fn span_expand(
        &self,
        identifier: &str,
        before: usize,
        after: usize,
        child_limit: usize,
        version: i64,
    ) -> (r: Result<SpanNeighbourhood, AppError>)
        ensures
            error::outcome(r) == expanded(
                self@,
                identifier@,
                before,
                after,
                child_limit,
                version,
            ),
    {
        let span = match self.load_span_record(identifier, version) {
            Ok(span) => span,
            Err(e) => {
                return Err(e);
            },
        };
        let is_span = match self.spans.get(&span.parent_identifier) {
            Some(above) => above.active && (same_text(above.span_type.as_str(), "passage")
                || same_text(above.span_type.as_str(), "sentence")),
            None => false,
        };
        let parent = if is_span {
            match self.load_span_record(span.parent_identifier.as_str(), version) {
                Ok(above) => Some(above),
                Err(e) => {
                    return Err(e);
                },
            }
        } else {
            None
        };
        let low: i64 = (if before <= span.ordinal {
            span.ordinal - before
        } else {
            0
        }) as i64;
        let high: i64 = (if after <= usize::MAX - span.ordinal {
            span.ordinal + after
        } else {
            usize::MAX
        }) as i64;
        let around = self.list_children(span.parent_identifier.as_str());
        let n = around.len();
        let ghost list = around.keys();
        let mut near: Vec<String> = Vec::new();
        assert(text::views(near@) =~= Seq::empty());
        let mut i: usize = 0;
        while i < n
            invariant
                i <= n == list.len(),
                list == around.keys(),
                text::views(near@) == near_spans(
                    self@,
                    list,
                    span@.span_type,
                    low,
                    high,
                    i as nat,
                ),
            decreases n - i,
        {
            let rank = around.key_at(i);
            proof {
                assert(list.to_set().contains(list[i as int]));
            }
            match self.spans.get(&rank.id) {
                Some(other) => {
                    if same_text(other.span_type.as_str(), span.span_type.as_str()) && low
                        <= other.ordinal && other.ordinal <= high {
                        let id = owned(rank.id.as_str());
                        proof {
                            text::lemma_views_push(near@, id);
                        }
                        near.push(id);
                    }
                },
                None => {
                    assert(false);
                },
            }
            i += 1;
        }
        assert(text::views(near@).len() == near@.len());
        let siblings = match self.load_spans(&near, version) {
            Ok(siblings) => siblings,
            Err(e) => {
                return Err(e);
            },
        };
        let below = self.list_children(identifier);
        let m = below.len();
        let ghost under = below.keys();
        let (from, to) = page_bounds(m, 0, child_limit);
        proof {
            paging::lemma_page(under, 0, child_limit as nat, from as int, to as int);
        }
        let mut first: Vec<String> = Vec::new();
        let mut k: usize = 0;
        while k < to
            invariant
                k <= to <= m == under.len(),
                under == below.keys(),
                first@.len() == k,
                forall|j: int| 0 <= j < k ==> #[trigger] first@[j]@ == under[j].id,
            decreases to - k,
        {
            first.push(owned(below.key_at(k).id.as_str()));
            k += 1;
        }
        proof {
            assert(text::views(first@) =~= paging::page_of(
                under,
                0,
                child_limit as nat,
            ).map_values(|rank: RankView| rank.id));
        }
        let children = match self.load_spans(&first, version) {
            Ok(children) => children,
            Err(e) => {
                return Err(e);
            },
        };
        Ok(
            SpanNeighbourhood {
                span,
                parent,
                siblings,
                children,
                children_truncated: m > child_limit,
            },
        )
    }
}

// ---------------------------------------------------------------------------
// Laws
// ---------------------------------------------------------------------------

/// A span is one of a document, and stands for a text of its content.
pub open spec fn fits(span: SpanView, document: DocumentView) -> bool {
    &&& span.document_type == document.document_type
    &&& span.document_identifier == document.identifier
    &&& span.content_fingerprint == document.fingerprint()
    &&& text_between(document.content, span.byte_start as int, span.byte_end as int) is Some
}

/// What stands under the identifiers of the spans of a document fits it.
pub open spec fn known_spans_fit(spans: Map<Seq<char>, SpanView>, document: DocumentView) -> bool {
    forall|kind: Seq<char>, start: usize, end: usize|
        spans.dom().contains(#[trigger] span_id(kind, document, start, end)) ==> fits(
            spans[span_id(kind, document, start, end)],
            document,
        )
}

/// The spans of a document that are in use fit it.
pub open spec fn active_spans_fit(spans: Map<Seq<char>, SpanView>, document: DocumentView) -> bool {
    forall|id: Seq<char>| #[trigger]
        spans.dom().contains(id) && spans[id].active && spans[id].document_type
            == document.document_type && spans[id].document_identifier == document.identifier
            ==> fits(spans[id], document)
}

/// What is in use stays in use.
pub open spec fn still_active(
    before: Map<Seq<char>, SpanView>,
    after: Map<Seq<char>, SpanView>,
) -> bool {
    forall|id: Seq<char>| #[trigger]
        before.dom().contains(id) && before[id].active ==> after.dom().contains(id)
            && after[id].active
}

/// A span is one of a document.
pub open spec fn belongs(
    spans: Map<Seq<char>, SpanView>,
    id: Seq<char>,
    document: DocumentView,
) -> bool {
    &&& spans.dom().contains(id)
    &&& spans[id].document_type == document.document_type
    &&& spans[id].document_identifier == document.identifier
}

/// Nothing changed under an identifier.
pub open spec fn same_under(
    before: Map<Seq<char>, SpanView>,
    after: Map<Seq<char>, SpanView>,
    id: Seq<char>,
) -> bool {
    &&& before.dom().contains(id) == after.dom().contains(id)
    &&& after.dom().contains(id) ==> before[id] == after[id]
}

/// The spans of other documents stay as they are.
pub open spec fn others_stay(
    before: Map<Seq<char>, SpanView>,
    after: Map<Seq<char>, SpanView>,
    document: DocumentView,
) -> bool {
    forall|id: Seq<char>|
        belongs(after, id, document) || #[trigger] same_under(before, after, id)
}

proof fn lemma_others_stay(
    before: Map<Seq<char>, SpanView>,
    middle: Map<Seq<char>, SpanView>,
    after: Map<Seq<char>, SpanView>,
    document: DocumentView,
)
    requires
        others_stay(before, middle, document),
        others_stay(middle, after, document),
    ensures
        others_stay(before, after, document),
{
    assert forall|id: Seq<char>|
        belongs(after, id, document) || #[trigger] same_under(before, after, id) by {
        assert(belongs(middle, id, document) || same_under(before, middle, id));
        assert(belongs(after, id, document) || same_under(middle, after, id));
    }
}

/// A span is in use.
pub open spec fn in_use(spans: Map<Seq<char>, SpanView>, id: Seq<char>) -> bool {
    spans.dom().contains(id) && spans[id].active
}

proof fn lemma_span_fits(
    spans: Map<Seq<char>, SpanView>,
    document: DocumentView,
    kind: Seq<char>,
    parent: Seq<char>,
    ordinal: usize,
    start: usize,
    end: usize,
)
    requires
        known_spans_fit(spans, document),
        active_spans_fit(spans, document),
        utf8::encode_utf8(document.content).len() <= i64::MAX,
    ensures
        with_span(spans, document, kind, parent, ordinal, start, end) matches Ok(next) ==> {
            &&& known_spans_fit(next, document)
            &&& active_spans_fit(next, document)
            &&& still_active(spans, next)
            &&& others_stay(spans, next, document)
            &&& in_use(next, span_id(kind, document, start, end))
        },
{
    if let Ok(next) = with_span(spans, document, kind, parent, ordinal, start, end) {
        let id = span_id(kind, document, start, end);
        assert(fits(next[id], document));
    }
}

proof fn lemma_sentences_fit(
    spans: Map<Seq<char>, SpanView>,
    document: DocumentView,
    parent: Seq<char>,
    sentences: Seq<SentenceView>,
    count: nat,
)
    requires
        count <= sentences.len(),
        known_spans_fit(spans, document),
        active_spans_fit(spans, document),
        utf8::encode_utf8(document.content).len() <= i64::MAX,
    ensures
        with_sentences(spans, document, parent, sentences, count) matches Ok(next) ==> {
            &&& known_spans_fit(next, document)
            &&& active_spans_fit(next, document)
            &&& still_active(spans, next)
            &&& others_stay(spans, next, document)
            &&& forall|k: int|
                0 <= k < count ==> in_use(
                    next,
                    span_id(
                        "sentence"@,
                        document,
                        (#[trigger] sentences[k]).start,
                        sentences[k].end,
                    ),
                )
        },
    decreases count,
{
    if count > 0 {
        lemma_sentences_fit(spans, document, parent, sentences, (count - 1) as nat);
        if let Ok(so_far) = with_sentences(
            spans,
            document,
            parent,
            sentences,
            (count - 1) as nat,
        ) {
            let last = sentences[count - 1];
            lemma_span_fits(
                so_far,
                document,
                "sentence"@,
                parent,
                last.ordinal,
                last.start,
                last.end,
            );
            if let Ok(next) = with_sentences(spans, document, parent, sentences, count) {
                lemma_others_stay(spans, so_far, next, document);
            }
        }
    }
}

/// A passage and its sentences are in use.
pub open spec fn passage_in_use(
    spans: Map<Seq<char>, SpanView>,
    document: DocumentView,
    passage: PassageView,
) -> bool {
    &&& in_use(spans, span_id("passage"@, document, passage.start, passage.end))
    &&& forall|k: int|
        0 <= k < passage.sentences.len() ==> in_use(
            spans,
            span_id(
                "sentence"@,
                document,
                (#[trigger] passage.sentences[k]).start,
                passage.sentences[k].end,
            ),
        )
}

proof fn lemma_passages_fit(
    spans: Map<Seq<char>, SpanView>,
    document: DocumentView,
    passages: Seq<PassageView>,
    count: nat,
)
    requires
        count <= passages.len(),
        known_spans_fit(spans, document),
        active_spans_fit(spans, document),
        utf8::encode_utf8(document.content).len() <= i64::MAX,
    ensures
        with_passages(spans, document, passages, count) matches Ok(next) ==> {
            &&& known_spans_fit(next, document)
            &&& active_spans_fit(next, document)
            &&& still_active(spans, next)
            &&& others_stay(spans, next, document)
            &&& forall|k: int|
                0 <= k < count ==> passage_in_use(next, document, #[trigger] passages[k])
        },
    decreases count,
{
    if count > 0 {
        lemma_passages_fit(spans, document, passages, (count - 1) as nat);
        if let Ok(so_far) = with_passages(spans, document, passages, (count - 1) as nat) {
            let last = passages[count - 1];
            lemma_span_fits(
                so_far,
                document,
                "passage"@,
                document.key(),
                last.ordinal,
                last.start,
                last.end,
            );
            if let Ok(next) = with_span(
                so_far,
                document,
                "passage"@,
                document.key(),
                last.ordinal,
                last.start,
                last.end,
            ) {
                lemma_sentences_fit(
                    next,
                    document,
                    span_id("passage"@, document, last.start, last.end),
                    last.sentences,
                    last.sentences.len(),
                );
                if let Ok(done) = with_passages(spans, document, passages, count) {
                    lemma_others_stay(so_far, next, done, document);
                    lemma_others_stay(spans, so_far, done, document);
                    assert(still_active(so_far, done));
                    assert forall|k: int| 0 <= k < count implies passage_in_use(
                        done,
                        document,
                        #[trigger] passages[k],
                    ) by {
                        if k < count - 1 {
                            assert(passage_in_use(so_far, document, passages[k]));
                        }
                    }
                }
            }
        }
    }
}

/// Once a document is indexed, every passage and every sentence that the segmenter found in
/// it is in use, and each span of the document that is in use gives the text that stands
/// there. An identifier that is not known, and a span that is not in use, give none. The spans
/// of other documents stay as they are. What stood under the identifiers before must belong to the document, as it does unless
/// different spans share a digest.
pub proof fn law_indexed_spans_resolve(
    store: StoreView,
    segments: SegmentsView,
    document: DocumentView,
    version: i64,
)
    requires
        document.version == segments.version,
        document.document_type == "page"@ ==> store.pages.dom().contains(document.identifier)
            && store.pages[document.identifier].body == document.content,
        document.document_type == "source"@ ==> (text::reads_as_i64(document.identifier) matches Some(
            id,
        ) && store.sources.dom().contains(id as i64) && store.sources[id as i64].content
            == document.content),
        document.document_type == "page"@ || document.document_type == "source"@,
        utf8::encode_utf8(document.content).len() <= i64::MAX,
        utf8::encode_utf8(document.content).len() <= usize::MAX,
        known_spans_fit(store.spans, document),
    ensures
        indexed(
            store,
            segments,
            document.document_type,
            document.identifier,
            document.content,
        ) matches Ok(next) ==> {
            &&& passages_of(segments, document.content) matches Ok(passages)
            &&& forall|k: int|
                0 <= k < passages.len() ==> passage_in_use(
                    next.spans,
                    document,
                    #[trigger] passages[k],
                )
            &&& forall|id: Seq<char>|
                in_use(next.spans, id) && next.spans[id].document_type == document.document_type
                    && next.spans[id].document_identifier == document.identifier ==> {
                    &&& #[trigger] span_record(next, id, version) matches Ok(record)
                    &&& record.document_type == document.document_type
                    &&& record.document_identifier == document.identifier
                    &&& record.content_fingerprint == document.fingerprint()
                    &&& text_between(
                        document.content,
                        record.byte_start as int,
                        record.byte_end as int,
                    ) == Some(record.text)
                }
            &&& others_stay(store.spans, next.spans, document)
            &&& forall|id: Seq<char>|
                !next.spans.dom().contains(id) ==> {
                    &&& #[trigger] span_record(next, id, version) matches Err(e)
                    &&& e.code == ErrorCode::SpanNotFound
                }
            &&& forall|id: Seq<char>|
                next.spans.dom().contains(id) && !next.spans[id].active ==> {
                    &&& #[trigger] span_record(next, id, version) matches Err(e)
                    &&& e.code == ErrorCode::StaleSpan
                }
        },
{
    let quiet = deactivated(store.spans, document.document_type, document.identifier);
    assert(known_spans_fit(quiet, document)) by {
        assert forall|kind: Seq<char>, start: usize, end: usize|
            quiet.dom().contains(#[trigger] span_id(kind, document, start, end)) implies fits(
            quiet[span_id(kind, document, start, end)],
            document,
        ) by {
            assert(store.spans.dom().contains(span_id(kind, document, start, end)));
        }
    }
    if let Ok(passages) = passages_of(segments, document.content) {
        lemma_passages_fit(quiet, document, passages, passages.len());
        if let Ok(next) = indexed(
            store,
            segments,
            document.document_type,
            document.identifier,
            document.content,
        ) {
            assert(others_stay(store.spans, quiet, document)) by {
                assert forall|id: Seq<char>|
                    belongs(quiet, id, document) || #[trigger] same_under(
                        store.spans,
                        quiet,
                        id,
                    ) by {}
            }
            lemma_others_stay(store.spans, quiet, next.spans, document);
            assert forall|id: Seq<char>|
                in_use(next.spans, id) && next.spans[id].document_type == document.document_type
                    && next.spans[id].document_identifier == document.identifier implies {
                &&& #[trigger] span_record(next, id, version) matches Ok(record)
                &&& record.document_type == document.document_type
                &&& record.document_identifier == document.identifier
                &&& record.content_fingerprint == document.fingerprint()
                &&& text_between(
                    document.content,
                    record.byte_start as int,
                    record.byte_end as int,
                ) == Some(record.text)
            } by {
                assert(fits(next.spans[id], document));
                assert(document_content(next, next.spans[id]) == Some(document.content));
            }
        }
    }
}

} // verus!
