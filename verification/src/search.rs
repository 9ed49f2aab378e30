//! Searching: what to look up, which hits stay, in what order they come, and how they are
//! grouped. How well a hit fits is a number of the caller's, of which only the order counts
//! here.
use crate::error;
use crate::error::{AppError, AppErrorView, ErrorCode};
use crate::markdown;
use crate::markdown::{ascii_lower_text, lower};
use crate::pages;
use crate::pages::provenance_from_parts;
use crate::retrieval;
use crate::retrieval::{query_fingerprint, Signal};
use crate::store;
use crate::store::{Store, StoreView};
use crate::table;
use crate::table::{
    copy_ids, copy_record_opt, same_ids, same_record_opt, Pair, PairView, Record, Table,
};
use crate::text;
use crate::text::{
    chars_of, comes_before, copy_opt, copy_texts, has_text, join3, owned, parse_i64,
    same_opt, same_text, same_texts, string_of, trim,
};
use vstd::prelude::*;

verus! {

/// The most terms that a query may have.
pub const MAX_TERMS: usize = 64;

/// The most candidates that are looked up.
pub const MAX_CANDIDATES: usize = 1000;

/// What is searched for.
#[derive(Clone, Copy, PartialEq, Eq, Structural)]
pub enum SearchMode {
    Auto,
    All,
    Page,
    Source,
}

/// How much of a document a hit is.
#[derive(Clone, Copy, PartialEq, Eq, Structural)]
pub enum SearchGranularity {
    Document,
    Passage,
    Sentence,
    All,
}

/// Whether the hits in one document are shown as one.
#[derive(Clone, Copy, PartialEq, Eq, Structural)]
pub enum SearchGrouping {
    Single,
    Document,
}

/// How to search.
pub struct SearchOptions {
    pub mode: SearchMode,
    pub granularity: SearchGranularity,
    pub grouping: SearchGrouping,
    pub kinds: Vec<String>,
    pub explain: bool,
}

#[verifier::ext_equal]
pub struct SearchOptionsView {
    pub mode: SearchMode,
    pub granularity: SearchGranularity,
    pub grouping: SearchGrouping,
    pub kinds: Seq<Seq<char>>,
    pub explain: bool,
}

impl View for SearchOptions {
    type V = SearchOptionsView;

    open spec fn view(&self) -> SearchOptionsView {
        SearchOptionsView {
            mode: self.mode,
            granularity: self.granularity,
            grouping: self.grouping,
            kinds: text::views(self.kinds@),
            explain: self.explain,
        }
    }
}

// ---------------------------------------------------------------------------
// What to look up
// ---------------------------------------------------------------------------

/// A mode that looks for pages and sources alike.
pub open spec fn is_open(mode: SearchMode) -> bool {
    mode == SearchMode::Auto || mode == SearchMode::All
}

/// How many candidates to look up for each result.
pub open spec fn multiplier(options: SearchOptionsView) -> int {
    if options.kinds.len() == 0 && is_open(options.mode) {
        4
    } else {
        8
    }
}

/// How many candidates to look up.
pub open spec fn candidates(limit: int, options: SearchOptionsView) -> int {
    if limit * multiplier(options) > MAX_CANDIDATES {
        MAX_CANDIDATES as int
    } else {
        limit * multiplier(options)
    }
}

/// A term with its quotes doubled.
pub open spec fn doubled(term: Seq<char>) -> Seq<char>
    decreases term.len(),
{
    if term.len() == 0 {
        Seq::empty()
    } else if term.last() == '"' {
        doubled(term.drop_last()).push('"').push('"')
    } else {
        doubled(term.drop_last()).push(term.last())
    }
}

/// The terms as one query: each in quotes, and any of them will do.
pub open spec fn match_text(terms: Seq<Seq<char>>) -> Seq<char>
    decreases terms.len(),
{
    if terms.len() == 0 {
        Seq::empty()
    } else {
        let one = "\""@ + doubled(terms.last()) + "\""@;
        if terms.len() == 1 {
            one
        } else {
            match_text(terms.drop_last()) + " OR "@ + one
        }
    }
}

fn double_quotes(term: &str) -> (r: String)
    ensures
        r@ == doubled(term@),
{
    let chars = chars_of(term);
    let mut out: Vec<char> = Vec::new();
    assert(chars@.take(0) =~= Seq::empty());
    let mut i: usize = 0;
    while i < chars.len()
        invariant
            i <= chars@.len(),
            out@ == doubled(chars@.take(i as int)),
        decreases chars@.len() - i,
    {
        assert(chars@.take(i + 1).drop_last() =~= chars@.take(i as int));
        assert(chars@.take(i + 1).last() == chars@[i as int]);
        if chars[i] == '"' {
            out.push('"');
        }
        out.push(chars[i]);
        i += 1;
    }
    assert(chars@.take(chars@.len() as int) =~= chars@);
    string_of(&out)
}

/// The terms as one query.
pub fn match_query(terms: &Vec<String>) -> (r: String)
    ensures
        r@ == match_text(text::views(terms@)),
{
    let ghost all = text::views(terms@);
    let mut out = String::new();
    assert(all.take(0) =~= Seq::empty());
    assert(out@ =~= Seq::empty());
    let mut i: usize = 0;
    while i < terms.len()
        invariant
            i <= terms@.len() == all.len(),
            all == text::views(terms@),
            out@ == match_text(all.take(i as int)),
        decreases terms@.len() - i,
    {
        assert(all.take(i + 1).drop_last() =~= all.take(i as int));
        assert(all.take(i + 1).last() == terms@[i as int]@);
        let one = join3("\"", double_quotes(terms[i].as_str()).as_str(), "\"");
        out = if i == 0 {
            one
        } else {
            join3(out.as_str(), " OR ", one.as_str())
        };
        i += 1;
    }
    assert(all.take(all.len() as int) =~= all);
    out
}

/// Which spans to look up.
#[derive(Clone, Copy, PartialEq, Eq, Structural)]
pub enum SpanChoice {
    Nothing,
    Passages,
    Sentences,
    Both,
}

/// What to look up for a query.
pub struct SearchPlan {
    /// The terms as one query. Where there are none, nothing is looked up.
    pub query: Option<String>,
    pub limit: usize,
    pub documents: bool,
    pub spans: SpanChoice,
}

#[verifier::ext_equal]
pub struct SearchPlanView {
    pub query: Option<Seq<char>>,
    pub limit: int,
    pub documents: bool,
    pub spans: SpanChoice,
}

impl View for SearchPlan {
    type V = SearchPlanView;

    open spec fn view(&self) -> SearchPlanView {
        SearchPlanView {
            query: text::opt_text(self.query),
            limit: self.limit as int,
            documents: self.documents,
            spans: self.spans,
        }
    }
}

/// What to look up for the terms of a query.
pub open spec fn planned(terms: Seq<Seq<char>>, limit: int, options: SearchOptionsView) -> Result<
    SearchPlanView,
    AppErrorView,
> {
    if terms.len() > MAX_TERMS {
        error::refused(
            ErrorCode::InvalidQuery,
            "query contains more than 64 searchable terms"@,
        )
    } else {
        Ok(
            SearchPlanView {
                query: if terms.len() == 0 {
                    None
                } else {
                    Some(match_text(terms))
                },
                limit: candidates(limit, options),
                documents: options.granularity == SearchGranularity::Document
                    || options.granularity == SearchGranularity::All,
                spans: match options.granularity {
                    SearchGranularity::Document => SpanChoice::Nothing,
                    SearchGranularity::Passage => SpanChoice::Passages,
                    SearchGranularity::Sentence => SpanChoice::Sentences,
                    SearchGranularity::All => SpanChoice::Both,
                },
            },
        )
    }
}

impl Store {
    /// What to look up for the terms of a query.
    pub fn search_with_options(
        &self,
        terms: &Vec<String>,
        limit: usize,
        options: &SearchOptions,
    ) -> (r: Result<SearchPlan, AppError>)
        requires
            limit <= MAX_CANDIDATES,
        ensures
            error::outcome(r) == planned(text::views(terms@), limit as int, options@),
    {
        assert(text::views(terms@).len() == terms@.len());
        assert(options@.kinds.len() == options.kinds@.len());
        if terms.len() > MAX_TERMS {
            return Err(
                AppError::new(
                    ErrorCode::InvalidQuery,
                    "query contains more than 64 searchable terms",
                ),
            );
        }
        let open = options.mode == SearchMode::Auto || options.mode == SearchMode::All;
        let factor: usize = if options.kinds.len() == 0 && open {
            4
        } else {
            8
        };
        let wide: usize = limit * factor;
        let count = if wide > MAX_CANDIDATES {
            MAX_CANDIDATES
        } else {
            wide
        };
        let query = if terms.len() == 0 {
            None
        } else {
            Some(match_query(terms))
        };
        let spans = match options.granularity {
            SearchGranularity::Document => SpanChoice::Nothing,
            SearchGranularity::Passage => SpanChoice::Passages,
            SearchGranularity::Sentence => SpanChoice::Sentences,
            SearchGranularity::All => SpanChoice::Both,
        };
        let documents = options.granularity == SearchGranularity::Document
            || options.granularity == SearchGranularity::All;
        Ok(SearchPlan { query, limit: count, documents, spans })
    }

    /// What to look up for a plain search for documents.
    pub fn search(&self, terms: &Vec<String>, limit: usize) -> (r: Result<SearchPlan, AppError>)
        requires
            limit <= MAX_CANDIDATES,
        ensures
            error::outcome(r) == planned(
                text::views(terms@),
                limit as int,
                (SearchOptionsView {
                    mode: SearchMode::All,
                    granularity: SearchGranularity::Document,
                    grouping: SearchGrouping::Single,
                    kinds: Seq::empty(),
                    explain: false,
                }),
            ),
    {
        let options = SearchOptions {
            mode: SearchMode::All,
            granularity: SearchGranularity::Document,
            grouping: SearchGrouping::Single,
            kinds: Vec::new(),
            explain: false,
        };
        assert(options@.kinds =~= Seq::empty());
        self.search_with_options(terms, limit, &options)
    }
}

// ---------------------------------------------------------------------------
// Hits
// ---------------------------------------------------------------------------

/// The document that a span belongs to.
pub struct DocumentRef {
    pub document_type: String,
    pub identifier: String,
}

#[verifier::ext_equal]
pub struct DocumentRefView {
    pub document_type: Seq<char>,
    pub identifier: Seq<char>,
}

impl View for DocumentRef {
    type V = DocumentRefView;

    open spec fn view(&self) -> DocumentRefView {
        DocumentRefView {
            document_type: self.document_type@,
            identifier: self.identifier@,
        }
    }
}

impl Record for DocumentRef {
    fn duplicate(&self) -> (r: Self) {
        DocumentRef {
            document_type: owned(self.document_type.as_str()),
            identifier: owned(self.identifier.as_str()),
        }
    }

    fn same(&self, other: &Self) -> (r: bool) {
        same_text(self.document_type.as_str(), other.document_type.as_str())
            && same_text(self.identifier.as_str(), other.identifier.as_str())
    }
}

/// Where a span stands in its document.
pub struct SpanPlace {
    pub parent_identifier: String,
    pub ordinal: usize,
    pub byte_start: usize,
    pub byte_end: usize,
    pub content_fingerprint: String,
    pub segmenter_version: i64,
}

#[verifier::ext_equal]
pub struct SpanPlaceView {
    pub parent_identifier: Seq<char>,
    pub ordinal: usize,
    pub byte_start: usize,
    pub byte_end: usize,
    pub content_fingerprint: Seq<char>,
    pub segmenter_version: i64,
}

impl View for SpanPlace {
    type V = SpanPlaceView;

    open spec fn view(&self) -> SpanPlaceView {
        SpanPlaceView {
            parent_identifier: self.parent_identifier@,
            ordinal: self.ordinal,
            byte_start: self.byte_start,
            byte_end: self.byte_end,
            content_fingerprint: self.content_fingerprint@,
            segmenter_version: self.segmenter_version,
        }
    }
}

impl Record for SpanPlace {
    fn duplicate(&self) -> (r: Self) {
        SpanPlace {
            parent_identifier: owned(self.parent_identifier.as_str()),
            ordinal: self.ordinal,
            byte_start: self.byte_start,
            byte_end: self.byte_end,
            content_fingerprint: owned(self.content_fingerprint.as_str()),
            segmenter_version: self.segmenter_version,
        }
    }

    fn same(&self, other: &Self) -> (r: bool) {
        same_text(self.parent_identifier.as_str(), other.parent_identifier.as_str())
            && self.ordinal == other.ordinal
            && self.byte_start == other.byte_start
            && self.byte_end == other.byte_end
            && same_text(self.content_fingerprint.as_str(), other.content_fingerprint.as_str())
            && self.segmenter_version == other.segmenter_version
    }
}

/// A hit.
pub struct SearchHit {
    pub result_type: String,
    pub identifier: String,
    pub document: Option<DocumentRef>,
    pub span: Option<SpanPlace>,
    pub title: Option<String>,
    pub kind: Option<String>,
    pub summary: Option<String>,
    pub snippet: String,
    /// Empty but for pages, once the search is done.
    pub provenance: Vec<String>,
    pub paired_source_ids: Vec<i64>,
    /// How well it fits: the lower, the better.
    pub rank: i64,
    /// Where the caller keeps why it fits.
    pub explanation: Option<usize>,
}

#[verifier::ext_equal]
pub struct HitView {
    pub result_type: Seq<char>,
    pub identifier: Seq<char>,
    pub document: Option<DocumentRefView>,
    pub span: Option<SpanPlaceView>,
    pub title: Option<Seq<char>>,
    pub kind: Option<Seq<char>>,
    pub summary: Option<Seq<char>>,
    pub snippet: Seq<char>,
    pub provenance: Seq<Seq<char>>,
    pub paired_source_ids: Seq<i64>,
    pub rank: i64,
    pub explanation: Option<usize>,
}

impl View for SearchHit {
    type V = HitView;

    open spec fn view(&self) -> HitView {
        HitView {
            result_type: self.result_type@,
            identifier: self.identifier@,
            document: text::opt_view(self.document),
            span: text::opt_view(self.span),
            title: text::opt_text(self.title),
            kind: text::opt_text(self.kind),
            summary: text::opt_text(self.summary),
            snippet: self.snippet@,
            provenance: text::views(self.provenance@),
            paired_source_ids: self.paired_source_ids@,
            rank: self.rank,
            explanation: self.explanation,
        }
    }
}

impl Record for SearchHit {
    fn duplicate(&self) -> (r: Self) {
        SearchHit {
            result_type: owned(self.result_type.as_str()),
            identifier: owned(self.identifier.as_str()),
            document: copy_record_opt(&self.document),
            span: copy_record_opt(&self.span),
            title: copy_opt(&self.title),
            kind: copy_opt(&self.kind),
            summary: copy_opt(&self.summary),
            snippet: owned(self.snippet.as_str()),
            provenance: copy_texts(&self.provenance),
            paired_source_ids: copy_ids(&self.paired_source_ids),
            rank: self.rank,
            explanation: self.explanation,
        }
    }

    fn same(&self, other: &Self) -> (r: bool) {
        same_text(self.result_type.as_str(), other.result_type.as_str())
            && same_text(self.identifier.as_str(), other.identifier.as_str())
            && same_record_opt(&self.document, &other.document)
            && same_record_opt(&self.span, &other.span)
            && same_opt(&self.title, &other.title)
            && same_opt(&self.kind, &other.kind)
            && same_opt(&self.summary, &other.summary)
            && same_text(self.snippet.as_str(), other.snippet.as_str())
            && same_texts(&self.provenance, &other.provenance)
            && same_ids(&self.paired_source_ids, &other.paired_source_ids)
            && self.rank == other.rank
            && self.explanation == other.explanation
    }
}

/// The document that a hit is in: its own, or itself.
pub open spec fn document_of(hit: HitView) -> PairView {
    match hit.document {
        Some(document) => PairView {
            first: document.document_type,
            second: document.identifier,
        },
        None => PairView { first: hit.result_type, second: hit.identifier },
    }
}

fn find_document(hit: &SearchHit) -> (r: Pair)
    ensures
        r@ == document_of(hit@),
{
    match &hit.document {
        Some(document) => Pair {
            first: owned(document.document_type.as_str()),
            second: owned(document.identifier.as_str()),
        },
        None => Pair {
            first: owned(hit.result_type.as_str()),
            second: owned(hit.identifier.as_str()),
        },
    }
}

/// The kinds that are asked for, as they are compared.
pub open spec fn plain_kinds(kinds: Seq<Seq<char>>) -> Seq<Seq<char>> {
    kinds.map_values(|kind: Seq<char>| markdown::lowered(text::trimmed(kind)))
}

/// A hit that is asked for: by the type of its document, and by its kind where kinds are
/// asked for. Sources have no kind.
pub open spec fn is_asked_for(hit: HitView, mode: SearchMode, kinds: Seq<Seq<char>>) -> bool {
    let document_type = document_of(hit).first;
    &&& match mode {
        SearchMode::Auto | SearchMode::All => true,
        SearchMode::Page => document_type == "page"@,
        SearchMode::Source => document_type == "source"@,
    }
    &&& kinds.len() == 0 || document_type == "source"@ || (hit.kind is Some && kinds.contains(
        markdown::lowered(hit.kind->0),
    ))
}

/// The first hits that are asked for.
pub open spec fn asked_for(
    hits: Seq<HitView>,
    mode: SearchMode,
    kinds: Seq<Seq<char>>,
    count: nat,
) -> Seq<HitView>
    decreases count,
{
    if count == 0 || count > hits.len() {
        Seq::empty()
    } else {
        let head = asked_for(hits, mode, kinds, (count - 1) as nat);
        if is_asked_for(hits[count - 1], mode, kinds) {
            head.push(hits[count - 1])
        } else {
            head
        }
    }
}

/// A page that sums a source up.
pub open spec fn sums_up(hit: HitView) -> bool {
    hit.result_type == "page"@ && hit.kind is Some && markdown::ascii_lowered(hit.kind->0)
        == "source"@
}

/// One of the hits sums this source up.
pub open spec fn is_summed_up(hits: Seq<HitView>, id: i64) -> bool {
    exists|i: int|
        0 <= i < hits.len() && sums_up(#[trigger] hits[i]) && hits[i].paired_source_ids.contains(
            id,
        )
}

/// A hit that says no more than a page among the hits does.
pub open spec fn is_covered(hits: Seq<HitView>, hit: HitView) -> bool {
    hit.result_type == "source"@ && (match text::reads_as_i64(hit.identifier) {
        Some(id) => is_summed_up(hits, id as i64),
        None => false,
    })
}

/// The first hits that say more than the pages among the hits do.
pub open spec fn uncovered(hits: Seq<HitView>, count: nat) -> Seq<HitView>
    decreases count,
{
    if count == 0 || count > hits.len() {
        Seq::empty()
    } else {
        let head = uncovered(hits, (count - 1) as nat);
        if is_covered(hits, hits[count - 1]) {
            head
        } else {
            head.push(hits[count - 1])
        }
    }
}

/// The hits that stay.
pub open spec fn retained(hits: Seq<HitView>, options: SearchOptionsView) -> Seq<HitView> {
    let asked = asked_for(hits, options.mode, plain_kinds(options.kinds), hits.len());
    if options.mode == SearchMode::Auto {
        uncovered(asked, asked.len())
    } else {
        asked
    }
}

fn list_kinds(kinds: &Vec<String>) -> (r: Vec<String>)
    ensures
        text::views(r@) == plain_kinds(text::views(kinds@)),
{
    let mut out: Vec<String> = Vec::new();
    let mut i: usize = 0;
    while i < kinds.len()
        invariant
            i <= kinds@.len(),
            out@.len() == i,
            forall|j: int|
                0 <= j < i ==> (#[trigger] out@[j])@ == markdown::lowered(
                    text::trimmed(kinds@[j]@),
                ),
        decreases kinds@.len() - i,
    {
        out.push(lower(trim(kinds[i].as_str()).as_str()));
        i += 1;
    }
    assert(text::views(out@) =~= plain_kinds(text::views(kinds@)));
    out
}

fn fits_question(hit: &SearchHit, mode: SearchMode, kinds: &Vec<String>) -> (r: bool)
    ensures
        r == is_asked_for(hit@, mode, text::views(kinds@)),
{
    assert(text::views(kinds@).len() == kinds@.len());
    let document_type = find_document(hit).first;
    let source = same_text(document_type.as_str(), "source");
    let type_fits = match mode {
        SearchMode::Auto | SearchMode::All => true,
        SearchMode::Page => same_text(document_type.as_str(), "page"),
        SearchMode::Source => source,
    };
    if !type_fits {
        return false;
    }
    if kinds.len() == 0 || source {
        return true;
    }
    match &hit.kind {
        Some(kind) => has_text(kinds, lower(kind.as_str()).as_str()),
        None => false,
    }
}

fn has_id(list: &Vec<i64>, wanted: i64) -> (r: bool)
    ensures
        r == list@.contains(wanted),
{
    let mut i: usize = 0;
    while i < list.len()
        invariant
            i <= list@.len(),
            forall|j: int| 0 <= j < i ==> list@[j] != wanted,
        decreases list@.len() - i,
    {
        if list[i] == wanted {
            return true;
        }
        i += 1;
    }
    false
}

fn summing_page(hit: &SearchHit) -> (r: bool)
    ensures
        r == sums_up(hit@),
{
    if !same_text(hit.result_type.as_str(), "page") {
        return false;
    }
    match &hit.kind {
        Some(kind) => same_text(ascii_lower_text(kind.as_str()).as_str(), "source"),
        None => false,
    }
}

fn summed_up(hits: &Vec<SearchHit>, id: i64) -> (r: bool)
    ensures
        r == is_summed_up(text::views(hits@), id),
{
    let ghost all = text::views(hits@);
    let mut i: usize = 0;
    while i < hits.len()
        invariant
            i <= hits@.len() == all.len(),
            all == text::views(hits@),
            forall|j: int|
                0 <= j < i ==> !(sums_up(#[trigger] all[j]) && all[j].paired_source_ids.contains(
                    id,
                )),
        decreases hits@.len() - i,
    {
        assert(all[i as int] == hits@[i as int]@);
        if summing_page(&hits[i]) && has_id(&hits[i].paired_source_ids, id) {
            assert(sums_up(all[i as int]));
            return true;
        }
        i += 1;
    }
    false
}

fn covered(hits: &Vec<SearchHit>, hit: &SearchHit) -> (r: bool)
    ensures
        r == is_covered(text::views(hits@), hit@),
{
    if !same_text(hit.result_type.as_str(), "source") {
        return false;
    }
    match parse_i64(hit.identifier.as_str()) {
        Some(id) => summed_up(hits, id),
        None => false,
    }
}

/// The hits that stay: those that are asked for. Where the search chooses by itself, a source
/// gives way to a page that sums it up.
pub fn retain_hits(hits: &Vec<SearchHit>, options: &SearchOptions) -> (r: Vec<SearchHit>)
    ensures
        text::views(r@) == retained(text::views(hits@), options@),
{
    let kinds = list_kinds(&options.kinds);
    let ghost all = text::views(hits@);
    let ghost plain = text::views(kinds@);
    let mut asked: Vec<SearchHit> = Vec::new();
    assert(text::views(asked@) =~= Seq::empty());
    let mut i: usize = 0;
    while i < hits.len()
        invariant
            i <= hits@.len() == all.len(),
            all == text::views(hits@),
            plain == text::views(kinds@),
            text::views(asked@) == asked_for(all, options.mode, plain, i as nat),
        decreases hits@.len() - i,
    {
        assert(all[i as int] == hits@[i as int]@);
        if fits_question(&hits[i], options.mode, &kinds) {
            let one = hits[i].duplicate();
            proof {
                text::lemma_views_push(asked@, one);
            }
            asked.push(one);
        }
        i += 1;
    }
    if options.mode != SearchMode::Auto {
        return asked;
    }
    let ghost stay = text::views(asked@);
    let mut out: Vec<SearchHit> = Vec::new();
    assert(text::views(out@) =~= Seq::empty());
    let mut k: usize = 0;
    while k < asked.len()
        invariant
            k <= asked@.len() == stay.len(),
            stay == text::views(asked@),
            text::views(out@) == uncovered(stay, k as nat),
        decreases asked@.len() - k,
    {
        assert(stay[k as int] == asked@[k as int]@);
        if !covered(&asked, &asked[k]) {
            let one = asked[k].duplicate();
            proof {
                text::lemma_views_push(out@, one);
            }
            out.push(one);
        }
        k += 1;
    }
    out
}

// ---------------------------------------------------------------------------
// What users said of a hit
// ---------------------------------------------------------------------------

/// The weight of a hit, and the feedback on it for this query.
pub struct HitSignals {
    pub weight: i32,
    pub feedback: i32,
}

/// A signal, or none.
pub open spec fn signal_of(signals: Map<PairView, i32>, key: PairView) -> i32 {
    if signals.dom().contains(key) {
        signals[key]
    } else {
        0
    }
}

fn find_signal(signals: &Table<Pair, Signal>, key: &Pair) -> (r: i32)
    ensures
        r == signal_of(signals@, key@),
{
    match signals.get(key) {
        Some(signal) => signal.value,
        None => 0,
    }
}

impl Store {
    /// What users said of each hit. It counts for the document that the hit is in.
    pub fn retrieval_signals(&self, terms: &Vec<String>, hits: &Vec<SearchHit>) -> (r: Vec<
        HitSignals,
    >)
        ensures
            r@.len() == hits@.len(),
            forall|i: int|
                0 <= i < hits@.len() ==> {
                    let key = document_of(hits@[i]@);
                    &&& (#[trigger] r@[i]).weight == signal_of(
                        retrieval::effective_weights(self@),
                        key,
                    )
                    &&& r@[i].feedback == signal_of(
                        retrieval::effective_feedback(
                            self@,
                            retrieval::query_mark(text::views(terms@)),
                        ),
                        key,
                    )
                },
    {
        let weights = self.load_effective_weights();
        let mark = query_fingerprint(terms);
        let feedback = self.load_effective_feedback(mark.as_str());
        let mut out: Vec<HitSignals> = Vec::new();
        let mut i: usize = 0;
        while i < hits.len()
            invariant
                i <= hits@.len(),
                out@.len() == i,
                forall|j: int|
                    0 <= j < i ==> {
                        let key = document_of(hits@[j]@);
                        &&& (#[trigger] out@[j]).weight == signal_of(weights@, key)
                        &&& out@[j].feedback == signal_of(feedback@, key)
                    },
            decreases hits@.len() - i,
        {
            let key = find_document(&hits[i]);
            out.push(
                HitSignals {
                    weight: find_signal(&weights, &key),
                    feedback: find_signal(&feedback, &key),
                },
            );
            i += 1;
        }
        out
    }
}

// ---------------------------------------------------------------------------
// The order of hits
// ---------------------------------------------------------------------------

/// A hit that stands behind all others, where sources come last.
pub open spec fn gives_way(hit: HitView, sources_last: bool) -> bool {
    sources_last && hit.result_type == "source"@
}

/// One hit is to stand before another: by its type where sources come last, by rank, by type
/// and by identifier.
pub open spec fn hit_before(a: HitView, b: HitView, sources_last: bool) -> bool {
    let x = gives_way(a, sources_last);
    let y = gives_way(b, sources_last);
    ||| !x && y
    ||| x == y && a.rank < b.rank
    ||| x == y && a.rank == b.rank && text::before(a.result_type, b.result_type)
    ||| x == y && a.rank == b.rank && a.result_type == b.result_type && text::before(
        a.identifier,
        b.identifier,
    )
}

/// How many hits at the start of a list do not have to give way to another.
pub open spec fn place_for(list: Seq<HitView>, one: HitView, sources_last: bool) -> nat
    decreases list.len(),
{
    if list.len() == 0 {
        0
    } else if hit_before(one, list.last(), sources_last) {
        place_for(list.drop_last(), one, sources_last)
    } else {
        list.len()
    }
}

/// The first `count` hits in order; those that nothing tells apart stay as they were.
pub open spec fn sorted(list: Seq<HitView>, sources_last: bool, count: nat) -> Seq<HitView>
    decreases count,
{
    if count == 0 || count > list.len() {
        Seq::empty()
    } else {
        let head = sorted(list, sources_last, (count - 1) as nat);
        head.insert(place_for(head, list[count - 1], sources_last) as int, list[count - 1])
    }
}

proof fn lemma_place(list: Seq<HitView>, one: HitView, sources_last: bool)
    ensures
        place_for(list, one, sources_last) <= list.len(),
    decreases list.len(),
{
    if list.len() > 0 {
        lemma_place(list.drop_last(), one, sources_last);
    }
}

fn hit_comes_before(a: &SearchHit, b: &SearchHit, sources_last: bool) -> (r: bool)
    ensures
        r == hit_before(a@, b@, sources_last),
{
    let x = sources_last && same_text(a.result_type.as_str(), "source");
    let y = sources_last && same_text(b.result_type.as_str(), "source");
    if x != y {
        return y;
    }
    if a.rank != b.rank {
        return a.rank < b.rank;
    }
    if comes_before(a.result_type.as_str(), b.result_type.as_str()) {
        return true;
    }
    same_text(a.result_type.as_str(), b.result_type.as_str()) && comes_before(
        a.identifier.as_str(),
        b.identifier.as_str(),
    )
}

fn sort_list(list: &Vec<SearchHit>, sources_last: bool) -> (r: Vec<SearchHit>)
    ensures
        text::views(r@) == sorted(text::views(list@), sources_last, list@.len()),
        r@.len() == list@.len(),
{
    let ghost all = text::views(list@);
    let mut out: Vec<SearchHit> = Vec::new();
    assert(text::views(out@) =~= Seq::empty());
    let mut i: usize = 0;
    while i < list.len()
        invariant
            i <= list@.len() == all.len(),
            all == text::views(list@),
            out@.len() == i,
            text::views(out@) == sorted(all, sources_last, i as nat),
        decreases list@.len() - i,
    {
        let ghost head = text::views(out@);
        let ghost next = all[i as int];
        assert(next == list@[i as int]@);
        let mut at: usize = out.len();
        assert(head.take(at as int) =~= head);
        while at > 0 && hit_comes_before(&list[i], &out[at - 1], sources_last)
            invariant
                at <= out@.len() == head.len(),
                head == text::views(out@),
                i < list@.len(),
                next == list@[i as int]@,
                place_for(head, next, sources_last) == place_for(
                    head.take(at as int),
                    next,
                    sources_last,
                ),
            decreases at,
        {
            assert(head.take(at as int).drop_last() =~= head.take(at - 1));
            assert(head.take(at as int).last() == out@[at - 1]@);
            at -= 1;
        }
        proof {
            if at > 0 {
                assert(head.take(at as int).last() == out@[at - 1]@);
            }
            assert(place_for(head, next, sources_last) == at);
        }
        let one = list[i].duplicate();
        out.insert(at, one);
        assert(text::views(out@) =~= head.insert(at as int, next));
        i += 1;
    }
    out
}

/// Whether sources come last.
pub open spec fn last_for(mode: SearchMode) -> bool {
    is_open(mode)
}

/// Puts hits in order. Where pages and sources are looked for alike, sources come last.
pub fn sort_hits(list: &Vec<SearchHit>, mode: SearchMode) -> (r: Vec<SearchHit>)
    ensures
        text::views(r@) == sorted(text::views(list@), last_for(mode), list@.len()),
{
    sort_list(list, mode == SearchMode::Auto || mode == SearchMode::All)
}

/// The pages from which related pages are looked up: the first three among the hits.
pub open spec fn seeds(hits: Seq<HitView>, count: nat) -> Seq<Seq<char>>
    decreases count,
{
    if count == 0 || count > hits.len() {
        Seq::empty()
    } else {
        let head = seeds(hits, (count - 1) as nat);
        if hits[count - 1].result_type == "page"@ && head.len() < 3 {
            head.push(hits[count - 1].identifier)
        } else {
            head
        }
    }
}

/// The pages from which related pages are looked up.
pub fn graph_seeds(hits: &Vec<SearchHit>) -> (r: Vec<String>)
    ensures
        text::views(r@) == seeds(text::views(hits@), hits@.len()),
{
    let ghost all = text::views(hits@);
    let mut out: Vec<String> = Vec::new();
    assert(text::views(out@) =~= Seq::empty());
    let mut i: usize = 0;
    while i < hits.len()
        invariant
            i <= hits@.len() == all.len(),
            all == text::views(hits@),
            text::views(out@) == seeds(all, i as nat),
        decreases hits@.len() - i,
    {
        assert(all[i as int] == hits@[i as int]@);
        assert(text::views(out@).len() == out@.len());
        if same_text(hits[i].result_type.as_str(), "page") && out.len() < 3 {
            let one = owned(hits[i].identifier.as_str());
            proof {
                text::lemma_views_push(out@, one);
            }
            out.push(one);
        }
        i += 1;
    }
    out
}

// ---------------------------------------------------------------------------
// Hits of different granularity
// ---------------------------------------------------------------------------

/// One hit is ranked before another of its granularity: by rank, by identifier, and last by
/// where they stand.
pub open spec fn ranked_before(hits: Seq<HitView>, i: int, j: int) -> bool {
    let a = hits[i];
    let b = hits[j];
    &&& a.result_type == b.result_type
    &&& {
        ||| a.rank < b.rank
        ||| a.rank == b.rank && text::before(a.identifier, b.identifier)
        ||| a.rank == b.rank && a.identifier == b.identifier && i < j
    }
}

/// How many of the first hits are ranked before one of them.
pub open spec fn ranked_above(hits: Seq<HitView>, one: int, count: nat) -> nat
    decreases count,
{
    if count == 0 || count > hits.len() {
        0
    } else {
        ranked_above(hits, one, (count - 1) as nat) + if ranked_before(hits, count - 1, one) {
            1nat
        } else {
            0nat
        }
    }
}

/// How much a hit of its granularity counts before its place is known.
#[derive(Clone, Copy, PartialEq, Eq, Structural)]
pub enum Granularity {
    Sentence,
    Passage,
    Document,
}

pub open spec fn granularity_of(result_type: Seq<char>) -> Granularity {
    if result_type == "sentence"@ {
        Granularity::Sentence
    } else if result_type == "passage"@ {
        Granularity::Passage
    } else {
        Granularity::Document
    }
}

/// The place of a hit among those of its granularity.
pub struct FusionPlace {
    pub granularity: Granularity,
    pub position: usize,
}

fn count_above(hits: &Vec<SearchHit>, one: usize) -> (r: usize)
    requires
        one < hits@.len(),
    ensures
        r == ranked_above(text::views(hits@), one as int, hits@.len()),
{
    let ghost all = text::views(hits@);
    let mut count: usize = 0;
    let mut i: usize = 0;
    while i < hits.len()
        invariant
            i <= hits@.len() == all.len(),
            all == text::views(hits@),
            one < hits@.len(),
            count <= i,
            count == ranked_above(all, one as int, i as nat),
        decreases hits@.len() - i,
    {
        let a = &hits[i];
        let b = &hits[one];
        assert(all[i as int] == a@ && all[one as int] == b@);
        let same_type = same_text(a.result_type.as_str(), b.result_type.as_str());
        let same_name = same_text(a.identifier.as_str(), b.identifier.as_str());
        let name_before = comes_before(a.identifier.as_str(), b.identifier.as_str());
        let first = a.rank < b.rank || (a.rank == b.rank && name_before) || (a.rank == b.rank
            && same_name && i < one);
        if same_type && first {
            count += 1;
        }
        i += 1;
    }
    count
}

/// The place of each hit among those of its granularity.
pub fn apply_mixed_fusion(hits: &Vec<SearchHit>) -> (r: Vec<FusionPlace>)
    ensures
        r@.len() == hits@.len(),
        forall|i: int|
            0 <= i < hits@.len() ==> {
                &&& (#[trigger] r@[i]).granularity == granularity_of(hits@[i]@.result_type)
                &&& r@[i].position == ranked_above(text::views(hits@), i, hits@.len())
            },
{
    let mut out: Vec<FusionPlace> = Vec::new();
    let mut i: usize = 0;
    while i < hits.len()
        invariant
            i <= hits@.len(),
            out@.len() == i,
            forall|j: int|
                0 <= j < i ==> {
                    &&& (#[trigger] out@[j]).granularity == granularity_of(hits@[j]@.result_type)
                    &&& out@[j].position == ranked_above(text::views(hits@), j, hits@.len())
                },
        decreases hits@.len() - i,
    {
        let result_type = hits[i].result_type.as_str();
        let granularity = if same_text(result_type, "sentence") {
            Granularity::Sentence
        } else if same_text(result_type, "passage") {
            Granularity::Passage
        } else {
            Granularity::Document
        };
        out.push(FusionPlace { granularity, position: count_above(hits, i) });
        i += 1;
    }
    out
}

// ---------------------------------------------------------------------------
// Hits by document
// ---------------------------------------------------------------------------

/// The hits in one document among the first ones.
pub open spec fn hits_in(hits: Seq<HitView>, document: PairView, count: nat) -> Seq<HitView>
    decreases count,
{
    if count == 0 || count > hits.len() {
        Seq::empty()
    } else {
        let head = hits_in(hits, document, (count - 1) as nat);
        if document_of(hits[count - 1]) == document {
            head.push(hits[count - 1])
        } else {
            head
        }
    }
}

/// The documents that have hits.
pub open spec fn documents_of(hits: Seq<HitView>) -> Set<PairView> {
    Set::new(|d: PairView| exists|i: int| 0 <= i < hits.len() && document_of(#[trigger] hits[i]) == d)
}

/// The hit that is the document itself, or the first.
pub open spec fn own_hit(matches: Seq<HitView>, document: PairView, count: nat) -> int
    decreases count,
{
    if count == 0 || count > matches.len() {
        0
    } else {
        let one = matches[matches.len() - count];
        if one.result_type == document.first && one.identifier == document.second {
            matches.len() - count
        } else {
            own_hit(matches, document, (count - 1) as nat)
        }
    }
}

/// The hits in one document, the best first. One of them stands for the document.
pub struct HitGroup {
    pub document: Pair,
    /// The hit that stands for the document.
    pub base: SearchHit,
    pub best: SearchHit,
    /// The best hits, three at most.
    pub selected: Vec<SearchHit>,
}

#[verifier::ext_equal]
pub struct HitGroupView {
    pub document: PairView,
    pub base: HitView,
    pub best: HitView,
    pub selected: Seq<HitView>,
}

impl View for HitGroup {
    type V = HitGroupView;

    open spec fn view(&self) -> HitGroupView {
        HitGroupView {
            document: self.document@,
            base: self.base@,
            best: self.best@,
            selected: text::views(self.selected@),
        }
    }
}

/// The hits in one document as a group.
pub open spec fn group_of(hits: Seq<HitView>, document: PairView) -> HitGroupView {
    let found = hits_in(hits, document, hits.len());
    let matches = sorted(found, false, found.len());
    HitGroupView {
        document,
        base: matches[own_hit(matches, document, matches.len())],
        best: matches[0],
        selected: if matches.len() > 3 {
            matches.take(3)
        } else {
            matches
        },
    }
}

/// The hits by document, in the order of the documents.
pub open spec fn groups_of(hits: Seq<HitView>) -> Seq<HitGroupView> {
    table::ordered::<Pair>(documents_of(hits)).map_values(|d: PairView| group_of(hits, d))
}

/// A group as one hit. `rank` is what its best hits come to together.
pub open spec fn grouped(group: HitGroupView, rank: i64) -> HitView {
    HitView {
        result_type: group.document.first,
        identifier: group.document.second,
        document: None,
        span: None,
        snippet: group.best.snippet,
        explanation: group.best.explanation,
        rank,
        ..group.base
    }
}

proof fn lemma_some_hit(hits: Seq<HitView>, document: PairView, at: int, count: nat)
    requires
        0 <= at < count <= hits.len(),
        document_of(hits[at]) == document,
    ensures
        hits_in(hits, document, count).len() > 0,
    decreases count,
{
    if at < count - 1 {
        lemma_some_hit(hits, document, at, (count - 1) as nat);
    }
}

proof fn lemma_sorted_len(list: Seq<HitView>, sources_last: bool, count: nat)
    requires
        count <= list.len(),
    ensures
        sorted(list, sources_last, count).len() == count,
    decreases count,
{
    if count > 0 {
        lemma_sorted_len(list, sources_last, (count - 1) as nat);
        lemma_place(sorted(list, sources_last, (count - 1) as nat), list[count - 1], sources_last);
    }
}

fn collect_in(hits: &Vec<SearchHit>, document: &Pair) -> (r: Vec<SearchHit>)
    ensures
        text::views(r@) == hits_in(text::views(hits@), document@, hits@.len()),
{
    let ghost all = text::views(hits@);
    let mut out: Vec<SearchHit> = Vec::new();
    assert(text::views(out@) =~= Seq::empty());
    let mut i: usize = 0;
    while i < hits.len()
        invariant
            i <= hits@.len() == all.len(),
            all == text::views(hits@),
            text::views(out@) == hits_in(all, document@, i as nat),
        decreases hits@.len() - i,
    {
        assert(all[i as int] == hits@[i as int]@);
        let own = find_document(&hits[i]);
        let here = same_text(own.first.as_str(), document.first.as_str()) && same_text(
            own.second.as_str(),
            document.second.as_str(),
        );
        assert(here == (document_of(all[i as int]) == document@));
        if here {
            let one = hits[i].duplicate();
            proof {
                text::lemma_views_push(out@, one);
            }
            out.push(one);
        }
        i += 1;
    }
    out
}

fn find_own(matches: &Vec<SearchHit>, document: &Pair) -> (r: usize)
    requires
        matches@.len() > 0,
    ensures
        r < matches@.len(),
        r == own_hit(text::views(matches@), document@, matches@.len()),
{
    let ghost all = text::views(matches@);
    let n = matches.len();
    let mut i: usize = 0;
    while i < n
        invariant
            i <= n == matches@.len() == all.len(),
            all == text::views(matches@),
            own_hit(all, document@, n as nat) == own_hit(all, document@, (n - i) as nat),
        decreases n - i,
    {
        assert(all[i as int] == matches@[i as int]@);
        assert(all[all.len() - (n - i)] == matches@[i as int]@);
        if same_text(matches[i].result_type.as_str(), document.first.as_str()) && same_text(
            matches[i].identifier.as_str(),
            document.second.as_str(),
        ) {
            return i;
        }
        i += 1;
    }
    0
}

fn make_group(hits: &Vec<SearchHit>, document: &Pair) -> (r: HitGroup)
    requires
        documents_of(text::views(hits@)).contains(document@),
    ensures
        r@ == group_of(text::views(hits@), document@),
{
    let ghost all = text::views(hits@);
    let found = collect_in(hits, document);
    let matches = sort_list(&found, false);
    let ghost sorted_all = text::views(matches@);
    proof {
        let at = choose|i: int|
            0 <= i < all.len() && document_of(#[trigger] all[i]) == document@;
        lemma_some_hit(all, document@, at, all.len());
        assert(text::views(found@).len() == found@.len());
        assert(sorted_all.len() == matches@.len());
    }
    let own = find_own(&matches, document);
    let mut selected: Vec<SearchHit> = Vec::new();
    let mut i: usize = 0;
    while i < matches.len() && i < 3
        invariant
            i <= matches@.len(),
            i <= 3,
            selected@.len() == i,
            forall|j: int| 0 <= j < i ==> (#[trigger] selected@[j])@ == matches@[j]@,
        decreases matches@.len() - i,
    {
        selected.push(matches[i].duplicate());
        i += 1;
    }
    let group = HitGroup {
        document: Pair {
            first: owned(document.first.as_str()),
            second: owned(document.second.as_str()),
        },
        base: matches[own].duplicate(),
        best: matches[0].duplicate(),
        selected,
    };
    proof {
        assert(sorted_all[own as int] == matches@[own as int]@);
        assert(sorted_all[0] == matches@[0]@);
        let goal = group_of(all, document@);
        assert(group@.selected =~= goal.selected);
    }
    group
}

/// The hits by document, in the order of the documents.
pub fn group_search_results(hits: &Vec<SearchHit>) -> (r: Vec<HitGroup>)
    ensures
        text::views(r@) == groups_of(text::views(hits@)),
{
    let ghost all = text::views(hits@);
    let mut documents: Table<Pair, bool> = Table::new();
    let mut i: usize = 0;
    while i < hits.len()
        invariant
            i <= hits@.len() == all.len(),
            all == text::views(hits@),
            forall|d: PairView|
                #[trigger] documents@.dom().contains(d) == exists|k: int|
                    0 <= k < i && document_of(#[trigger] all[k]) == d,
        decreases hits@.len() - i,
    {
        assert(all[i as int] == hits@[i as int]@);
        let ghost was = documents@;
        let key = find_document(&hits[i]);
        let ghost one = key@;
        documents.put(key, true);
        proof {
            assert forall|d: PairView|
                #[trigger] documents@.dom().contains(d) == exists|k: int|
                    0 <= k < i + 1 && document_of(#[trigger] all[k]) == d by {
                assert(was.dom().contains(d) == exists|k: int|
                    0 <= k < i && document_of(#[trigger] all[k]) == d);
                if d == one {
                    assert(document_of(all[i as int]) == d);
                }
            }
        }
        i += 1;
    }
    let n = documents.len();
    let ghost keys = documents.keys();
    proof {
        assert(documents@.dom() =~= documents_of(all));
        table::lemma_ordered_is::<Pair>(keys, documents_of(all));
    }
    let mut out: Vec<HitGroup> = Vec::new();
    let mut k: usize = 0;
    while k < n
        invariant
            k <= n == keys.len(),
            keys == documents.keys(),
            table::lists::<Pair>(keys, documents_of(all)),
            all == text::views(hits@),
            out@.len() == k,
            forall|j: int| 0 <= j < k ==> (#[trigger] out@[j])@ == group_of(all, keys[j]),
        decreases n - k,
    {
        let document = documents.key_at(k);
        assert(keys.to_set().contains(document@));
        out.push(make_group(hits, document));
        k += 1;
    }
    assert(text::views(out@) =~= groups_of(all));
    out
}

/// A group as one hit. `rank` is what its best hits come to together.
pub fn grouped_hit(group: &HitGroup, rank: i64) -> (r: SearchHit)
    ensures
        r@ == grouped(group@, rank),
{
    let mut hit = group.base.duplicate();
    hit.result_type = owned(group.document.first.as_str());
    hit.identifier = owned(group.document.second.as_str());
    hit.document = None;
    hit.span = None;
    hit.snippet = owned(group.best.snippet.as_str());
    hit.explanation = group.best.explanation;
    hit.rank = rank;
    hit
}

// ---------------------------------------------------------------------------
// The results
// ---------------------------------------------------------------------------

/// A hit as it is shown: a page with its provenance, and why it fits only where that was
/// asked for.
pub open spec fn shown(store: StoreView, hit: HitView, explain: bool) -> HitView {
    HitView {
        provenance: if hit.result_type == "page"@ {
            if store.pages.dom().contains(hit.identifier) {
                let page = store.pages[hit.identifier];
                pages::shown_provenance(page.source_ids.len() > 0, page.provenance)
            } else {
                Seq::empty()
            }
        } else {
            hit.provenance
        },
        explanation: if explain {
            hit.explanation
        } else {
            None
        },
        ..hit
    }
}

/// The results: the best hits in order, as they are shown.
pub open spec fn results(
    store: StoreView,
    hits: Seq<HitView>,
    limit: nat,
    options: SearchOptionsView,
) -> Seq<HitView> {
    let all = sorted(hits, last_for(options.mode), hits.len());
    let best = if all.len() > limit {
        all.take(limit as int)
    } else {
        all
    };
    best.map_values(|hit: HitView| shown(store, hit, options.explain))
}

impl Store {
    fn show_hit(&self, hit: &SearchHit, explain: bool) -> (r: SearchHit)
        ensures
            r@ == shown(self@, hit@, explain),
    {
        let mut out = hit.duplicate();
        if same_text(hit.result_type.as_str(), "page") {
            out.provenance = match self.pages.get(&hit.identifier) {
                Some(page) => provenance_from_parts(page.source_ids.len() > 0, &page.provenance),
                None => Vec::new(),
            };
            assert(out@.provenance =~= shown(self@, hit@, explain).provenance);
        }
        if !explain {
            out.explanation = None;
        }
        out
    }

    /// The results of a search: the best hits in order, as they are shown.
    pub fn finish_search(&self, hits: &Vec<SearchHit>, limit: usize, options: &SearchOptions) -> (r:
        Vec<SearchHit>)
        ensures
            text::views(r@) == results(self@, text::views(hits@), limit as nat, options@),
    {
        let ghost all = text::views(hits@);
        let list = sort_hits(hits, options.mode);
        let ghost in_order = text::views(list@);
        proof {
            lemma_sorted_len(all, last_for(options.mode), all.len());
            assert(in_order.len() == list@.len());
        }
        let mut out: Vec<SearchHit> = Vec::new();
        let mut i: usize = 0;
        while i < list.len() && i < limit
            invariant
                i <= list@.len() == in_order.len(),
                i <= limit,
                in_order == text::views(list@),
                out@.len() == i,
                forall|j: int|
                    0 <= j < i ==> (#[trigger] out@[j])@ == shown(
                        self@,
                        in_order[j],
                        options.explain,
                    ),
            decreases list@.len() - i,
        {
            assert(in_order[i as int] == list@[i as int]@);
            out.push(self.show_hit(&list[i], options.explain));
            i += 1;
        }
        assert(text::views(out@) =~= results(self@, all, limit as nat, options@));
        out
    }
}

// ---------------------------------------------------------------------------
// Laws
// ---------------------------------------------------------------------------

pub open spec fn in_order(list: Seq<HitView>, sources_last: bool) -> bool {
    forall|i: int, j: int|
        0 <= i < j < list.len() ==> !hit_before(list[j], list[i], sources_last)
}

proof fn lemma_text_asymmetric(a: Seq<char>, b: Seq<char>)
    ensures
        !(text::before(a, b) && text::before(b, a)),
{
    if text::before(a, b) {
        text::lemma_before_asymmetric(a, b);
    }
}

proof fn lemma_hit_asymmetric(a: HitView, b: HitView, sources_last: bool)
    ensures
        !(hit_before(a, b, sources_last) && hit_before(b, a, sources_last)),
{
    lemma_text_asymmetric(a.result_type, b.result_type);
    lemma_text_asymmetric(a.identifier, b.identifier);
    text::lemma_before_irreflexive(a.result_type);
}

/// A hit that has to stand before a second one has to stand before all that do not have to
/// stand before the second.
proof fn lemma_hit_before(a: HitView, b: HitView, c: HitView, sources_last: bool)
    requires
        hit_before(a, b, sources_last),
        !hit_before(c, b, sources_last),
    ensures
        hit_before(a, c, sources_last),
{
    text::lemma_before_total(b.result_type, c.result_type);
    text::lemma_before_total(b.identifier, c.identifier);
    if text::before(a.result_type, b.result_type) && text::before(b.result_type, c.result_type) {
        text::lemma_before_transitive(a.result_type, b.result_type, c.result_type);
    }
    if text::before(a.identifier, b.identifier) && text::before(b.identifier, c.identifier) {
        text::lemma_before_transitive(a.identifier, b.identifier, c.identifier);
    }
}

proof fn lemma_place_parts(list: Seq<HitView>, one: HitView, sources_last: bool)
    requires
        in_order(list, sources_last),
    ensures
        forall|k: int|
            0 <= k < place_for(list, one, sources_last) ==> !hit_before(
                one,
                #[trigger] list[k],
                sources_last,
            ),
        forall|k: int|
            place_for(list, one, sources_last) <= k < list.len() ==> hit_before(
                one,
                #[trigger] list[k],
                sources_last,
            ),
    decreases list.len(),
{
    lemma_place(list, one, sources_last);
    if list.len() > 0 {
        if hit_before(one, list.last(), sources_last) {
            let head = list.drop_last();
            assert(in_order(head, sources_last));
            lemma_place_parts(head, one, sources_last);
            lemma_place(head, one, sources_last);
            assert forall|k: int|
                place_for(list, one, sources_last) <= k < list.len() implies hit_before(
                one,
                #[trigger] list[k],
                sources_last,
            ) by {
                if k < list.len() - 1 {
                    assert(head[k] == list[k]);
                }
            }
            assert forall|k: int| 0 <= k < place_for(list, one, sources_last) implies !hit_before(
                one,
                #[trigger] list[k],
                sources_last,
            ) by {
                assert(head[k] == list[k]);
            }
        } else {
            assert forall|k: int| 0 <= k < list.len() implies !hit_before(
                one,
                #[trigger] list[k],
                sources_last,
            ) by {
                if hit_before(one, list[k], sources_last) && k < list.len() - 1 {
                    lemma_hit_before(one, list[k], list.last(), sources_last);
                }
            }
        }
    }
}

/// Hits are shown in order, and each of them once: what is sorted is in order and holds the
/// same hits.
pub proof fn law_hits_come_in_order(list: Seq<HitView>, sources_last: bool, count: nat)
    requires
        count <= list.len(),
    ensures
        in_order(sorted(list, sources_last, count), sources_last),
        sorted(list, sources_last, count).to_multiset() == list.take(count as int).to_multiset(),
        sorted(list, sources_last, count).len() == count,
    decreases count,
{
    broadcast use vstd::seq_lib::group_to_multiset_ensures;

    if count == 0 {
        assert(list.take(0) =~= Seq::<HitView>::empty());
    } else {
        let head = sorted(list, sources_last, (count - 1) as nat);
        let one = list[count - 1];
        law_hits_come_in_order(list, sources_last, (count - 1) as nat);
        lemma_place(head, one, sources_last);
        lemma_place_parts(head, one, sources_last);
        let at = place_for(head, one, sources_last) as int;
        let next = head.insert(at, one);
        assert(list.take(count as int) =~= list.take(count - 1).push(one));
        assert(next.remove(at) =~= head);
        assert(next[at] == one);
        assert(next.to_multiset().remove(one) =~= head.to_multiset());
        assert(next.contains(one));
        assert(next.to_multiset() =~= head.to_multiset().insert(one));
        assert forall|i: int, j: int| 0 <= i < j < next.len() implies !hit_before(
            next[j],
            next[i],
            sources_last,
        ) by {
            if i == at {
                let other = head[j - 1];
                assert(next[j] == other);
                assert(hit_before(one, other, sources_last));
                lemma_hit_asymmetric(one, other, sources_last);
            } else if j == at {
                assert(next[i] == head[i]);
            } else {
                let a = if i < at {
                    i
                } else {
                    i - 1
                };
                let b = if j < at {
                    j
                } else {
                    j - 1
                };
                assert(next[i] == head[a] && next[j] == head[b]);
            }
        }
    }
}

/// Where pages and sources are looked for alike, no source is shown before a page, however
/// well it fits.
pub proof fn law_sources_come_last(hits: Seq<HitView>, mode: SearchMode, i: int, j: int)
    requires
        is_open(mode),
        0 <= i < j < hits.len(),
    ensures
        ({
            let list = sorted(hits, last_for(mode), hits.len());
            list[i].result_type == "source"@ ==> list[j].result_type == "source"@
        }),
{
    law_hits_come_in_order(hits, last_for(mode), hits.len());
    let list = sorted(hits, last_for(mode), hits.len());
    assert(!hit_before(list[j], list[i], true));
}

/// A search that chooses by itself shows no source that a page among the hits sums up.
pub proof fn law_summed_up_sources_give_way(hits: Seq<HitView>, options: SearchOptionsView, k: int)
    requires
        options.mode == SearchMode::Auto,
        0 <= k < retained(hits, options).len(),
    ensures
        ({
            let asked = asked_for(hits, options.mode, plain_kinds(options.kinds), hits.len());
            let hit = retained(hits, options)[k];
            asked.contains(hit) && !is_covered(asked, hit)
        }),
{
    let asked = asked_for(hits, options.mode, plain_kinds(options.kinds), hits.len());
    lemma_uncovered(asked, asked.len(), k);
}

proof fn lemma_uncovered(hits: Seq<HitView>, count: nat, k: int)
    requires
        count <= hits.len(),
        0 <= k < uncovered(hits, count).len(),
    ensures
        hits.contains(uncovered(hits, count)[k]),
        !is_covered(hits, uncovered(hits, count)[k]),
    decreases count,
{
    let head = uncovered(hits, (count - 1) as nat);
    if !is_covered(hits, hits[count - 1]) && k == head.len() {
        assert(uncovered(hits, count)[k] == hits[count - 1]);
    } else {
        assert(uncovered(hits, count)[k] == head[k]);
        lemma_uncovered(hits, (count - 1) as nat, k);
    }
}

} // verus!
