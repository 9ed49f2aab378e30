//! Pages: writing, showing, listing and removing them.
use crate::digest;
use crate::digest::hash_content;
use crate::error;
use crate::error::{AppError, AppErrorView, ErrorCode};
use crate::json;
use crate::json::{canonical_sync_value, Json, JsonView};
use crate::markdown;
use crate::markdown::{extract_links, has_structural_navigation_marker};
use crate::paging;
use crate::paging::{copy_page, effective_offset};
use crate::rows::{FeedbackKey, FeedbackKeyView, PageRow, PageView, TagRow, TagView};
use crate::spans;
use crate::spans::{Segments, SegmentsView};
use crate::store;
use crate::store::{Store, StoreView};
use crate::table;
use crate::table::{copy_ids, same_ids, Record, Table, Triple, TripleView};
use crate::text;
use crate::text::{
    any_control, copy_opt, copy_texts, decimal_text, has_char, has_text, join2, join3, join5,
    natural_text, owned, same_opt, same_text, same_texts, trim,
};
use vstd::prelude::*;

verus! {

// ---------------------------------------------------------------------------
// Checks
// ---------------------------------------------------------------------------

/// One safe segment of a file name.
pub open spec fn is_segment(s: Seq<char>) -> bool {
    &&& !text::is_blank(s)
    &&& s == text::trimmed(s)
    &&& s != "."@
    &&& s != ".."@
    &&& !s.contains('/')
    &&& !s.contains('\\')
    &&& !text::has_control(s)
}

/// Whether a text is one safe segment of a file name.
pub fn safe_segment(s: &str) -> (r: bool)
    ensures
        r == is_segment(s@),
{
    !text::blank(s) && same_text(s, trim(s).as_str()) && !same_text(s, ".") && !same_text(s, "..")
        && !has_char(s, '/') && !has_char(s, '\\') && !any_control(s)
}

/// Checks the slug of a page.
pub fn validate_page_slug(slug: &str) -> (r: Result<(), AppError>)
    ensures
        if is_segment(slug@) {
            r is Ok
        } else {
            r matches Err(e) && e@ == error::app_error(
                ErrorCode::InvalidSlug,
                "slug must be one safe filename segment"@,
            )
        },
{
    if safe_segment(slug) {
        Ok(())
    } else {
        Err(AppError::new(ErrorCode::InvalidSlug, "slug must be one safe filename segment"))
    }
}

/// The members of a list of identifiers, in ascending order.
pub open spec fn distinct(ids: Seq<i64>) -> Seq<i64> {
    table::ordered::<i64>(ids.to_set())
}

/// The members of a list of identifiers, in ascending order.
pub fn dedupe_i64(values: &Vec<i64>) -> (r: Vec<i64>)
    ensures
        r@ == distinct(values@),
        r@.to_set() == values@.to_set(),
        table::in_order::<i64>(r@),
{
    let mut known: Table<i64, bool> = Table::new();
    let mut i: usize = 0;
    while i < values.len()
        invariant
            i <= values@.len(),
            known@.dom() == values@.take(i as int).to_set(),
        decreases values@.len() - i,
    {
        known.put(values[i], true);
        proof {
            assert(values@.take(i + 1) =~= values@.take(i as int).push(values@[i as int]));
            values@.take(i as int).lemma_push_to_set_commute(values@[i as int]);
        }
        i += 1;
    }
    assert(values@.take(i as int) =~= values@);
    let n = known.len();
    let ghost keys = known.keys();
    proof {
        table::lemma_ordered_is::<i64>(keys, values@.to_set());
    }
    let mut out: Vec<i64> = Vec::new();
    let mut k: usize = 0;
    while k < n
        invariant
            k <= n == keys.len(),
            keys == known.keys(),
            out@ == keys.take(k as int),
        decreases n - k,
    {
        out.push(*known.key_at(k));
        assert(keys.take(k + 1) =~= keys.take(k as int).push(keys[k as int]));
        k += 1;
    }
    assert(keys.take(n as int) =~= keys);
    out
}

/// The provenance that a page can state of itself.
pub open spec fn is_explicit(s: Seq<char>) -> bool {
    s == "user-provided"@ || s == "agent-observed"@ || s == "hypothesis"@
}

/// A text in quotes, as a message shows it.
pub uninterp spec fn quoted(s: Seq<char>) -> Seq<char>;

/// `Debug` of `str`: the text in double quotes with its special characters escaped,
/// which is a function of the text.
#[verifier::external_body]
pub(crate) fn quote(s: &str) -> (r: String)
    ensures
        r@ == quoted(s@),
{
    format!("{s:?}")
}

/// What is wrong with a list of provenance: its first member that is not known.
pub open spec fn provenance_error(value: Seq<char>) -> AppErrorView {
    error::app_error(
        ErrorCode::InvalidProvenance,
        "unsupported provenance "@ + quoted(value)
            + "; use user-provided, agent-observed, or hypothesis"@,
    )
}

/// The first of a list that is no explicit provenance.
pub open spec fn first_unknown(values: Seq<Seq<char>>) -> Option<Seq<char>>
    decreases values.len(),
{
    if values.len() == 0 {
        None
    } else if !is_explicit(values[0]) {
        Some(values[0])
    } else {
        first_unknown(values.drop_first())
    }
}

/// The explicit provenance of a page, in ascending order.
pub open spec fn explicit_provenance(values: Seq<Seq<char>>) -> Result<
    Seq<Seq<char>>,
    AppErrorView,
> {
    let ordered = text::sorted(values.to_set());
    match first_unknown(ordered) {
        Some(value) => Err(provenance_error(value)),
        None => Ok(ordered),
    }
}

/// The explicit provenance of a page, in ascending order.
pub fn normalize_explicit_provenance(values: &Vec<String>) -> (r: Result<Vec<String>, AppError>)
    ensures
        match explicit_provenance(text::views(values@)) {
            Ok(list) => (r matches Ok(got) && text::views(got@) == list && text::ascending(list)),
            Err(e) => r matches Err(got) && got@ == e,
        },
{
    let ordered = text::sorted_texts(values);
    let ghost all = text::views(ordered@);
    let mut i: usize = 0;
    assert(all.skip(0) =~= all);
    while i < ordered.len()
        invariant
            i <= ordered@.len() == all.len(),
            all == text::views(ordered@),
            first_unknown(all) == first_unknown(all.skip(i as int)),
        decreases ordered@.len() - i,
    {
        let value = ordered[i].as_str();
        assert(all.skip(i as int)[0] == value@);
        assert(all.skip(i as int).drop_first() =~= all.skip(i + 1));
        if !same_text(value, "user-provided") && !same_text(value, "agent-observed")
            && !same_text(value, "hypothesis") {
            return Err(
                AppError::new(
                    ErrorCode::InvalidProvenance,
                    join3(
                        "unsupported provenance ",
                        quote(value).as_str(),
                        "; use user-provided, agent-observed, or hypothesis",
                    ).as_str(),
                ),
            );
        }
        i += 1;
    }
    Ok(ordered)
}

/// A provenance that is listed where it is stated.
pub open spec fn where_stated(explicit: Seq<Seq<char>>, value: Seq<char>) -> Seq<Seq<char>> {
    if explicit.contains(value) {
        seq![value]
    } else {
        Seq::empty()
    }
}

/// The provenance of a page as it is shown: whether it cites sources, then what it
/// states of itself, in a fixed order.
pub open spec fn shown_provenance(cites: bool, explicit: Seq<Seq<char>>) -> Seq<Seq<char>> {
    (if cites {
        seq!["source-grounded"@]
    } else {
        Seq::empty()
    }) + where_stated(explicit, "user-provided"@) + where_stated(explicit, "agent-observed"@)
        + where_stated(explicit, "hypothesis"@)
}

/// The provenance of a page as it is shown.
pub fn provenance_from_parts(cites: bool, explicit: &Vec<String>) -> (r: Vec<String>)
    ensures
        text::views(r@) == shown_provenance(cites, text::views(explicit@)),
{
    let mut out: Vec<String> = Vec::new();
    if cites {
        out.push(owned("source-grounded"));
    }
    if has_text(explicit, "user-provided") {
        out.push(owned("user-provided"));
    }
    if has_text(explicit, "agent-observed") {
        out.push(owned("agent-observed"));
    }
    if has_text(explicit, "hypothesis") {
        out.push(owned("hypothesis"));
    }
    assert(text::views(out@) =~= shown_provenance(cites, text::views(explicit@)));
    out
}

// ---------------------------------------------------------------------------
// Fingerprints
// ---------------------------------------------------------------------------

/// A list of texts as JSON.
pub open spec fn texts_json(list: Seq<Seq<char>>) -> JsonView {
    JsonView::Array(list.map_values(|s: Seq<char>| JsonView::Text(s)))
}

/// A list of identifiers as JSON.
pub open spec fn ids_json(list: Seq<i64>) -> JsonView {
    JsonView::Array(list.map_values(|id: i64| JsonView::Int(id as int)))
}

/// What the fingerprint of a page covers.
pub open spec fn page_json(page: PageView) -> JsonView {
    JsonView::Object(
        seq![
            json::entry("body"@, JsonView::Text(page.body)),
            json::entry("kind"@, spans::optional_text_json(page.kind)),
            json::entry("links"@, texts_json(page.links)),
            json::entry("provenance"@, texts_json(page.provenance)),
            json::entry("source_ids"@, ids_json(page.source_ids)),
            json::entry("structural_navigation"@, JsonView::Bool(page.structural_navigation)),
            json::entry("summary"@, spans::optional_text_json(page.summary)),
            json::entry("title"@, JsonView::Text(page.title)),
        ],
    )
}

/// The fingerprint of the content of a page. Neither timestamp is part of it.
pub open spec fn page_mark(page: PageView) -> Seq<char> {
    digest::text_digest(json::canonical_text(page_json(page)))
}

/// The fingerprint of a version of a page.
pub open spec fn version_mark(page: PageView) -> Seq<char> {
    digest::text_digest(page_mark(page) + "\0"@ + page.updated_at)
}

/// A list of texts as JSON.
pub fn encode_texts(list: &Vec<String>) -> (r: Json)
    ensures
        r@ == texts_json(text::views(list@)),
{
    let mut items: Vec<Json> = Vec::new();
    let mut i: usize = 0;
    while i < list.len()
        invariant
            i <= list@.len(),
            items@.len() == i,
            forall|j: int| 0 <= j < i ==> (#[trigger] items@[j])@ == JsonView::Text(list@[j]@),
        decreases list@.len() - i,
    {
        items.push(Json::text(list[i].as_str()));
        i += 1;
    }
    proof {
        json::lemma_array_view(items);
        assert(text::views(items@) =~= texts_json(text::views(list@))->Array_0);
    }
    Json::Array(items)
}

/// A list of identifiers as JSON.
pub fn encode_ids(list: &Vec<i64>) -> (r: Json)
    ensures
        r@ == ids_json(list@),
{
    let mut items: Vec<Json> = Vec::new();
    let mut i: usize = 0;
    while i < list.len()
        invariant
            i <= list@.len(),
            items@.len() == i,
            forall|j: int| 0 <= j < i ==> (#[trigger] items@[j])@ == JsonView::Int(list@[j] as int),
        decreases list@.len() - i,
    {
        items.push(Json::Int(list[i]));
        i += 1;
    }
    proof {
        json::lemma_array_view(items);
        assert(text::views(items@) =~= ids_json(list@)->Array_0);
    }
    Json::Array(items)
}

/// A text that may be absent, as JSON.
pub fn encode_optional(value: &Option<String>) -> (r: Json)
    ensures
        r@ == spans::optional_text_json(text::opt_text(*value)),
{
    match value {
        Some(said) => Json::text(said.as_str()),
        None => Json::Null,
    }
}

/// The fingerprint of the content of a page.
pub fn page_content_fingerprint(page: &PageRow) -> (r: String)
    ensures
        r@ == page_mark(page@),
{
    let mut entries: Vec<(String, Json)> = Vec::new();
    entries.push((owned("body"), Json::text(page.body.as_str())));
    entries.push((owned("kind"), encode_optional(&page.kind)));
    entries.push((owned("links"), encode_texts(&page.links)));
    entries.push((owned("provenance"), encode_texts(&page.provenance)));
    entries.push((owned("source_ids"), encode_ids(&page.source_ids)));
    entries.push((owned("structural_navigation"), Json::Bool(page.structural_navigation)));
    entries.push((owned("summary"), encode_optional(&page.summary)));
    entries.push((owned("title"), Json::text(page.title.as_str())));
    assert(json::entry_views(entries@) =~= page_json(page@)->Object_0);
    let whole = Json::object(entries);
    hash_content(canonical_sync_value(&whole).as_str())
}

// ---------------------------------------------------------------------------
// What is shown of a page
// ---------------------------------------------------------------------------

/// A page as a list shows it.
pub struct PageSummary {
    pub slug: String,
    pub title: String,
    pub kind: Option<String>,
    pub summary: Option<String>,
    pub provenance: Vec<String>,
    pub updated_at: String,
}

#[verifier::ext_equal]
pub struct PageSummaryView {
    pub slug: Seq<char>,
    pub title: Seq<char>,
    pub kind: Option<Seq<char>>,
    pub summary: Option<Seq<char>>,
    pub provenance: Seq<Seq<char>>,
    pub updated_at: Seq<char>,
}

impl View for PageSummary {
    type V = PageSummaryView;

    open spec fn view(&self) -> PageSummaryView {
        PageSummaryView {
            slug: self.slug@,
            title: self.title@,
            kind: text::opt_text(self.kind),
            summary: text::opt_text(self.summary),
            provenance: text::views(self.provenance@),
            updated_at: self.updated_at@,
        }
    }
}

impl Record for PageSummary {
    fn duplicate(&self) -> (r: Self) {
        PageSummary {
            slug: owned(self.slug.as_str()),
            title: owned(self.title.as_str()),
            kind: copy_opt(&self.kind),
            summary: copy_opt(&self.summary),
            provenance: copy_texts(&self.provenance),
            updated_at: owned(self.updated_at.as_str()),
        }
    }

    fn same(&self, other: &Self) -> (r: bool) {
        same_text(self.slug.as_str(), other.slug.as_str())
            && same_text(self.title.as_str(), other.title.as_str())
            && same_opt(&self.kind, &other.kind)
            && same_opt(&self.summary, &other.summary)
            && same_texts(&self.provenance, &other.provenance)
            && same_text(self.updated_at.as_str(), other.updated_at.as_str())
    }
}


/// A page with its body.
pub struct PageRecord {
    pub slug: String,
    pub title: String,
    pub kind: Option<String>,
    pub summary: Option<String>,
    pub body: String,
    pub source_ids: Vec<i64>,
    pub provenance: Vec<String>,
    pub links: Vec<String>,
    pub created_at: String,
    pub updated_at: String,
}

#[verifier::ext_equal]
pub struct PageRecordView {
    pub slug: Seq<char>,
    pub title: Seq<char>,
    pub kind: Option<Seq<char>>,
    pub summary: Option<Seq<char>>,
    pub body: Seq<char>,
    pub source_ids: Seq<i64>,
    pub provenance: Seq<Seq<char>>,
    pub links: Seq<Seq<char>>,
    pub created_at: Seq<char>,
    pub updated_at: Seq<char>,
}

impl View for PageRecord {
    type V = PageRecordView;

    open spec fn view(&self) -> PageRecordView {
        PageRecordView {
            slug: self.slug@,
            title: self.title@,
            kind: text::opt_text(self.kind),
            summary: text::opt_text(self.summary),
            body: self.body@,
            source_ids: self.source_ids@,
            provenance: text::views(self.provenance@),
            links: text::views(self.links@),
            created_at: self.created_at@,
            updated_at: self.updated_at@,
        }
    }
}

impl Record for PageRecord {
    fn duplicate(&self) -> (r: Self) {
        PageRecord {
            slug: owned(self.slug.as_str()),
            title: owned(self.title.as_str()),
            kind: copy_opt(&self.kind),
            summary: copy_opt(&self.summary),
            body: owned(self.body.as_str()),
            source_ids: copy_ids(&self.source_ids),
            provenance: copy_texts(&self.provenance),
            links: copy_texts(&self.links),
            created_at: owned(self.created_at.as_str()),
            updated_at: owned(self.updated_at.as_str()),
        }
    }

    fn same(&self, other: &Self) -> (r: bool) {
        same_text(self.slug.as_str(), other.slug.as_str())
            && same_text(self.title.as_str(), other.title.as_str())
            && same_opt(&self.kind, &other.kind)
            && same_opt(&self.summary, &other.summary)
            && same_text(self.body.as_str(), other.body.as_str())
            && same_ids(&self.source_ids, &other.source_ids)
            && same_texts(&self.provenance, &other.provenance)
            && same_texts(&self.links, &other.links)
            && same_text(self.created_at.as_str(), other.created_at.as_str())
            && same_text(self.updated_at.as_str(), other.updated_at.as_str())
    }
}


/// A page as a list shows it.
pub open spec fn summary_of(slug: Seq<char>, page: PageView) -> PageSummaryView {
    PageSummaryView {
        slug,
        title: page.title,
        kind: page.kind,
        summary: page.summary,
        provenance: shown_provenance(page.source_ids.len() > 0, page.provenance),
        updated_at: page.updated_at,
    }
}

/// A page as it is shown.
pub open spec fn record_of(slug: Seq<char>, page: PageView) -> PageRecordView {
    PageRecordView {
        slug,
        title: page.title,
        kind: page.kind,
        summary: page.summary,
        body: page.body,
        source_ids: page.source_ids,
        provenance: shown_provenance(page.source_ids.len() > 0, page.provenance),
        links: page.links,
        created_at: page.created_at,
        updated_at: page.updated_at,
    }
}

/// The pages of a store as a list shows them, by slug.
pub open spec fn summaries(store: StoreView) -> Seq<PageSummaryView> {
    table::ordered::<String>(store.pages.dom()).map_values(
        |slug: Seq<char>| summary_of(slug, store.pages[slug]),
    )
}

/// The error for a page that is not there.
pub open spec fn page_missing(slug: Seq<char>) -> AppErrorView {
    error::app_error(ErrorCode::PageNotFound, "page not found: "@ + slug)
}

/// A page as it is shown, where it is there.
pub open spec fn shown_page(store: StoreView, slug: Seq<char>) -> Result<
    PageRecordView,
    AppErrorView,
> {
    if store.pages.dom().contains(slug) {
        Ok(record_of(slug, store.pages[slug]))
    } else {
        Err(page_missing(slug))
    }
}

/// A page as a list shows it.
pub fn show_summary(slug: &str, page: &PageRow) -> (r: PageSummary)
    ensures
        r@ == summary_of(slug@, page@),
{
    PageSummary {
        slug: owned(slug),
        title: owned(page.title.as_str()),
        kind: copy_opt(&page.kind),
        summary: copy_opt(&page.summary),
        provenance: provenance_from_parts(page.source_ids.len() > 0, &page.provenance),
        updated_at: owned(page.updated_at.as_str()),
    }
}

/// A page of the list of pages.
pub struct PageListResponse {
    pub scope: String,
    pub database: String,
    pub pages: Vec<PageSummary>,
    pub limit: usize,
    pub offset: usize,
    pub has_more: bool,
}

/// A page, and the store that it comes from.
pub struct PageShowResponse {
    pub scope: String,
    pub database: String,
    pub page: PageRecord,
}

/// The links from and to a page.
pub struct PageLinksResponse {
    pub scope: String,
    pub database: String,
    pub page: String,
    pub outgoing: Vec<String>,
    pub backlinks: Vec<String>,
    pub missing: Vec<String>,
}

/// The pages that link to a page, by slug.
pub open spec fn linking(store: StoreView, slug: Seq<char>) -> Set<Seq<char>> {
    Set::new(
        |from: Seq<char>| store.pages.dom().contains(from) && store.pages[from].links.contains(slug),
    )
}

/// The pages among a list that are not there.
pub open spec fn absent_among(store: StoreView, list: Seq<Seq<char>>) -> Seq<Seq<char>>
    decreases list.len(),
{
    if list.len() == 0 {
        Seq::empty()
    } else {
        let head = absent_among(store, list.drop_last());
        if store.pages.dom().contains(list.last()) {
            head
        } else {
            head.push(list.last())
        }
    }
}

impl Store {
    /// The pages of the store as a list shows them.
    pub fn list_summaries(&self) -> (r: Vec<PageSummary>)
        ensures
            text::views(r@) == summaries(self@),
            r@.len() == self@.pages.dom().len(),
    {
        let n = self.pages.len();
        let ghost keys = self.pages.keys();
        proof {
            table::lemma_ordered_is::<String>(keys, self@.pages.dom());
        }
        let mut out: Vec<PageSummary> = Vec::new();
        let mut i: usize = 0;
        while i < n
            invariant
                i <= n == keys.len(),
                keys == self.pages.keys(),
                out@.len() == i,
                forall|j: int|
                    0 <= j < i ==> (#[trigger] out@[j])@ == summary_of(
                        keys[j],
                        self@.pages[keys[j]],
                    ),
            decreases n - i,
        {
            out.push(show_summary(self.pages.key_at(i).as_str(), self.pages.value_at(i)));
            i += 1;
        }
        assert(text::views(out@) =~= summaries(self@));
        out
    }

    /// A page of the list of pages.
    pub fn page_list(&self, limit: usize, offset: usize) -> (r: PageListResponse)
        ensures
            r.scope@ == self@.scope,
            r.database@ == self@.database,
            text::views(r.pages@) == paging::page_of(
                summaries(self@),
                paging::query_offset(offset),
                limit as nat,
            ),
            r.limit == limit,
            r.offset == offset,
            r.has_more == (paging::query_offset(offset) + limit < summaries(self@).len()),
    {
        let all = self.list_summaries();
        let from = effective_offset(offset);
        assert(summaries(self@).len() == all@.len());
        let has_more = from < all.len() && limit < all.len() - from;
        PageListResponse {
            scope: owned(self.scope.as_str()),
            database: owned(self.database.as_str()),
            pages: copy_page(&all, from, limit),
            limit,
            offset,
            has_more,
        }
    }

    /// A page as it is shown.
    pub fn load_page(&self, slug: &str) -> (r: Result<PageRecord, AppError>)
        ensures
            error::outcome(r) == shown_page(self@, slug@),
    {
        match self.pages.get(&owned(slug)) {
            Some(page) => Ok(
                PageRecord {
                    slug: owned(slug),
                    title: owned(page.title.as_str()),
                    kind: copy_opt(&page.kind),
                    summary: copy_opt(&page.summary),
                    body: owned(page.body.as_str()),
                    source_ids: copy_ids(&page.source_ids),
                    provenance: provenance_from_parts(
                        page.source_ids.len() > 0,
                        &page.provenance,
                    ),
                    links: copy_texts(&page.links),
                    created_at: owned(page.created_at.as_str()),
                    updated_at: owned(page.updated_at.as_str()),
                },
            ),
            None => Err(
                AppError::new(
                    ErrorCode::PageNotFound,
                    join2("page not found: ", slug).as_str(),
                ),
            ),
        }
    }

    /// A page with its body.
    pub fn page_show(&self, slug: &str) -> (r: Result<PageShowResponse, AppError>)
        ensures
            match shown_page(self@, slug@) {
                Ok(page) => {
                    &&& r matches Ok(got)
                    &&& got.page@ == page
                    &&& got.scope@ == self@.scope
                    &&& got.database@ == self@.database
                },
                Err(e) => r matches Err(got) && got@ == e,
            },
    {
        match self.load_page(slug) {
            Ok(page) => Ok(
                PageShowResponse {
                    scope: owned(self.scope.as_str()),
                    database: owned(self.database.as_str()),
                    page,
                },
            ),
            Err(e) => Err(e),
        }
    }

    /// The pages that link to a page, by slug.
    pub fn backlinks(&self, slug: &str) -> (r: Vec<String>)
        ensures
            text::views(r@) == text::sorted(linking(self@, slug@)),
            text::ascending(text::views(r@)),
            text::views(r@).to_set() == linking(self@, slug@),
    {
        let n = self.pages.len();
        let ghost keys = self.pages.keys();
        let ghost goal = linking(self@, slug@);
        let mut out: Vec<String> = Vec::new();
        let mut i: usize = 0;
        while i < n
            invariant
                i <= n == keys.len(),
                keys == self.pages.keys(),
                text::ascending(text::views(out@)),
                forall|t: Seq<char>| #[trigger]
                    text::views(out@).to_set().contains(t) == (keys.take(i as int).contains(t)
                        && goal.contains(t)),
            decreases n - i,
        {
            let from = self.pages.key_at(i);
            let page = self.pages.value_at(i);
            if has_text(&page.links, slug) {
                text::add_text(&mut out, from.as_str());
            }
            proof {
                table::lemma_take_more(keys, i as int);
            }
            i += 1;
        }
        proof {
            assert(keys.take(n as int) =~= keys);
            assert forall|t: Seq<char>| text::views(out@).to_set().contains(t) == goal.contains(
                t,
            ) by {
                assert(keys.to_set().contains(t) == self@.pages.dom().contains(t));
            }
            assert(text::views(out@).to_set() =~= goal);
            text::lemma_sorted_is(text::views(out@));
        }
        out
    }

    /// The links from and to a page.
    pub fn page_links(&self, slug: &str) -> (r: Result<PageLinksResponse, AppError>)
        ensures
            if !self@.pages.dom().contains(slug@) {
                r matches Err(e) && e@ == page_missing(slug@)
            } else {
                &&& r matches Ok(got)
                &&& got.scope@ == self@.scope
                &&& got.database@ == self@.database
                &&& got.page@ == slug@
                &&& text::views(got.outgoing@) == self@.pages[slug@].links
                &&& text::views(got.backlinks@) == text::sorted(linking(self@, slug@))
                &&& text::views(got.missing@) == absent_among(self@, self@.pages[slug@].links)
            },
    {
        let page = match self.pages.get(&owned(slug)) {
            Some(page) => page,
            None => {
                return Err(
                    AppError::new(
                        ErrorCode::PageNotFound,
                        join2("page not found: ", slug).as_str(),
                    ),
                );
            },
        };
        let ghost links = text::views(page.links@);
        let mut missing: Vec<String> = Vec::new();
        assert(text::views(missing@) =~= Seq::empty());
        let mut i: usize = 0;
        while i < page.links.len()
            invariant
                i <= page.links@.len() == links.len(),
                links == text::views(page.links@),
                text::views(missing@) == absent_among(self@, links.take(i as int)),
            decreases page.links@.len() - i,
        {
            assert(links.take(i + 1).drop_last() =~= links.take(i as int));
            assert(links.take(i + 1).last() == page.links@[i as int]@);
            if !self.pages.has(&page.links[i]) {
                let gone = owned(page.links[i].as_str());
                proof {
                    text::lemma_views_push(missing@, gone);
                }
                missing.push(gone);
            }
            i += 1;
        }
        assert(links.take(i as int) =~= links);
        Ok(
            PageLinksResponse {
                scope: owned(self.scope.as_str()),
                database: owned(self.database.as_str()),
                page: owned(slug),
                outgoing: copy_texts(&page.links),
                backlinks: self.backlinks(slug),
                missing,
            },
        )
    }

    /// The fingerprint of the content of a page, where it is there.
    pub fn page_mutation_fingerprint(&self, slug: &str) -> (r: Option<String>)
        ensures
            text::opt_text(r) == content_mark(self@, slug@),
    {
        match self.pages.get(&owned(slug)) {
            Some(page) => Some(page_content_fingerprint(page)),
            None => None,
        }
    }

    /// The fingerprint of the version of a page, where it is there.
    pub fn page_version(&self, slug: &str) -> (r: Option<String>)
        ensures
            text::opt_text(r) == page_version_mark(self@, slug@),
    {
        match self.pages.get(&owned(slug)) {
            Some(page) => {
                let mark = page_content_fingerprint(page);
                let whole = join3(mark.as_str(), "\0", page.updated_at.as_str());
                Some(hash_content(whole.as_str()))
            },
            None => None,
        }
    }
}

/// The fingerprint of the content of a page, where it is there.
pub open spec fn content_mark(store: StoreView, slug: Seq<char>) -> Option<Seq<char>> {
    if store.pages.dom().contains(slug) {
        Some(page_mark(store.pages[slug]))
    } else {
        None
    }
}

/// The fingerprint of the version of a page, where it is there.
pub open spec fn page_version_mark(store: StoreView, slug: Seq<char>) -> Option<Seq<char>> {
    if store.pages.dom().contains(slug) {
        Some(version_mark(store.pages[slug]))
    } else {
        None
    }
}

// ---------------------------------------------------------------------------
// Writing pages
// ---------------------------------------------------------------------------

/// A page to be written.
pub struct PagePutInput {
    pub slug: String,
    pub title: String,
    pub kind: Option<String>,
    pub summary: Option<String>,
    pub body: String,
    pub source_ids: Vec<i64>,
    pub provenance: Vec<String>,
}

#[verifier::ext_equal]
pub struct PagePutView {
    pub slug: Seq<char>,
    pub title: Seq<char>,
    pub kind: Option<Seq<char>>,
    pub summary: Option<Seq<char>>,
    pub body: Seq<char>,
    pub source_ids: Seq<i64>,
    pub provenance: Seq<Seq<char>>,
}

impl View for PagePutInput {
    type V = PagePutView;

    open spec fn view(&self) -> PagePutView {
        PagePutView {
            slug: self.slug@,
            title: self.title@,
            kind: text::opt_text(self.kind),
            summary: text::opt_text(self.summary),
            body: self.body@,
            source_ids: self.source_ids@,
            provenance: text::views(self.provenance@),
        }
    }
}

impl Record for PagePutInput {
    fn duplicate(&self) -> (r: Self) {
        PagePutInput {
            slug: owned(self.slug.as_str()),
            title: owned(self.title.as_str()),
            kind: copy_opt(&self.kind),
            summary: copy_opt(&self.summary),
            body: owned(self.body.as_str()),
            source_ids: copy_ids(&self.source_ids),
            provenance: copy_texts(&self.provenance),
        }
    }

    fn same(&self, other: &Self) -> (r: bool) {
        same_text(self.slug.as_str(), other.slug.as_str())
            && same_text(self.title.as_str(), other.title.as_str())
            && same_opt(&self.kind, &other.kind)
            && same_opt(&self.summary, &other.summary)
            && same_text(self.body.as_str(), other.body.as_str())
            && same_ids(&self.source_ids, &other.source_ids)
            && same_texts(&self.provenance, &other.provenance)
    }
}


/// The page that an input asks for.
pub open spec fn wanted_page(
    store: StoreView,
    input: PagePutView,
    provenance: Seq<Seq<char>>,
    now: Seq<char>,
) -> PageView {
    PageView {
        title: input.title,
        kind: input.kind,
        summary: input.summary,
        body: input.body,
        structural_navigation: markdown::is_navigation(input.body),
        source_ids: distinct(input.source_ids),
        provenance,
        links: markdown::page_links(input.body),
        created_at: if store.pages.dom().contains(input.slug) {
            store.pages[input.slug].created_at
        } else {
            now
        },
        updated_at: now,
    }
}

/// The error for a source that is not there.
pub open spec fn source_missing(id: i64) -> AppErrorView {
    error::app_error(ErrorCode::SourceNotFound, "source not found: "@ + text::decimal(id as int))
}

/// The first of a list of sources that is not there.
pub open spec fn first_missing(store: StoreView, ids: Seq<i64>) -> Option<i64>
    decreases ids.len(),
{
    if ids.len() == 0 {
        None
    } else if !store.sources.dom().contains(ids[0]) {
        Some(ids[0])
    } else {
        first_missing(store, ids.drop_first())
    }
}

/// A span of a page that is switched off.
pub open spec fn is_stale_end(store: StoreView, slug: Seq<char>, id: Seq<char>) -> bool {
    &&& store.spans.dom().contains(id)
    &&& store.spans[id].document_type == "page"@
    &&& store.spans[id].document_identifier == slug
    &&& !store.spans[id].active
}

/// The relations that lead from or to a span of a page that is switched off.
pub open spec fn stale_relations(store: StoreView, slug: Seq<char>) -> Set<Seq<char>> {
    Set::new(
        |id: Seq<char>|
            store.relations.dom().contains(id) && (is_stale_end(
                store,
                slug,
                store.relations[id].from_identifier,
            ) || is_stale_end(store, slug, store.relations[id].to_identifier)),
    )
}

/// The store with the page in it, its spans indexed anew, and without the
/// relations that this left behind.
pub open spec fn page_written(
    store: StoreView,
    segments: SegmentsView,
    slug: Seq<char>,
    page: PageView,
) -> Result<StoreView, AppErrorView> {
    match spans::indexed(
        StoreView { pages: store.pages.insert(slug, page), ..store },
        segments,
        "page"@,
        slug,
        page.body,
    ) {
        Err(e) => Err(e),
        Ok(next) => Ok(
            StoreView { relations: next.relations.remove_keys(stale_relations(next, slug)), ..next },
        ),
    }
}

/// How many relations the writing of a page leaves behind.
pub open spec fn invalidated_by(
    store: StoreView,
    segments: SegmentsView,
    slug: Seq<char>,
    page: PageView,
) -> nat {
    match spans::indexed(
        StoreView { pages: store.pages.insert(slug, page), ..store },
        segments,
        "page"@,
        slug,
        page.body,
    ) {
        Err(e) => 0,
        Ok(next) => stale_relations(next, slug).len(),
    }
}

/// Writing a page leaves the store as it was: the content is there already.
pub open spec fn is_unchanged(store: StoreView, slug: Seq<char>, page: PageView) -> bool {
    store.pages.dom().contains(slug) && page_mark(store.pages[slug]) == page_mark(page)
}

/// What writing a page comes to. `seen` is the version that the writer had before
/// them.
pub open spec fn page_put_goal(
    store: StoreView,
    segments: SegmentsView,
    input: PagePutView,
    seen: Option<Seq<char>>,
    now: Seq<char>,
    revision: Seq<char>,
) -> Result<StoreView, AppErrorView> {
    if !is_segment(input.slug) {
        error::refused(ErrorCode::InvalidSlug, "slug must be one safe filename segment"@)
    } else {
        match explicit_provenance(input.provenance) {
            Err(e) => Err(e),
            Ok(provenance) => {
                let page = wanted_page(store, input, provenance, now);
                if is_unchanged(store, input.slug, page) {
                    Ok(store)
                } else if page_version_mark(store, input.slug) != seen {
                    Err(
                        error::entity_error(
                            ErrorCode::EntityConflict,
                            "page "@ + input.slug
                                + " changed while the replacement was prepared"@,
                            "page"@,
                            JsonView::Text(input.slug),
                        ),
                    )
                } else {
                    match first_missing(store, page.source_ids) {
                        Some(id) => Err(source_missing(id)),
                        None => match page_written(store, segments, input.slug, page) {
                            Err(e) => Err(e),
                            Ok(next) => store::recorded(
                                next,
                                "page_put"@,
                                input.slug,
                                JsonView::Object(
                                    seq![
                                        json::entry(
                                            "created"@,
                                            JsonView::Bool(!store.pages.dom().contains(input.slug)),
                                        ),
                                    ],
                                ),
                                now,
                                revision,
                            ),
                        },
                    }
                }
            },
        }
    }
}

/// A page that was written.
pub struct PagePutResponse {
    pub page: PageRecord,
    pub created: bool,
    /// Whether anything was written at all.
    pub written: bool,
    pub invalidated_semantic_relations: usize,
}

/// A page that was removed.
pub struct PageRemoveResponse {
    pub scope: String,
    pub database: String,
    pub slug: String,
}

/// The weights that are about a target.
pub open spec fn about_target(target_type: Seq<char>, identifier: Seq<char>) -> Set<TripleView> {
    Set::new(|key: TripleView| key.first == target_type && key.second == identifier)
}

/// The feedback that is about a target.
pub open spec fn feedback_about(target_type: Seq<char>, identifier: Seq<char>) -> Set<
    FeedbackKeyView,
> {
    Set::new(
        |key: FeedbackKeyView| key.target.first == target_type && key.target.second == identifier,
    )
}

/// The store without the weights and the feedback about a target.
pub open spec fn forgotten(
    store: StoreView,
    target_type: Seq<char>,
    identifier: Seq<char>,
) -> StoreView {
    StoreView {
        weights: store.weights.remove_keys(about_target(target_type, identifier)),
        feedback: store.feedback.remove_keys(feedback_about(target_type, identifier)),
        ..store
    }
}

/// The tags without a page.
pub open spec fn untagged(tags: Map<Seq<char>, TagView>, slug: Seq<char>) -> Map<
    Seq<char>,
    TagView,
> {
    tags.map_values(|tag: TagView| TagView { members: tag.members.remove(slug), ..tag })
}

/// The store without a page.
pub open spec fn page_dropped(store: StoreView, slug: Seq<char>) -> StoreView {
    StoreView { pages: store.pages.remove(slug), tags: untagged(store.tags, slug), ..store }
}

/// What removing a page comes to.
pub open spec fn page_remove_goal(
    store: StoreView,
    slug: Seq<char>,
    now: Seq<char>,
    revision: Seq<char>,
) -> Result<StoreView, AppErrorView> {
    let inbound = linking(store, slug).remove(slug);
    if !store.pages.dom().contains(slug) {
        Err(page_missing(slug))
    } else if inbound.len() > 0 {
        error::refused(
            ErrorCode::PageInUse,
            "page "@ + slug + " has "@ + text::natural(inbound.len()) + " inbound Wiki link(s)"@,
        )
    } else {
        let quiet = forgotten(
            StoreView { spans: spans::deactivated(store.spans, "page"@, slug), ..store },
            "page"@,
            slug,
        );
        match store::recorded(
            quiet,
            "page_remove"@,
            slug,
            JsonView::Object(Seq::empty()),
            now,
            revision,
        ) {
            Err(e) => Err(e),
            Ok(next) => Ok(page_dropped(next, slug)),
        }
    }
}

/// The tags without a page.
fn tags_without(tags: &Table<String, TagRow>, slug: &str) -> (r: Table<String, TagRow>)
    ensures
        r@ == untagged(tags@, slug@),
{
    let n = tags.len();
    let ghost keys = tags.keys();
    let ghost goal = untagged(tags@, slug@);
    let key = owned(slug);
    let mut out: Table<String, TagRow> = Table::new();
    let mut i: usize = 0;
    while i < n
        invariant
            i <= n == keys.len(),
            keys == tags.keys(),
            key@ == slug@,
            forall|k: Seq<char>| #[trigger]
                out@.dom().contains(k) == keys.take(i as int).contains(k),
            forall|k: Seq<char>| #[trigger] out@.dom().contains(k) ==> out@[k] == goal[k],
        decreases n - i,
    {
        let name = tags.key_at(i);
        let mut row = tags.value_at(i).duplicate();
        row.members.remove(&key);
        proof {
            table::lemma_take_more(keys, i as int);
            assert(goal.dom().contains(name@));
            assert(row@ =~= goal[name@]);
        }
        out.put(owned(name.as_str()), row);
        i += 1;
    }
    proof {
        assert(keys.take(n as int) =~= keys);
        assert forall|k: Seq<char>| out@.dom().contains(k) == goal.dom().contains(k) by {
            assert(keys.to_set().contains(k) == tags@.dom().contains(k));
        }
        assert(out@ =~= goal);
    }
    out
}

impl Store {
    /// The first of a list of sources that is not there.
    pub fn find_missing(&self, ids: &Vec<i64>) -> (r: Option<i64>)
        ensures
            r == first_missing(self@, ids@),
    {
        let mut i: usize = 0;
        assert(ids@.skip(0) =~= ids@);
        while i < ids.len()
            invariant
                i <= ids@.len(),
                first_missing(self@, ids@) == first_missing(self@, ids@.skip(i as int)),
            decreases ids@.len() - i,
        {
            assert(ids@.skip(i as int)[0] == ids@[i as int]);
            assert(ids@.skip(i as int).drop_first() =~= ids@.skip(i + 1));
            if !self.sources.has(&ids[i]) {
                return Some(ids[i]);
            }
            i += 1;
        }
        None
    }

    /// Checks that sources are there.
    pub fn validate_sources(&self, ids: &Vec<i64>) -> (r: Result<(), AppError>)
        ensures
            match first_missing(self@, ids@) {
                Some(id) => r matches Err(e) && e@ == source_missing(id),
                None => r is Ok,
            },
    {
        match self.find_missing(ids) {
            Some(id) => Err(
                AppError::new(
                    ErrorCode::SourceNotFound,
                    join2("source not found: ", decimal_text(id).as_str()).as_str(),
                ),
            ),
            None => Ok(()),
        }
    }

    /// Removes the relations that lead from or to a span of a page that is switched
    /// off; gives their number.
    pub fn drop_stale_relations(&mut self, slug: &str) -> (r: usize)
        ensures
            final(self)@ == (StoreView {
                relations: old(self)@.relations.remove_keys(stale_relations(old(self)@, slug@)),
                ..old(self)@
            }),
            stale_relations(old(self)@, slug@).finite(),
            r == stale_relations(old(self)@, slug@).len(),
    {
        let n = self.relations.len();
        let ghost keys = self.relations.keys();
        let ghost goal = stale_relations(self@, slug@);
        let mut gone: Vec<String> = Vec::new();
        let mut i: usize = 0;
        while i < n
            invariant
                i <= n == keys.len(),
                keys == self.relations.keys(),
                text::ascending(text::views(gone@)),
                forall|t: Seq<char>| #[trigger]
                    text::views(gone@).to_set().contains(t) == (keys.take(i as int).contains(t)
                        && goal.contains(t)),
            decreases n - i,
        {
            let id = self.relations.key_at(i);
            let relation = self.relations.value_at(i);
            if self.leads_nowhere(slug, &relation.from_identifier) || self.leads_nowhere(
                slug,
                &relation.to_identifier,
            ) {
                text::add_text(&mut gone, id.as_str());
            }
            proof {
                table::lemma_take_more(keys, i as int);
            }
            i += 1;
        }
        proof {
            assert(keys.take(n as int) =~= keys);
            assert forall|t: Seq<char>| text::views(gone@).to_set().contains(t) == goal.contains(
                t,
            ) by {
                assert(keys.to_set().contains(t) == self@.relations.dom().contains(t));
            }
            assert(text::views(gone@).to_set() =~= goal);
            text::lemma_ascending_len(text::views(gone@));
            assert(text::views(gone@).len() == gone@.len());
        }
        self.relations.remove_all(&gone);
        gone.len()
    }

    /// Whether an identifier names a span of a page that is switched off.
    fn leads_nowhere(&self, slug: &str, id: &String) -> (r: bool)
        ensures
            r == is_stale_end(self@, slug@, id@),
    {
        match self.spans.get(id) {
            Some(span) => same_text(span.document_type.as_str(), "page") && same_text(
                span.document_identifier.as_str(),
                slug,
            ) && !span.active,
            None => false,
        }
    }

    /// Puts a page into the store, indexes its spans anew, and removes the relations
    /// that this left behind.
    pub fn write_page(&mut self, segments: &Segments, slug: &str, page: PageRow) -> (r: Result<
        usize,
        AppError,
    >)
        ensures
            match page_written(old(self)@, segments@, slug@, page@) {
                Ok(next) => (r matches Ok(dropped) && dropped == invalidated_by(
                    old(self)@,
                    segments@,
                    slug@,
                    page@,
                )) && final(self)@ == next,
                Err(e) => r matches Err(got) && got@ == e,
            },
    {
        let body = owned(page.body.as_str());
        self.pages.put(owned(slug), page);
        match self.index_spans(segments, "page", slug, body.as_str()) {
            Ok(()) => Ok(self.drop_stale_relations(slug)),
            Err(e) => Err(e),
        }
    }

    /// Writes a page. `seen` is the version that the writer had before them.
    pub fn page_put(
        &mut self,
        segments: &Segments,
        input: PagePutInput,
        seen: &Option<String>,
        now: &str,
        revision: &str,
    ) -> (r: Result<PagePutResponse, AppError>)
        ensures
            store::settled(
                old(self)@,
                final(self)@,
                r,
                page_put_goal(
                    old(self)@,
                    segments@,
                    input@,
                    text::opt_text(*seen),
                    now@,
                    revision@,
                ),
            ),
            r matches Ok(done) ==> {
                &&& shown_page(final(self)@, input@.slug) == Ok::<PageRecordView, AppErrorView>(
                    done.page@,
                )
                &&& done.created == !old(self)@.pages.dom().contains(input@.slug)
                &&& explicit_provenance(input@.provenance) matches Ok(provenance)
                &&& {
                    let page = wanted_page(old(self)@, input@, provenance, now@);
                    &&& done.written == !is_unchanged(old(self)@, input@.slug, page)
                    &&& done.invalidated_semantic_relations == if done.written {
                        invalidated_by(old(self)@, segments@, input@.slug, page)
                    } else {
                        0
                    }
                }
            },
    {
        if let Err(e) = validate_page_slug(input.slug.as_str()) {
            return Err(e);
        }
        let provenance = match normalize_explicit_provenance(&input.provenance) {
            Ok(list) => list,
            Err(e) => {
                return Err(e);
            },
        };
        let source_ids = dedupe_i64(&input.source_ids);
        let links = extract_links(input.body.as_str());
        let known = self.pages.get(&input.slug);
        let created_at = match known {
            Some(page) => owned(page.created_at.as_str()),
            None => owned(now),
        };
        let existed = known.is_some();
        let page = PageRow {
            title: owned(input.title.as_str()),
            kind: copy_opt(&input.kind),
            summary: copy_opt(&input.summary),
            body: owned(input.body.as_str()),
            structural_navigation: has_structural_navigation_marker(input.body.as_str()),
            source_ids,
            provenance,
            links,
            created_at,
            updated_at: owned(now),
        };
        let ghost goal = wanted_page(self@, input@, page@.provenance, now@);
        assert(page@ == goal);
        if let Some(current) = self.page_mutation_fingerprint(input.slug.as_str()) {
            if same_text(current.as_str(), page_content_fingerprint(&page).as_str()) {
                let shown = match self.load_page(input.slug.as_str()) {
                    Ok(shown) => shown,
                    Err(e) => {
                        assert(false);
                        return Err(e);
                    },
                };
                return Ok(
                    PagePutResponse {
                        page: shown,
                        created: false,
                        written: false,
                        invalidated_semantic_relations: 0,
                    },
                );
            }
        }
        let version = self.page_version(input.slug.as_str());
        if !same_opt(&version, seen) {
            return Err(
                AppError::about(
                    ErrorCode::EntityConflict,
                    join3(
                        "page ",
                        input.slug.as_str(),
                        " changed while the replacement was prepared",
                    ).as_str(),
                    "page",
                    Json::text(input.slug.as_str()),
                ),
            );
        }
        if let Err(e) = self.validate_sources(&page.source_ids) {
            return Err(e);
        }
        let mut next = self.duplicate();
        let dropped = match next.write_page(segments, input.slug.as_str(), page) {
            Ok(dropped) => dropped,
            Err(e) => {
                return Err(e);
            },
        };
        let detail = Json::object1("created", Json::Bool(!existed));
        if let Err(e) = next.record_operation(
            "page_put",
            input.slug.as_str(),
            detail,
            now,
            revision,
        ) {
            return Err(e);
        }
        *self = next;
        let shown = match self.load_page(input.slug.as_str()) {
            Ok(shown) => shown,
            Err(e) => {
                assert(false);
                return Err(e);
            },
        };
        Ok(
            PagePutResponse {
                page: shown,
                created: !existed,
                written: true,
                invalidated_semantic_relations: dropped,
            },
        )
    }

    /// Removes the weights and the feedback about a target.
    pub fn forget_target(&mut self, target_type: &str, identifier: &str)
        ensures
            final(self)@ == forgotten(old(self)@, target_type@, identifier@),
    {
        let n = self.weights.len();
        let ghost keys = self.weights.keys();
        let ghost goal = about_target(target_type@, identifier@);
        let mut gone: Vec<Triple> = Vec::new();
        let mut i: usize = 0;
        while i < n
            invariant
                i <= n == keys.len(),
                keys == self.weights.keys(),
                forall|k: TripleView| #[trigger]
                    text::views(gone@).to_set().contains(k) == (keys.take(i as int).contains(k)
                        && goal.contains(k)),
            decreases n - i,
        {
            let key = self.weights.key_at(i);
            proof {
                table::lemma_take_more(keys, i as int);
            }
            if same_text(key.first.as_str(), target_type) && same_text(
                key.second.as_str(),
                identifier,
            ) {
                let again = Triple::new(key.first.as_str(), key.second.as_str(), key.third.as_str());
                proof {
                    text::lemma_views_push(gone@, again);
                    text::views(gone@).lemma_push_to_set_commute(again@);
                }
                gone.push(again);
            }
            i += 1;
        }
        let ghost weights = self@.weights;
        self.weights.remove_all(&gone);
        proof {
            assert(keys.take(n as int) =~= keys);
            assert forall|k: TripleView| weights.dom().contains(k) implies text::views(
                gone@,
            ).to_set().contains(k) == goal.contains(k) by {
                assert(keys.to_set().contains(k));
            }
            assert(self@.weights =~= weights.remove_keys(goal));
        }
        let n = self.feedback.len();
        let ghost keys = self.feedback.keys();
        let ghost goal = feedback_about(target_type@, identifier@);
        let mut gone: Vec<FeedbackKey> = Vec::new();
        let mut i: usize = 0;
        while i < n
            invariant
                i <= n == keys.len(),
                keys == self.feedback.keys(),
                forall|k: FeedbackKeyView| #[trigger]
                    text::views(gone@).to_set().contains(k) == (keys.take(i as int).contains(k)
                        && goal.contains(k)),
            decreases n - i,
        {
            let key = self.feedback.key_at(i);
            proof {
                table::lemma_take_more(keys, i as int);
            }
            if same_text(key.target.first.as_str(), target_type) && same_text(
                key.target.second.as_str(),
                identifier,
            ) {
                let again = FeedbackKey {
                    query: owned(key.query.as_str()),
                    target: Triple::new(
                        key.target.first.as_str(),
                        key.target.second.as_str(),
                        key.target.third.as_str(),
                    ),
                };
                proof {
                    text::lemma_views_push(gone@, again);
                    text::views(gone@).lemma_push_to_set_commute(again@);
                }
                gone.push(again);
            }
            i += 1;
        }
        let ghost feedback = self@.feedback;
        self.feedback.remove_all(&gone);
        proof {
            assert(keys.take(n as int) =~= keys);
            assert forall|k: FeedbackKeyView| feedback.dom().contains(k) implies text::views(
                gone@,
            ).to_set().contains(k) == goal.contains(k) by {
                assert(keys.to_set().contains(k));
            }
            assert(self@.feedback =~= feedback.remove_keys(goal));
        }
    }

    /// Drops a page and its memberships in tags.
    pub fn drop_page(&mut self, slug: &str)
        ensures
            final(self)@ == page_dropped(old(self)@, slug@),
    {
        self.pages.remove(&owned(slug));
        let tags = tags_without(&self.tags, slug);
        self.tags = tags;
    }

    /// Removes a page that no other page links to.
    pub fn page_remove(&mut self, slug: &str, now: &str, revision: &str) -> (r: Result<
        PageRemoveResponse,
        AppError,
    >)
        ensures
            store::settled(
                old(self)@,
                final(self)@,
                r,
                page_remove_goal(old(self)@, slug@, now@, revision@),
            ),
            r matches Ok(done) ==> done.slug@ == slug@ && done.scope@ == old(self)@.scope
                && done.database@ == old(self)@.database,
    {
        if !self.pages.has(&owned(slug)) {
            return Err(
                AppError::new(
                    ErrorCode::PageNotFound,
                    join2("page not found: ", slug).as_str(),
                ),
            );
        }
        let all = self.backlinks(slug);
        let own = has_text(&all, slug);
        proof {
            text::lemma_ascending_len(text::views(all@));
            assert(text::views(all@).len() == all@.len());
            let from = linking(self@, slug@);
            assert(own == from.contains(slug@));
            if !own {
                assert(from.remove(slug@) =~= from);
            }
        }
        let inbound: usize = if own {
            all.len() - 1
        } else {
            all.len()
        };
        if inbound > 0 {
            return Err(
                AppError::new(
                    ErrorCode::PageInUse,
                    join5(
                        "page ",
                        slug,
                        " has ",
                        natural_text(inbound as u128).as_str(),
                        " inbound Wiki link(s)",
                    ).as_str(),
                ),
            );
        }
        let mut next = self.duplicate();
        next.deactivate_search_spans("page", slug);
        next.forget_target("page", slug);
        if let Err(e) = next.record_operation(
            "page_remove",
            slug,
            Json::empty_object(),
            now,
            revision,
        ) {
            return Err(e);
        }
        next.drop_page(slug);
        *self = next;
        Ok(
            PageRemoveResponse {
                scope: owned(self.scope.as_str()),
                database: owned(self.database.as_str()),
                slug: owned(slug),
            },
        )
    }
}

} // verus!
