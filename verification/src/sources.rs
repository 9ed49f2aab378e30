//! Sources: documents that are kept as they came, and the paths at which they were
//! observed.
use crate::digest;
use crate::digest::hash_content;
use crate::error;
use crate::error::{AppError, AppErrorView, ErrorCode};
use crate::json;
use crate::json::{Json, JsonView};
use crate::markdown;
use crate::markdown::has_structural_navigation_marker;
use crate::pages;
use crate::pages::{dedupe_i64, encode_texts, PageSummary, PageSummaryView};
use crate::paging;
use crate::paging::{copy_page, effective_offset};
use crate::rows::{
    IngestRow, IngestView, PathLog, PathRevision, PathRevisionView, SourceRow, SourceView,
};
use crate::spans;
use crate::spans::{Segments, SegmentsView};
use crate::store;
use crate::store::{Store, StoreView};
use crate::table;
use crate::table::{copy_ids, copy_records, same_ids, same_records, Pair, PairView, Record};
use crate::text;
use crate::text::{
    byte_len, copy_opt, decimal_text, join2, join4, join5, natural_text, owned, same_opt, same_text,
};
use vstd::prelude::*;

verus! {

// ---------------------------------------------------------------------------
// What is shown of a source
// ---------------------------------------------------------------------------

/// A source as a list shows it.
pub struct SourceSummary {
    pub id: i64,
    pub title: Option<String>,
    pub origin: String,
    pub content_hash: String,
    pub bytes: usize,
    pub created_at: String,
}

#[verifier::ext_equal]
pub struct SourceSummaryView {
    pub id: i64,
    pub title: Option<Seq<char>>,
    pub origin: Seq<char>,
    pub content_hash: Seq<char>,
    pub bytes: usize,
    pub created_at: Seq<char>,
}

impl View for SourceSummary {
    type V = SourceSummaryView;

    open spec fn view(&self) -> SourceSummaryView {
        SourceSummaryView {
            id: self.id,
            title: text::opt_text(self.title),
            origin: self.origin@,
            content_hash: self.content_hash@,
            bytes: self.bytes,
            created_at: self.created_at@,
        }
    }
}

impl Record for SourceSummary {
    fn duplicate(&self) -> (r: Self) {
        SourceSummary {
            id: self.id,
            title: copy_opt(&self.title),
            origin: owned(self.origin.as_str()),
            content_hash: owned(self.content_hash.as_str()),
            bytes: self.bytes,
            created_at: owned(self.created_at.as_str()),
        }
    }

    fn same(&self, other: &Self) -> (r: bool) {
        self.id == other.id
            && same_opt(&self.title, &other.title)
            && same_text(self.origin.as_str(), other.origin.as_str())
            && same_text(self.content_hash.as_str(), other.content_hash.as_str())
            && self.bytes == other.bytes
            && same_text(self.created_at.as_str(), other.created_at.as_str())
    }
}


/// A source with its content.
pub struct SourceRecord {
    pub id: i64,
    pub title: Option<String>,
    pub origin: String,
    pub content_hash: String,
    pub content: String,
    pub created_at: String,
}

#[verifier::ext_equal]
pub struct SourceRecordView {
    pub id: i64,
    pub title: Option<Seq<char>>,
    pub origin: Seq<char>,
    pub content_hash: Seq<char>,
    pub content: Seq<char>,
    pub created_at: Seq<char>,
}

impl View for SourceRecord {
    type V = SourceRecordView;

    open spec fn view(&self) -> SourceRecordView {
        SourceRecordView {
            id: self.id,
            title: text::opt_text(self.title),
            origin: self.origin@,
            content_hash: self.content_hash@,
            content: self.content@,
            created_at: self.created_at@,
        }
    }
}

impl Record for SourceRecord {
    fn duplicate(&self) -> (r: Self) {
        SourceRecord {
            id: self.id,
            title: copy_opt(&self.title),
            origin: owned(self.origin.as_str()),
            content_hash: owned(self.content_hash.as_str()),
            content: owned(self.content.as_str()),
            created_at: owned(self.created_at.as_str()),
        }
    }

    fn same(&self, other: &Self) -> (r: bool) {
        self.id == other.id
            && same_opt(&self.title, &other.title)
            && same_text(self.origin.as_str(), other.origin.as_str())
            && same_text(self.content_hash.as_str(), other.content_hash.as_str())
            && same_text(self.content.as_str(), other.content.as_str())
            && same_text(self.created_at.as_str(), other.created_at.as_str())
    }
}


/// The part of a source that is shown, in characters.
pub struct SourceWindow {
    pub offset_chars: usize,
    pub returned_chars: usize,
    pub total_chars: usize,
    pub next_offset_chars: Option<usize>,
    pub has_more: bool,
}

#[verifier::ext_equal]
pub struct SourceWindowView {
    pub offset_chars: usize,
    pub returned_chars: usize,
    pub total_chars: usize,
    pub next_offset_chars: Option<usize>,
    pub has_more: bool,
}

impl View for SourceWindow {
    type V = SourceWindowView;

    open spec fn view(&self) -> SourceWindowView {
        SourceWindowView {
            offset_chars: self.offset_chars,
            returned_chars: self.returned_chars,
            total_chars: self.total_chars,
            next_offset_chars: self.next_offset_chars,
            has_more: self.has_more,
        }
    }
}

impl Record for SourceWindow {
    fn duplicate(&self) -> (r: Self) {
        SourceWindow {
            offset_chars: self.offset_chars,
            returned_chars: self.returned_chars,
            total_chars: self.total_chars,
            next_offset_chars: self.next_offset_chars,
            has_more: self.has_more,
        }
    }

    fn same(&self, other: &Self) -> (r: bool) {
        self.offset_chars == other.offset_chars
            && self.returned_chars == other.returned_chars
            && self.total_chars == other.total_chars
            && self.next_offset_chars == other.next_offset_chars
            && self.has_more == other.has_more
    }
}


/// A part of a source.
pub struct WindowedSource {
    pub source: SourceRecord,
    pub window: SourceWindow,
}

#[verifier::ext_equal]
pub struct WindowedView {
    pub source: SourceRecordView,
    pub window: SourceWindowView,
}

impl View for WindowedSource {
    type V = WindowedView;

    open spec fn view(&self) -> WindowedView {
        WindowedView {
            source: self.source@,
            window: self.window@,
        }
    }
}

impl Record for WindowedSource {
    fn duplicate(&self) -> (r: Self) {
        WindowedSource {
            source: self.source.duplicate(),
            window: self.window.duplicate(),
        }
    }

    fn same(&self, other: &Self) -> (r: bool) {
        self.source.same(&other.source)
            && self.window.same(&other.window)
    }
}


/// A source as a list shows it.
pub open spec fn summary_of(id: i64, source: SourceView) -> SourceSummaryView {
    SourceSummaryView {
        id,
        title: source.title,
        origin: source.origin,
        content_hash: source.content_hash,
        bytes: text::byte_count(source.content) as usize,
        created_at: source.created_at,
    }
}

/// A source as it is shown.
pub open spec fn record_of(id: i64, source: SourceView) -> SourceRecordView {
    SourceRecordView {
        id,
        title: source.title,
        origin: source.origin,
        content_hash: source.content_hash,
        content: source.content,
        created_at: source.created_at,
    }
}

/// A source as it is shown, where it is there.
pub open spec fn shown_source(store: StoreView, id: i64) -> Result<
    SourceRecordView,
    AppErrorView,
> {
    if store.sources.dom().contains(id) {
        Ok(record_of(id, store.sources[id]))
    } else {
        Err(pages::source_missing(id))
    }
}

/// A source as a list shows it, where it is there.
pub open spec fn source_summary(store: StoreView, id: i64) -> Result<
    SourceSummaryView,
    AppErrorView,
> {
    if store.sources.dom().contains(id) {
        Ok(summary_of(id, store.sources[id]))
    } else {
        Err(pages::source_missing(id))
    }
}

/// The sources of a store as a list shows them, by identifier.
pub open spec fn summaries(store: StoreView) -> Seq<SourceSummaryView> {
    table::ordered::<i64>(store.sources.dom()).map_values(
        |id: i64| summary_of(id, store.sources[id]),
    )
}

/// How many characters a window shows.
pub open spec fn shown_chars(total: nat, offset: nat, max: Option<usize>) -> nat {
    let left = (total - offset) as nat;
    match max {
        Some(wanted) => if (wanted as nat) < left {
            wanted as nat
        } else {
            left
        },
        None => left,
    }
}

/// The part of a source from `offset`, at most `max` characters long.
pub open spec fn windowed(source: SourceRecordView, offset: usize, max: Option<usize>) -> Result<
    WindowedView,
    AppErrorView,
> {
    let total = source.content.len();
    if max == Some(0usize) {
        error::refused(ErrorCode::InvalidLimit, "max-chars must be greater than zero"@)
    } else if offset > total {
        error::refused(
            ErrorCode::InvalidOffset,
            "offset-chars "@ + text::natural(offset as nat) + " exceeds source length "@
                + text::natural(total),
        )
    } else {
        let count = shown_chars(total, offset as nat, max);
        let end = offset + count;
        Ok(
            WindowedView {
                source: SourceRecordView {
                    content: source.content.subrange(offset as int, end),
                    ..source
                },
                window: SourceWindowView {
                    offset_chars: offset,
                    returned_chars: count as usize,
                    total_chars: total as usize,
                    next_offset_chars: if end < total {
                        Some(end as usize)
                    } else {
                        None
                    },
                    has_more: end < total,
                },
            },
        )
    }
}

/// The part of a source from `offset`, at most `max` characters long.
pub fn window_source(source: SourceRecord, offset: usize, max: Option<usize>) -> (r: Result<
    WindowedSource,
    AppError,
>)
    ensures
        error::outcome(r) == windowed(source@, offset, max),
{
    if let Some(wanted) = max {
        if wanted == 0 {
            return Err(
                AppError::new(ErrorCode::InvalidLimit, "max-chars must be greater than zero"),
            );
        }
    }
    let chars = text::chars_of(source.content.as_str());
    let total: usize = chars.len();
    if offset > total {
        return Err(
            AppError::new(
                ErrorCode::InvalidOffset,
                join4(
                    "offset-chars ",
                    natural_text(offset as u128).as_str(),
                    " exceeds source length ",
                    natural_text(total as u128).as_str(),
                ).as_str(),
            ),
        );
    }
    let left: usize = total - offset;
    let count: usize = match max {
        Some(wanted) => if wanted < left {
            wanted
        } else {
            left
        },
        None => left,
    };
    let end: usize = offset + count;
    let mut shown = source;
    shown.content = text::slice_text(&chars, offset, end);
    Ok(
        WindowedSource {
            source: shown,
            window: SourceWindow {
                offset_chars: offset,
                returned_chars: count,
                total_chars: total,
                next_offset_chars: if end < total {
                    Some(end)
                } else {
                    None
                },
                has_more: end < total,
            },
        },
    )
}

/// A page of the list of sources.
pub struct SourceListResponse {
    pub scope: String,
    pub database: String,
    pub sources: Vec<SourceSummary>,
    pub limit: usize,
    pub offset: usize,
    pub has_more: bool,
}

/// A part of a source, and the store that it comes from.
pub struct SourceShowResponse {
    pub scope: String,
    pub database: String,
    pub shown: WindowedSource,
}

/// A page of the pages that cite a source.
pub struct SourceRefsResponse {
    pub scope: String,
    pub database: String,
    pub source: SourceSummary,
    pub pages: Vec<PageSummary>,
    pub limit: usize,
    pub offset: usize,
    pub has_more: bool,
}

/// The pages that cite a source.
pub open spec fn citing(store: StoreView, id: i64) -> Set<Seq<char>> {
    Set::new(
        |slug: Seq<char>|
            store.pages.dom().contains(slug) && store.pages[slug].source_ids.contains(id),
    )
}

/// The pages that cite a source as a list shows them, by slug.
pub open spec fn citing_summaries(store: StoreView, id: i64) -> Seq<PageSummaryView> {
    text::sorted(citing(store, id)).map_values(
        |slug: Seq<char>| pages::summary_of(slug, store.pages[slug]),
    )
}

/// Whether a list holds an identifier.
pub fn has_id(list: &Vec<i64>, id: i64) -> (r: bool)
    ensures
        r == list@.contains(id),
{
    let mut i: usize = 0;
    while i < list.len()
        invariant
            i <= list@.len(),
            forall|j: int| 0 <= j < i ==> list@[j] != id,
        decreases list@.len() - i,
    {
        if list[i] == id {
            assert(list@[i as int] == id);
            return true;
        }
        i += 1;
    }
    false
}

impl Store {
    /// The sources of the store as a list shows them.
    fn list_sources(&self) -> (r: Vec<SourceSummary>)
        ensures
            text::views(r@) == summaries(self@),
    {
        let n = self.sources.len();
        let ghost keys = self.sources.keys();
        proof {
            table::lemma_ordered_is::<i64>(keys, self@.sources.dom());
        }
        let mut out: Vec<SourceSummary> = Vec::new();
        let mut i: usize = 0;
        while i < n
            invariant
                i <= n == keys.len(),
                keys == self.sources.keys(),
                out@.len() == i,
                forall|j: int|
                    0 <= j < i ==> (#[trigger] out@[j])@ == summary_of(
                        keys[j],
                        self@.sources[keys[j]],
                    ),
            decreases n - i,
        {
            out.push(summarise(*self.sources.key_at(i), self.sources.value_at(i)));
            i += 1;
        }
        assert(text::views(out@) =~= summaries(self@));
        out
    }

    /// A page of the list of sources.
    pub fn source_list(&self, limit: usize, offset: usize) -> (r: SourceListResponse)
        ensures
            r.scope@ == self@.scope,
            r.database@ == self@.database,
            text::views(r.sources@) == paging::page_of(
                summaries(self@),
                paging::query_offset(offset),
                limit as nat,
            ),
            r.limit == limit,
            r.offset == offset,
            r.has_more == (paging::query_offset(offset) + limit < summaries(self@).len()),
    {
        let all = self.list_sources();
        let from = effective_offset(offset);
        assert(summaries(self@).len() == all@.len());
        let has_more = from < all.len() && limit < all.len() - from;
        SourceListResponse {
            scope: owned(self.scope.as_str()),
            database: owned(self.database.as_str()),
            sources: copy_page(&all, from, limit),
            limit,
            offset,
            has_more,
        }
    }

    /// A source as it is shown.
    pub fn load_source(&self, id: i64) -> (r: Result<SourceRecord, AppError>)
        ensures
            error::outcome(r) == shown_source(self@, id),
    {
        match self.sources.get(&id) {
            Some(source) => Ok(
                SourceRecord {
                    id,
                    title: copy_opt(&source.title),
                    origin: owned(source.origin.as_str()),
                    content_hash: owned(source.content_hash.as_str()),
                    content: owned(source.content.as_str()),
                    created_at: owned(source.created_at.as_str()),
                },
            ),
            None => Err(source_missing_error(id)),
        }
    }

    /// A source as a list shows it.
    pub fn load_source_summary(&self, id: i64) -> (r: Result<SourceSummary, AppError>)
        ensures
            error::outcome(r) == source_summary(self@, id),
    {
        match self.sources.get(&id) {
            Some(source) => Ok(summarise(id, source)),
            None => Err(source_missing_error(id)),
        }
    }

    /// A part of a source.
    pub fn source_show(&self, id: i64, offset_chars: usize, max_chars: Option<usize>) -> (r:
        Result<SourceShowResponse, AppError>)
        ensures
            match shown_source(self@, id) {
                Err(e) => r matches Err(got) && got@ == e,
                Ok(source) => match windowed(source, offset_chars, max_chars) {
                    Err(e) => r matches Err(got) && got@ == e,
                    Ok(part) => {
                        &&& r matches Ok(got)
                        &&& got.shown@ == part
                        &&& got.scope@ == self@.scope
                        &&& got.database@ == self@.database
                    },
                },
            },
    {
        let source = match self.load_source(id) {
            Ok(source) => source,
            Err(e) => {
                return Err(e);
            },
        };
        match window_source(source, offset_chars, max_chars) {
            Ok(shown) => Ok(
                SourceShowResponse {
                    scope: owned(self.scope.as_str()),
                    database: owned(self.database.as_str()),
                    shown,
                },
            ),
            Err(e) => Err(e),
        }
    }

    /// A source that is small enough to be compared.
    pub fn source_for_diff(&self, id: i64, max_bytes: usize) -> (r: Result<SourceRecord, AppError>)
        ensures
            match shown_source(self@, id) {
                Err(e) => r matches Err(got) && got@ == e,
                Ok(source) => if text::byte_count(source.content) > max_bytes {
                    r matches Err(got) && got@ == error::app_error(
                        ErrorCode::SourceDiffTooLarge,
                        "source "@ + text::decimal(id as int) + " is "@ + text::natural(
                            text::byte_count(source.content),
                        ) + " bytes; maximum source diff input is "@ + text::natural(
                            max_bytes as nat,
                        ) + " bytes"@,
                    )
                } else {
                    r matches Ok(got) && got@ == source
                },
            },
    {
        let source = match self.load_source(id) {
            Ok(source) => source,
            Err(e) => {
                return Err(e);
            },
        };
        let bytes = byte_len(source.content.as_str());
        if bytes > max_bytes {
            let head = join4(
                "source ",
                decimal_text(id).as_str(),
                " is ",
                natural_text(bytes as u128).as_str(),
            );
            return Err(
                AppError::new(
                    ErrorCode::SourceDiffTooLarge,
                    join4(
                        head.as_str(),
                        " bytes; maximum source diff input is ",
                        natural_text(max_bytes as u128).as_str(),
                        " bytes",
                    ).as_str(),
                ),
            );
        }
        Ok(source)
    }

    /// The pages that cite a source, by slug.
    pub fn citing_pages(&self, id: i64) -> (r: Vec<String>)
        ensures
            text::views(r@) == text::sorted(citing(self@, id)),
            text::ascending(text::views(r@)),
            text::views(r@).to_set() == citing(self@, id),
    {
        let n = self.pages.len();
        let ghost keys = self.pages.keys();
        let ghost goal = citing(self@, id);
        let mut out: Vec<String> = Vec::new();
        let mut i: usize = 0;
        while i < n
            invariant
                i <= n == keys.len(),
                keys == self.pages.keys(),
                text::ascending(text::views(out@)),
                forall|t: Seq<char>| #[trigger]
                    text::views(out@).to_set().contains(t) == (keys.take(i as int).contains(t)
                        && goal.contains(t)),
            decreases n - i,
        {
            let slug = self.pages.key_at(i);
            let page = self.pages.value_at(i);
            if has_id(&page.source_ids, id) {
                text::add_text(&mut out, slug.as_str());
            }
            proof {
                table::lemma_take_more(keys, i as int);
            }
            i += 1;
        }
        proof {
            assert(keys.take(n as int) =~= keys);
            assert forall|t: Seq<char>| text::views(out@).to_set().contains(t) == goal.contains(
                t,
            ) by {
                assert(keys.to_set().contains(t) == self@.pages.dom().contains(t));
            }
            assert(text::views(out@).to_set() =~= goal);
            text::lemma_sorted_is(text::views(out@));
        }
        out
    }

    /// A page of the pages that cite a source.
    pub fn source_refs(&self, id: i64, limit: usize, offset: usize) -> (r: Result<
        SourceRefsResponse,
        AppError,
    >)
        ensures
            match source_summary(self@, id) {
                Err(e) => r matches Err(got) && got@ == e,
                Ok(source) => {
                    &&& r matches Ok(got)
                    &&& got.scope@ == self@.scope
                    &&& got.database@ == self@.database
                    &&& got.source@ == source
                    &&& text::views(got.pages@) == paging::page_of(
                        citing_summaries(self@, id),
                        paging::query_offset(offset),
                        limit as nat,
                    )
                    &&& got.limit == limit
                    &&& got.offset == offset
                    &&& got.has_more == (paging::query_offset(offset) + limit < citing(
                        self@,
                        id,
                    ).len())
                },
            },
    {
        let source = match self.load_source_summary(id) {
            Ok(source) => source,
            Err(e) => {
                return Err(e);
            },
        };
        let slugs = self.citing_pages(id);
        let ghost all = text::views(slugs@);
        proof {
            text::lemma_ascending_len(all);
        }
        let mut list: Vec<PageSummary> = Vec::new();
        let mut i: usize = 0;
        while i < slugs.len()
            invariant
                i <= slugs@.len() == all.len(),
                all == text::views(slugs@),
                list@.len() == i,
                forall|j: int|
                    0 <= j < i ==> (#[trigger] list@[j])@ == pages::summary_of(
                        all[j],
                        self@.pages[all[j]],
                    ),
            decreases slugs@.len() - i,
        {
            assert(all.to_set().contains(all[i as int]));
            match self.pages.get(&slugs[i]) {
                Some(page) => {
                    list.push(pages::show_summary(slugs[i].as_str(), page));
                },
                None => {
                    assert(false);
                },
            }
            i += 1;
        }
        assert(text::views(list@) =~= citing_summaries(self@, id));
        let from = effective_offset(offset);
        let has_more = from < list.len() && limit < list.len() - from;
        Ok(
            SourceRefsResponse {
                scope: owned(self.scope.as_str()),
                database: owned(self.database.as_str()),
                source,
                pages: copy_page(&list, from, limit),
                limit,
                offset,
                has_more,
            },
        )
    }

    /// The highest identifier of a source, or 0.
    pub fn max_source_id(&self) -> (r: i64)
        ensures
            r == highest_source(self@),
    {
        let n = self.sources.len();
        proof {
            table::lemma_ordered_is::<i64>(self.sources.keys(), self@.sources.dom());
        }
        if n == 0 {
            0
        } else {
            *self.sources.key_at(n - 1)
        }
    }

    /// The source with a content, by its digest.
    pub fn source_id_by_content_hash(&self, content_hash: &str) -> (r: Option<i64>)
        ensures
            r == source_with_hash(self@, content_hash@),
            r matches Some(id) ==> self@.sources.dom().contains(id),
    {
        let n = self.sources.len();
        let ghost keys = self.sources.keys();
        proof {
            table::lemma_ordered_is::<i64>(keys, self@.sources.dom());
            assert(keys.skip(0) =~= keys);
        }
        let mut i: usize = 0;
        while i < n
            invariant
                i <= n == keys.len(),
                keys == self.sources.keys(),
                first_with_hash(self@.sources, keys, content_hash@) == first_with_hash(
                    self@.sources,
                    keys.skip(i as int),
                    content_hash@,
                ),
            decreases n - i,
        {
            assert(keys.skip(i as int)[0] == keys[i as int]);
            assert(keys.skip(i as int).drop_first() =~= keys.skip(i + 1));
            if same_text(self.sources.value_at(i).content_hash.as_str(), content_hash) {
                return Some(*self.sources.key_at(i));
            }
            i += 1;
        }
        None
    }
}

/// The highest identifier of a source, or 0.
pub open spec fn highest_source(store: StoreView) -> i64 {
    let ids = table::ordered::<i64>(store.sources.dom());
    if ids.len() == 0 {
        0
    } else {
        ids.last()
    }
}

/// The first of a list of sources with a content, by its digest.
pub open spec fn first_with_hash(
    sources: Map<i64, SourceView>,
    ids: Seq<i64>,
    hash: Seq<char>,
) -> Option<i64>
    decreases ids.len(),
{
    if ids.len() == 0 {
        None
    } else if sources[ids[0]].content_hash == hash {
        Some(ids[0])
    } else {
        first_with_hash(sources, ids.drop_first(), hash)
    }
}

/// The source with a content, by its digest.
pub open spec fn source_with_hash(store: StoreView, hash: Seq<char>) -> Option<i64> {
    first_with_hash(store.sources, table::ordered::<i64>(store.sources.dom()), hash)
}

fn summarise(id: i64, source: &SourceRow) -> (r: SourceSummary)
    ensures
        r@ == summary_of(id, source@),
{
    SourceSummary {
        id,
        title: copy_opt(&source.title),
        origin: owned(source.origin.as_str()),
        content_hash: owned(source.content_hash.as_str()),
        bytes: byte_len(source.content.as_str()),
        created_at: owned(source.created_at.as_str()),
    }
}

/// The error for a source that is not there.
pub fn source_missing_error(id: i64) -> (r: AppError)
    ensures
        r@ == pages::source_missing(id),
{
    AppError::new(
        ErrorCode::SourceNotFound,
        join2("source not found: ", decimal_text(id).as_str()).as_str(),
    )
}

// ---------------------------------------------------------------------------
// Tracked paths
// ---------------------------------------------------------------------------

/// The sources observed at a path, the oldest first.
pub open spec fn path_log(
    paths: Map<Seq<char>, Seq<PathRevisionView>>,
    path: Seq<char>,
) -> Seq<PathRevisionView> {
    if paths.dom().contains(path) {
        paths[path]
    } else {
        Seq::empty()
    }
}

/// What an observation of a source at a path comes to.
#[verifier::ext_equal]
pub struct ObservedView {
    pub paths: Map<Seq<char>, Seq<PathRevisionView>>,
    pub revision: i64,
    pub advanced: bool,
}

/// A source was observed at a path: the path advances where it showed another one.
pub open spec fn observed(
    paths: Map<Seq<char>, Seq<PathRevisionView>>,
    path: Seq<char>,
    source_id: i64,
    at: Seq<char>,
) -> Result<ObservedView, AppErrorView> {
    let log = path_log(paths, path);
    if text::is_blank(path) {
        error::refused(ErrorCode::InvalidInput, "tracked source path must not be empty"@)
    } else if log.len() > 0 && log.last().source_id == source_id {
        Ok(ObservedView { paths, revision: log.last().revision, advanced: false })
    } else if log.len() > 0 && log.last().revision >= i64::MAX {
        error::refused(ErrorCode::DatabaseError, "path revisions are exhausted"@)
    } else {
        let revision = if log.len() > 0 {
            (log.last().revision + 1) as i64
        } else {
            1
        };
        Ok(
            ObservedView {
                paths: paths.insert(
                    path,
                    log.push(PathRevisionView { revision, source_id, observed_at: at }),
                ),
                revision,
                advanced: true,
            },
        )
    }
}

/// The source that a path shows.
pub open spec fn path_head(store: StoreView, path: Seq<char>) -> Option<i64> {
    let log = path_log(store.paths, path);
    if log.len() > 0 {
        Some(log.last().source_id)
    } else {
        None
    }
}

impl Store {
    /// Notes that a source was observed at a path; gives the revision of the path and
    /// whether it advanced.
    pub fn record_source_path_revision_at(
        &mut self,
        path: &str,
        source_id: i64,
        at: &str,
    ) -> (r: Result<(i64, bool), AppError>)
        ensures
            match observed(old(self)@.paths, path@, source_id, at@) {
                Ok(o) => (r matches Ok(done) && done.0 == o.revision && done.1 == o.advanced)
                    && final(self)@ == (StoreView { paths: o.paths, ..old(self)@ }),
                Err(e) => (r matches Err(got) && got@ == e) && final(self)@ == old(self)@,
            },
    {
        if text::blank(path) {
            return Err(
                AppError::new(ErrorCode::InvalidInput, "tracked source path must not be empty"),
            );
        }
        let key = owned(path);
        let mut log = match self.paths.get(&key) {
            Some(log) => log.duplicate(),
            None => {
                let list: Vec<PathRevision> = Vec::new();
                assert(text::views(list@) =~= Seq::empty());
                PathLog { list }
            },
        };
        assert(log@ == path_log(self@.paths, path@));
        assert(log@.len() == log.list@.len());
        let n = log.list.len();
        let mut revision: i64 = 1;
        if n > 0 {
            let head = &log.list[n - 1];
            assert(log@.last() == head@);
            if head.source_id == source_id {
                return Ok((head.revision, false));
            }
            if head.revision >= i64::MAX {
                return Err(
                    AppError::new(ErrorCode::DatabaseError, "path revisions are exhausted"),
                );
            }
            revision = head.revision + 1;
        }
        let entry = PathRevision { revision, source_id, observed_at: owned(at) };
        proof {
            text::lemma_views_push(log.list@, entry);
        }
        log.list.push(entry);
        self.paths.put(key, log);
        Ok((revision, true))
    }

    /// The source that a path shows.
    pub fn source_path_head(&self, path: &str) -> (r: Option<i64>)
        ensures
            r == path_head(self@, path@),
    {
        match self.paths.get(&owned(path)) {
            Some(log) => {
                assert(log@.len() == log.list@.len());
                let n = log.list.len();
                if n == 0 {
                    None
                } else {
                    assert(log@.last() == log.list@[n - 1]@);
                    Some(log.list[n - 1].source_id)
                }
            },
            None => None,
        }
    }
}

// ---------------------------------------------------------------------------
// Adding sources
// ---------------------------------------------------------------------------

/// A document to be kept.
pub struct SourceAddInput {
    pub title: Option<String>,
    pub origin: String,
    pub content: String,
    pub tracked_path: Option<String>,
}

#[verifier::ext_equal]
pub struct SourceAddView {
    pub title: Option<Seq<char>>,
    pub origin: Seq<char>,
    pub content: Seq<char>,
    pub tracked_path: Option<Seq<char>>,
}

impl View for SourceAddInput {
    type V = SourceAddView;

    open spec fn view(&self) -> SourceAddView {
        SourceAddView {
            title: text::opt_text(self.title),
            origin: self.origin@,
            content: self.content@,
            tracked_path: text::opt_text(self.tracked_path),
        }
    }
}

impl Record for SourceAddInput {
    fn duplicate(&self) -> (r: Self) {
        SourceAddInput {
            title: copy_opt(&self.title),
            origin: owned(self.origin.as_str()),
            content: owned(self.content.as_str()),
            tracked_path: copy_opt(&self.tracked_path),
        }
    }

    fn same(&self, other: &Self) -> (r: bool) {
        same_opt(&self.title, &other.title)
            && same_text(self.origin.as_str(), other.origin.as_str())
            && same_text(self.content.as_str(), other.content.as_str())
            && same_opt(&self.tracked_path, &other.tracked_path)
    }
}


/// A source that a document was kept as; it is created where the content is new.
pub struct AddedSource {
    pub id: i64,
    pub created: bool,
}

#[verifier::ext_equal]
pub struct AddedSourceView {
    pub id: i64,
    pub created: bool,
}

impl View for AddedSource {
    type V = AddedSourceView;

    open spec fn view(&self) -> AddedSourceView {
        AddedSourceView {
            id: self.id,
            created: self.created,
        }
    }
}

impl Record for AddedSource {
    fn duplicate(&self) -> (r: Self) {
        AddedSource {
            id: self.id,
            created: self.created,
        }
    }

    fn same(&self, other: &Self) -> (r: bool) {
        self.id == other.id
            && self.created == other.created
    }
}


/// What adding sources comes to.
#[verifier::ext_equal]
pub struct AddingView {
    pub store: StoreView,
    pub added: Seq<AddedSourceView>,
}

/// The row of a new source.
pub open spec fn new_source(input: SourceAddView, now: Seq<char>) -> SourceView {
    SourceView {
        content_hash: digest::text_digest(input.content),
        title: match input.title {
            Some(title) => if text::is_blank(title) {
                Some(input.origin)
            } else {
                Some(title)
            },
            None => Some(input.origin),
        },
        origin: input.origin,
        content: input.content,
        structural_navigation: markdown::is_navigation(input.content),
        created_at: now,
    }
}

/// A job that nobody has taken up.
pub open spec fn pending_job(now: Seq<char>) -> IngestView {
    IngestView {
        status: "pending"@,
        attempts: 0,
        analysis: None,
        last_error: None,
        no_derived_pages_reason: None,
        updated_at: now,
    }
}

/// The store with a source under an identifier, indexed.
pub open spec fn source_kept(
    store: StoreView,
    segments: SegmentsView,
    id: i64,
    source: SourceView,
) -> Result<StoreView, AppErrorView> {
    spans::indexed(
        StoreView {
            sources: store.sources.insert(id, source),
            source_sequence: if id > store.source_sequence {
                id
            } else {
                store.source_sequence
            },
            ..store
        },
        segments,
        "source"@,
        text::decimal(id as int),
        source.content,
    )
}

/// The store with a source under a fresh identifier.
pub open spec fn source_created(
    store: StoreView,
    segments: SegmentsView,
    source: SourceView,
) -> Result<StoreView, AppErrorView> {
    if store.source_sequence >= i64::MAX {
        error::refused(ErrorCode::DatabaseError, "source identifiers are exhausted"@)
    } else {
        source_kept(store, segments, (store.source_sequence + 1) as i64, source)
    }
}

/// The store with a job for a source, where it had none.
pub open spec fn with_job(store: StoreView, id: i64, now: Seq<char>) -> StoreView {
    if store.ingest_jobs.dom().contains(id) {
        store
    } else {
        StoreView { ingest_jobs: store.ingest_jobs.insert(id, pending_job(now)), ..store }
    }
}

/// A number that may be absent, as JSON.
pub open spec fn optional_int_json(value: Option<i64>) -> JsonView {
    match value {
        Some(n) => JsonView::Int(n as int),
        None => JsonView::Null,
    }
}

/// A truth value that may be absent, as JSON.
pub open spec fn optional_bool_json(value: Option<bool>) -> JsonView {
    match value {
        Some(b) => JsonView::Bool(b),
        None => JsonView::Null,
    }
}

/// What the log says of an added source.
pub open spec fn source_add_detail(
    id: i64,
    created: bool,
    path: Option<Seq<char>>,
    revision: Option<i64>,
    advanced: Option<bool>,
) -> JsonView {
    JsonView::Object(
        seq![
            json::entry("created"@, JsonView::Bool(created)),
            json::entry("path_advanced"@, optional_bool_json(advanced)),
            json::entry("path_revision"@, optional_int_json(revision)),
            json::entry("source_id"@, JsonView::Int(id as int)),
            json::entry("tracked_path"@, spans::optional_text_json(path)),
        ],
    )
}

/// The store after a source with a known identifier was noted: its job, its path
/// and the operation.
pub open spec fn source_noted(
    store: StoreView,
    input: SourceAddView,
    id: i64,
    created: bool,
    now: Seq<char>,
    revision: Seq<char>,
) -> Result<StoreView, AppErrorView> {
    let store = with_job(store, id, now);
    match input.tracked_path {
        None => store::recorded(
            store,
            "source_add"@,
            input.origin,
            source_add_detail(id, created, None, None, None),
            now,
            revision,
        ),
        Some(path) => match observed(store.paths, path, id, now) {
            Err(e) => Err(e),
            Ok(o) => store::recorded(
                StoreView { paths: o.paths, ..store },
                "source_add"@,
                input.origin,
                source_add_detail(id, created, Some(path), Some(o.revision), Some(o.advanced)),
                now,
                revision,
            ),
        },
    }
}

/// What adding one document comes to: a content that is known already is not kept
/// twice.
pub open spec fn source_added(
    store: StoreView,
    segments: SegmentsView,
    input: SourceAddView,
    now: Seq<char>,
    revision: Seq<char>,
) -> Result<StoreView, AppErrorView> {
    match source_with_hash(store, digest::text_digest(input.content)) {
        Some(id) => source_noted(store, input, id, false, now, revision),
        None => match source_created(store, segments, new_source(input, now)) {
            Err(e) => Err(e),
            Ok(next) => source_noted(
                next,
                input,
                (store.source_sequence + 1) as i64,
                true,
                now,
                revision,
            ),
        },
    }
}

/// The identifier under which a document is kept.
pub open spec fn added_source(store: StoreView, input: SourceAddView) -> AddedSourceView {
    match source_with_hash(store, digest::text_digest(input.content)) {
        Some(id) => AddedSourceView { id, created: false },
        None => AddedSourceView { id: (store.source_sequence + 1) as i64, created: true },
    }
}

/// What adding the first `count` documents comes to.
pub open spec fn sources_added(
    store: StoreView,
    segments: SegmentsView,
    inputs: Seq<SourceAddView>,
    now: Seq<char>,
    revision: Seq<char>,
    count: nat,
) -> Result<AddingView, AppErrorView>
    decreases count,
{
    if count == 0 || count > inputs.len() {
        Ok(AddingView { store, added: Seq::empty() })
    } else {
        match sources_added(store, segments, inputs, now, revision, (count - 1) as nat) {
            Err(e) => Err(e),
            Ok(so_far) => match source_added(
                so_far.store,
                segments,
                inputs[count - 1],
                now,
                revision,
            ) {
                Err(e) => Err(e),
                Ok(next) => Ok(
                    AddingView {
                        store: next,
                        added: so_far.added.push(added_source(so_far.store, inputs[count - 1])),
                    },
                ),
            },
        }
    }
}

/// What adding documents comes to.
pub open spec fn source_add_goal(
    store: StoreView,
    segments: SegmentsView,
    inputs: Seq<SourceAddView>,
    now: Seq<char>,
    revision: Seq<char>,
) -> Result<AddingView, AppErrorView> {
    if inputs.len() == 0 {
        error::refused(ErrorCode::InvalidInput, "at least one source is required"@)
    } else {
        sources_added(store, segments, inputs, now, revision, inputs.len())
    }
}

/// The paths that documents were observed at.
pub open spec fn touched_paths(inputs: Seq<SourceAddView>) -> Set<Seq<char>> {
    Set::new(
        |path: Seq<char>|
            exists|k: int| 0 <= k < inputs.len() && (#[trigger] inputs[k]).tracked_path == Some(path),
    )
}

/// The source that a path showed before the one that it shows.
pub open spec fn displaced(store: StoreView, path: Seq<char>) -> Option<i64> {
    let log = path_log(store.paths, path);
    if log.len() >= 2 {
        Some(log[log.len() - 2].source_id)
    } else {
        None
    }
}

/// The document entry of a source.
pub open spec fn source_document(id: i64) -> PairView {
    table::pair("source"@, text::decimal(id as int))
}

/// The sources that the first `count` paths showed before, as documents.
pub open spec fn displaced_documents(store: StoreView, paths: Seq<Seq<char>>, count: nat) -> Seq<
    PairView,
>
    decreases count,
{
    if count == 0 || count > paths.len() {
        Seq::empty()
    } else {
        let head = displaced_documents(store, paths, (count - 1) as nat);
        match displaced(store, paths[count - 1]) {
            Some(id) => head.push(source_document(id)),
            None => head,
        }
    }
}

/// The documents that the graph has to look at after documents were added.
pub open spec fn documents_to_index(
    store: StoreView,
    inputs: Seq<SourceAddView>,
    added: Seq<AddedSourceView>,
) -> Seq<PairView> {
    let paths = text::sorted(touched_paths(inputs));
    added.map_values(|one: AddedSourceView| source_document(one.id)) + displaced_documents(
        store,
        paths,
        paths.len(),
    )
}

/// The sources behind the first `count` documents that were added, as a list shows them.
pub open spec fn added_summaries(store: StoreView, added: Seq<AddedSourceView>, count: nat) -> Seq<
    SourceSummaryView,
>
    decreases count,
{
    if count == 0 || count > added.len() {
        Seq::empty()
    } else {
        let head = added_summaries(store, added, (count - 1) as nat);
        match source_summary(store, added[count - 1].id) {
            Ok(summary) => head.push(summary),
            Err(_) => head,
        }
    }
}

/// What is told of documents that were added.
pub open spec fn tells(
    told: SourceAddResponse,
    done: AddingView,
    inputs: Seq<SourceAddView>,
) -> bool {
    &&& text::views(told.added@) == done.added
    &&& text::views(told.sources@) == added_summaries(done.store, done.added, done.added.len())
    &&& told.scope@ == done.store.scope
    &&& told.database@ == done.store.database
    &&& text::views(told.documents@) == if inputs.len() == 0 {
        Seq::empty()
    } else {
        documents_to_index(done.store, inputs, done.added)
    }
}

/// What an item of a stream of documents is: a document, nothing, or what went wrong.
pub open spec fn item_said(item: Result<Option<SourceAddInput>, AppError>) -> Result<
    Option<SourceAddView>,
    AppErrorView,
> {
    match item {
        Ok(input) => Ok(text::opt_view(input)),
        Err(e) => Err(e@),
    }
}

/// The documents among the first `count` items of a stream.
pub open spec fn offered(items: Seq<Result<Option<SourceAddInput>, AppError>>, count: nat) -> Result<
    Seq<SourceAddView>,
    AppErrorView,
>
    decreases count,
{
    if count == 0 || count > items.len() {
        Ok(Seq::empty())
    } else {
        match offered(items, (count - 1) as nat) {
            Err(e) => Err(e),
            Ok(head) => match item_said(items[count - 1]) {
                Err(e) => Err(e),
                Ok(Some(input)) => Ok(head.push(input)),
                Ok(None) => Ok(head),
            },
        }
    }
}

proof fn lemma_offered_stop(
    items: Seq<Result<Option<SourceAddInput>, AppError>>,
    count: nat,
    more: nat,
)
    requires
        count <= more <= items.len(),
        offered(items, count) is Err,
    ensures
        offered(items, more) == offered(items, count),
    decreases more,
{
    if count < more {
        lemma_offered_stop(items, count, (more - 1) as nat);
    }
}

/// Sources that were added.
pub struct SourceAddResponse {
    pub scope: String,
    pub database: String,
    pub added: Vec<AddedSource>,
    /// The sources, as a list shows them.
    pub sources: Vec<SourceSummary>,
    /// The documents that the graph has to look at.
    pub documents: Vec<Pair>,
}

proof fn lemma_added_stop(
    store: StoreView,
    segments: SegmentsView,
    inputs: Seq<SourceAddView>,
    now: Seq<char>,
    revision: Seq<char>,
    count: nat,
    more: nat,
)
    requires
        count <= more <= inputs.len(),
        sources_added(store, segments, inputs, now, revision, count) is Err,
    ensures
        sources_added(store, segments, inputs, now, revision, more) == sources_added(
            store,
            segments,
            inputs,
            now,
            revision,
            count,
        ),
    decreases more,
{
    if count < more {
        lemma_added_stop(store, segments, inputs, now, revision, count, (more - 1) as nat);
    }
}

pub fn encode_source_add(
    id: i64,
    created: bool,
    path: &Option<String>,
    seen: Option<(i64, bool)>,
) -> (r: Json)
    ensures
        r@ == source_add_detail(
            id,
            created,
            text::opt_text(*path),
            match seen {
                Some(s) => Some(s.0),
                None => None,
            },
            match seen {
                Some(s) => Some(s.1),
                None => None,
            },
        ),
{
    let ghost goal = source_add_detail(
        id,
        created,
        text::opt_text(*path),
        match seen {
            Some(s) => Some(s.0),
            None => None,
        },
        match seen {
            Some(s) => Some(s.1),
            None => None,
        },
    );
    let (revision, advanced) = match seen {
        Some(s) => (Json::Int(s.0), Json::Bool(s.1)),
        None => (Json::Null, Json::Null),
    };
    let mut entries: Vec<(String, Json)> = Vec::new();
    entries.push((owned("created"), Json::Bool(created)));
    entries.push((owned("path_advanced"), advanced));
    entries.push((owned("path_revision"), revision));
    entries.push((owned("source_id"), Json::Int(id)));
    entries.push((owned("tracked_path"), pages::encode_optional(path)));
    assert(json::entry_views(entries@) =~= goal->Object_0);
    Json::object(entries)
}

/// A job that nobody has taken up.
pub fn fresh_job(now: &str) -> (r: IngestRow)
    ensures
        r@ == pending_job(now@),
{
    IngestRow {
        status: owned("pending"),
        attempts: 0,
        analysis: None,
        last_error: None,
        no_derived_pages_reason: None,
        updated_at: owned(now),
    }
}

impl Store {
    /// Keeps a source under an identifier and indexes it.
    pub fn keep_source(&mut self, segments: &Segments, id: i64, source: SourceRow) -> (r: Result<
        (),
        AppError,
    >)
        ensures
            match source_kept(old(self)@, segments@, id, source@) {
                Ok(next) => r is Ok && final(self)@ == next,
                Err(e) => r matches Err(got) && got@ == e,
            },
    {
        let content = owned(source.content.as_str());
        self.sources.put(id, source);
        if id > self.source_sequence {
            self.source_sequence = id;
        }
        self.index_spans(segments, "source", decimal_text(id).as_str(), content.as_str())
    }

    /// Gives a source a job, where it has none.
    pub fn ensure_job(&mut self, id: i64, now: &str)
        ensures
            final(self)@ == with_job(old(self)@, id, now@),
    {
        if !self.ingest_jobs.has(&id) {
            self.ingest_jobs.put(id, fresh_job(now));
        }
    }

    /// Adds one document to a store that is given up on an error.
    fn insert_source(
        &mut self,
        segments: &Segments,
        input: &SourceAddInput,
        now: &str,
        revision: &str,
    ) -> (r: Result<AddedSource, AppError>)
        ensures
            match source_added(old(self)@, segments@, input@, now@, revision@) {
                Ok(next) => (r matches Ok(one) && one@ == added_source(old(self)@, input@))
                    && final(self)@ == next,
                Err(e) => r matches Err(got) && got@ == e,
            },
    {
        let content_hash = hash_content(input.content.as_str());
        let known = self.source_id_by_content_hash(content_hash.as_str());
        let (id, created) = match known {
            Some(id) => (id, false),
            None => {
                if self.source_sequence >= i64::MAX {
                    return Err(
                        AppError::new(
                            ErrorCode::DatabaseError,
                            "source identifiers are exhausted",
                        ),
                    );
                }
                let title = match &input.title {
                    Some(title) => if text::blank(title.as_str()) {
                        owned(input.origin.as_str())
                    } else {
                        owned(title.as_str())
                    },
                    None => owned(input.origin.as_str()),
                };
                let row = SourceRow {
                    content_hash,
                    title: Some(title),
                    origin: owned(input.origin.as_str()),
                    content: owned(input.content.as_str()),
                    structural_navigation: has_structural_navigation_marker(
                        input.content.as_str(),
                    ),
                    created_at: owned(now),
                };
                let id: i64 = self.source_sequence + 1;
                assert(row@ == new_source(input@, now@));
                if let Err(e) = self.keep_source(segments, id, row) {
                    return Err(e);
                }
                (id, true)
            },
        };
        self.ensure_job(id, now);
        let seen = match &input.tracked_path {
            Some(path) => match self.record_source_path_revision_at(path.as_str(), id, now) {
                Ok(seen) => Some(seen),
                Err(e) => {
                    return Err(e);
                },
            },
            None => None,
        };
        let detail = encode_source_add(id, created, &input.tracked_path, seen);
        match self.record_operation("source_add", input.origin.as_str(), detail, now, revision) {
            Ok(()) => Ok(AddedSource { id, created }),
            Err(e) => Err(e),
        }
    }

    /// The documents that the graph has to look at after documents were added.
    fn list_documents(&self, inputs: &Vec<SourceAddInput>, added: &Vec<AddedSource>) -> (r: Vec<
        Pair,
    >)
        ensures
            text::views(r@) == documents_to_index(
                self@,
                text::views(inputs@),
                text::views(added@),
            ),
    {
        let ghost all = text::views(inputs@);
        let ghost goal = touched_paths(all);
        let mut paths: Vec<String> = Vec::new();
        let mut i: usize = 0;
        while i < inputs.len()
            invariant
                i <= inputs@.len() == all.len(),
                all == text::views(inputs@),
                text::ascending(text::views(paths@)),
                forall|t: Seq<char>| #[trigger]
                    text::views(paths@).to_set().contains(t) == touched_paths(
                        all.take(i as int),
                    ).contains(t),
            decreases inputs@.len() - i,
        {
            let ghost known = text::views(paths@).to_set();
            if let Some(path) = &inputs[i].tracked_path {
                text::add_text(&mut paths, path.as_str());
            }
            proof {
                let less = all.take(i as int);
                let more = all.take(i + 1);
                assert forall|t: Seq<char>| #[trigger]
                    text::views(paths@).to_set().contains(t) == touched_paths(more).contains(t) by {
                    assert(known.contains(t) == touched_paths(less).contains(t));
                    assert(more[i as int] == inputs@[i as int]@);
                    if touched_paths(less).contains(t) {
                        let k = choose|k: int|
                            0 <= k < less.len() && (#[trigger] less[k]).tracked_path == Some(t);
                        assert(more[k].tracked_path == Some(t));
                    }
                    if touched_paths(more).contains(t) {
                        let k = choose|k: int|
                            0 <= k < more.len() && (#[trigger] more[k]).tracked_path == Some(t);
                        if k < i {
                            assert(less[k].tracked_path == Some(t));
                        }
                    }
                }
            }
            i += 1;
        }
        proof {
            assert(all.take(i as int) =~= all);
            assert(text::views(paths@).to_set() =~= goal);
            text::lemma_sorted_is(text::views(paths@));
        }
        let ghost sorted = text::views(paths@);
        let mut out: Vec<Pair> = Vec::new();
        let mut k: usize = 0;
        while k < added.len()
            invariant
                k <= added@.len(),
                out@.len() == k,
                forall|j: int| 0 <= j < k ==> (#[trigger] out@[j])@ == source_document(added@[j]@.id),
            decreases added@.len() - k,
        {
            out.push(Pair::new("source", decimal_text(added[k].id).as_str()));
            k += 1;
        }
        let ghost first = text::views(out@);
        assert(first =~= text::views(added@).map_values(
            |one: AddedSourceView| source_document(one.id),
        ));
        let mut p: usize = 0;
        assert(first + displaced_documents(self@, sorted, 0) =~= first);
        while p < paths.len()
            invariant
                p <= paths@.len() == sorted.len(),
                sorted == text::views(paths@),
                text::views(out@) == first + displaced_documents(self@, sorted, p as nat),
            decreases paths@.len() - p,
        {
            assert(sorted[p as int] == paths@[p as int]@);
            if let Some(log) = self.paths.get(&paths[p]) {
                assert(log@.len() == log.list@.len());
                let n = log.list.len();
                if n >= 2 {
                    let id = log.list[n - 2].source_id;
                    assert(log@[n - 2] == log.list@[n - 2]@);
                    let one = Pair::new("source", decimal_text(id).as_str());
                    proof {
                        text::lemma_views_push(out@, one);
                        assert(first + displaced_documents(self@, sorted, p as nat).push(one@)
                            =~= (first + displaced_documents(self@, sorted, p as nat)).push(one@));
                    }
                    out.push(one);
                }
            }
            p += 1;
        }
        out
    }

    /// Adds documents; on an error none of them is kept.
    pub fn source_add_many(
        &mut self,
        segments: &Segments,
        inputs: &Vec<SourceAddInput>,
        now: &str,
        revision: &str,
    ) -> (r: Result<SourceAddResponse, AppError>)
        ensures
            match source_add_goal(old(self)@, segments@, text::views(inputs@), now@, revision@) {
                Ok(done) => {
                    &&& r matches Ok(got)
                    &&& tells(got, done, text::views(inputs@))
                    &&& final(self)@ == done.store
                },
                Err(e) => (r matches Err(got) && got@ == e) && final(self)@ == old(self)@,
            },
    {
        assert(text::views(inputs@).len() == inputs@.len());
        if inputs.len() == 0 {
            return Err(
                AppError::new(ErrorCode::InvalidInput, "at least one source is required"),
            );
        }
        let ghost all = text::views(inputs@);
        let ghost start = self@;
        let mut next = self.duplicate();
        let mut added: Vec<AddedSource> = Vec::new();
        assert(text::views(added@) =~= Seq::empty());
        let mut i: usize = 0;
        while i < inputs.len()
            invariant
                i <= inputs@.len() == all.len(),
                all == text::views(inputs@),
                sources_added(start, segments@, all, now@, revision@, i as nat) == Ok::<
                    AddingView,
                    AppErrorView,
                >(AddingView { store: next@, added: text::views(added@) }),
            decreases inputs@.len() - i,
        {
            assert(all[i as int] == inputs@[i as int]@);
            match next.insert_source(segments, &inputs[i], now, revision) {
                Ok(one) => {
                    proof {
                        text::lemma_views_push(added@, one);
                    }
                    added.push(one);
                },
                Err(e) => {
                    proof {
                        lemma_added_stop(
                            start,
                            segments@,
                            all,
                            now@,
                            revision@,
                            (i + 1) as nat,
                            all.len(),
                        );
                    }
                    return Err(e);
                },
            }
            i += 1;
        }
        *self = next;
        let documents = self.list_documents(inputs, &added);
        Ok(self.tell_added(added, documents))
    }

    fn tell_added(&self, added: Vec<AddedSource>, documents: Vec<Pair>) -> (r: SourceAddResponse)
        ensures
            r.added == added,
            r.documents == documents,
            r.scope@ == self@.scope,
            r.database@ == self@.database,
            text::views(r.sources@) == added_summaries(
                self@,
                text::views(added@),
                added@.len(),
            ),
    {
        let ghost all = text::views(added@);
        let mut sources: Vec<SourceSummary> = Vec::new();
        assert(text::views(sources@) =~= Seq::empty());
        let mut i: usize = 0;
        while i < added.len()
            invariant
                i <= added@.len() == all.len(),
                all == text::views(added@),
                text::views(sources@) == added_summaries(self@, all, i as nat),
            decreases added@.len() - i,
        {
            assert(all[i as int] == added@[i as int]@);
            if let Ok(one) = self.load_source_summary(added[i].id) {
                proof {
                    text::lemma_views_push(sources@, one);
                }
                sources.push(one);
            }
            i += 1;
        }
        SourceAddResponse {
            scope: owned(self.scope.as_str()),
            database: owned(self.database.as_str()),
            added,
            sources,
            documents,
        }
    }

    /// Adds the documents of a stream, all of them or none: where an item says what went
    /// wrong, nothing is kept. A stream without documents adds nothing.
    pub fn source_add_stream(
        &mut self,
        segments: &Segments,
        items: &Vec<Result<Option<SourceAddInput>, AppError>>,
        now: &str,
        revision: &str,
    ) -> (r: Result<SourceAddResponse, AppError>)
        ensures
            match offered(items@, items@.len()) {
                Err(e) => (r matches Err(got) && got@ == e) && final(self)@ == old(self)@,
                Ok(inputs) => match sources_added(
                    old(self)@,
                    segments@,
                    inputs,
                    now@,
                    revision@,
                    inputs.len(),
                ) {
                    Ok(done) => {
                        &&& r matches Ok(got)
                        &&& tells(got, done, inputs)
                        &&& final(self)@ == done.store
                    },
                    Err(e) => (r matches Err(got) && got@ == e) && final(self)@ == old(self)@,
                },
            },
    {
        let mut inputs: Vec<SourceAddInput> = Vec::new();
        assert(text::views(inputs@) =~= Seq::empty());
        let mut i: usize = 0;
        while i < items.len()
            invariant
                i <= items@.len(),
                offered(items@, i as nat) == Ok::<Seq<SourceAddView>, AppErrorView>(
                    text::views(inputs@),
                ),
            decreases items@.len() - i,
        {
            match &items[i] {
                Ok(Some(input)) => {
                    let one = input.duplicate();
                    proof {
                        text::lemma_views_push(inputs@, one);
                    }
                    inputs.push(one);
                },
                Ok(None) => {},
                Err(e) => {
                    proof {
                        lemma_offered_stop(items@, (i + 1) as nat, items@.len());
                    }
                    return Err(e.duplicate());
                },
            }
            i += 1;
        }
        if inputs.len() == 0 {
            let added: Vec<AddedSource> = Vec::new();
            let documents: Vec<Pair> = Vec::new();
            assert(text::views(added@) =~= Seq::empty());
            assert(text::views(documents@) =~= Seq::empty());
            return Ok(self.tell_added(added, documents));
        }
        self.source_add_many(segments, &inputs, now, revision)
    }

    /// Adds a document.
    pub fn source_add(
        &mut self,
        segments: &Segments,
        input: SourceAddInput,
        now: &str,
        revision: &str,
    ) -> (r: Result<SourceAddResponse, AppError>)
        ensures
            match sources_added(old(self)@, segments@, seq![input@], now@, revision@, 1) {
                Ok(done) => {
                    &&& r matches Ok(got)
                    &&& tells(got, done, seq![input@])
                    &&& final(self)@ == done.store
                },
                Err(e) => (r matches Err(got) && got@ == e) && final(self)@ == old(self)@,
            },
    {
        let ghost one = input@;
        let mut inputs: Vec<SourceAddInput> = Vec::new();
        inputs.push(input);
        assert(text::views(inputs@) =~= seq![one]);
        self.source_add_many(segments, &inputs, now, revision)
    }
}

// ---------------------------------------------------------------------------
// What became of tracked sources
// ---------------------------------------------------------------------------

/// A tracked path and the source that it shows.
pub struct SourceStatusTarget {
    pub requested_source_id: i64,
    pub tracked_path: String,
    pub head_source_id: i64,
    pub head_revision: i64,
    pub head_content_hash: String,
}

#[verifier::ext_equal]
pub struct StatusTargetView {
    pub requested_source_id: i64,
    pub tracked_path: Seq<char>,
    pub head_source_id: i64,
    pub head_revision: i64,
    pub head_content_hash: Seq<char>,
}

impl View for SourceStatusTarget {
    type V = StatusTargetView;

    open spec fn view(&self) -> StatusTargetView {
        StatusTargetView {
            requested_source_id: self.requested_source_id,
            tracked_path: self.tracked_path@,
            head_source_id: self.head_source_id,
            head_revision: self.head_revision,
            head_content_hash: self.head_content_hash@,
        }
    }
}

impl Record for SourceStatusTarget {
    fn duplicate(&self) -> (r: Self) {
        SourceStatusTarget {
            requested_source_id: self.requested_source_id,
            tracked_path: owned(self.tracked_path.as_str()),
            head_source_id: self.head_source_id,
            head_revision: self.head_revision,
            head_content_hash: owned(self.head_content_hash.as_str()),
        }
    }

    fn same(&self, other: &Self) -> (r: bool) {
        self.requested_source_id == other.requested_source_id
            && same_text(self.tracked_path.as_str(), other.tracked_path.as_str())
            && self.head_source_id == other.head_source_id
            && self.head_revision == other.head_revision
            && same_text(self.head_content_hash.as_str(), other.head_content_hash.as_str())
    }
}


/// The tracked paths of sources, and the sources without one.
pub struct SourceStatusTargets {
    pub targets: Vec<SourceStatusTarget>,
    pub untracked_source_ids: Vec<i64>,
}

#[verifier::ext_equal]
pub struct StatusView {
    pub targets: Seq<StatusTargetView>,
    pub untracked_source_ids: Seq<i64>,
}

impl View for SourceStatusTargets {
    type V = StatusView;

    open spec fn view(&self) -> StatusView {
        StatusView {
            targets: text::views(self.targets@),
            untracked_source_ids: self.untracked_source_ids@,
        }
    }
}

impl Record for SourceStatusTargets {
    fn duplicate(&self) -> (r: Self) {
        SourceStatusTargets {
            targets: copy_records(&self.targets),
            untracked_source_ids: copy_ids(&self.untracked_source_ids),
        }
    }

    fn same(&self, other: &Self) -> (r: bool) {
        same_records(&self.targets, &other.targets)
            && same_ids(&self.untracked_source_ids, &other.untracked_source_ids)
    }
}


/// A source was observed at a path.
pub open spec fn was_at(store: StoreView, path: Seq<char>, id: i64) -> bool {
    exists|k: int|
        0 <= k < path_log(store.paths, path).len() && (#[trigger] path_log(
            store.paths,
            path,
        )[k]).source_id == id
}

/// A path as the status shows it, for the source that was asked for, if one was.
pub open spec fn target_at(store: StoreView, path: Seq<char>, asked: Option<i64>) -> Option<
    StatusTargetView,
> {
    let log = path_log(store.paths, path);
    if log.len() == 0 || !store.sources.dom().contains(log.last().source_id) || (asked is Some
        && !was_at(store, path, asked->0)) {
        None
    } else {
        Some(
            StatusTargetView {
                requested_source_id: match asked {
                    Some(id) => id,
                    None => log.last().source_id,
                },
                tracked_path: path,
                head_source_id: log.last().source_id,
                head_revision: log.last().revision,
                head_content_hash: store.sources[log.last().source_id].content_hash,
            },
        )
    }
}

/// The first `count` paths as the status shows them.
pub open spec fn targets_among(
    store: StoreView,
    paths: Seq<Seq<char>>,
    asked: Option<i64>,
    count: nat,
) -> Seq<StatusTargetView>
    decreases count,
{
    if count == 0 || count > paths.len() {
        Seq::empty()
    } else {
        let head = targets_among(store, paths, asked, (count - 1) as nat);
        match target_at(store, paths[count - 1], asked) {
            Some(target) => head.push(target),
            None => head,
        }
    }
}

/// All paths as the status shows them.
pub open spec fn all_targets(store: StoreView, asked: Option<i64>) -> Seq<StatusTargetView> {
    let paths = table::ordered::<String>(store.paths.dom());
    targets_among(store, paths, asked, paths.len())
}

/// A source that was observed at some path.
pub open spec fn is_tracked(store: StoreView, id: i64) -> bool {
    exists|path: Seq<char>|
        store.paths.dom().contains(path) && #[trigger] was_at(store, path, id)
}

/// The first `count` sources that were observed at no path.
pub open spec fn untracked_among(store: StoreView, ids: Seq<i64>, count: nat) -> Seq<i64>
    decreases count,
{
    if count == 0 || count > ids.len() {
        Seq::empty()
    } else {
        let head = untracked_among(store, ids, (count - 1) as nat);
        if is_tracked(store, ids[count - 1]) {
            head
        } else {
            head.push(ids[count - 1])
        }
    }
}

/// The status of the first `count` sources that were asked for.
pub open spec fn status_of(store: StoreView, ids: Seq<i64>, count: nat) -> Result<
    StatusView,
    AppErrorView,
>
    decreases count,
{
    if count == 0 || count > ids.len() {
        Ok(StatusView { targets: Seq::empty(), untracked_source_ids: Seq::empty() })
    } else {
        match status_of(store, ids, (count - 1) as nat) {
            Err(e) => Err(e),
            Ok(so_far) => {
                let id = ids[count - 1];
                let found = all_targets(store, Some(id));
                if !store.sources.dom().contains(id) {
                    Err(pages::source_missing(id))
                } else if found.len() == 0 {
                    Ok(
                        StatusView {
                            untracked_source_ids: so_far.untracked_source_ids.push(id),
                            ..so_far
                        },
                    )
                } else {
                    Ok(StatusView { targets: so_far.targets + found, ..so_far })
                }
            },
        }
    }
}

/// The status of sources, or of all of them.
pub open spec fn status_goal(store: StoreView, ids: Seq<i64>, all: bool) -> Result<
    StatusView,
    AppErrorView,
> {
    let asked = pages::distinct(ids);
    if all {
        let every = table::ordered::<i64>(store.sources.dom());
        Ok(
            StatusView {
                targets: all_targets(store, None),
                untracked_source_ids: untracked_among(store, every, every.len()),
            },
        )
    } else if asked.len() == 0 {
        error::refused(
            ErrorCode::InvalidInput,
            "source status requires at least one source ID or --all"@,
        )
    } else {
        status_of(store, asked, asked.len())
    }
}

proof fn lemma_status_stop(store: StoreView, ids: Seq<i64>, count: nat, more: nat)
    requires
        count <= more <= ids.len(),
        status_of(store, ids, count) is Err,
    ensures
        status_of(store, ids, more) == status_of(store, ids, count),
    decreases more,
{
    if count < more {
        lemma_status_stop(store, ids, count, (more - 1) as nat);
    }
}

/// Whether a list of observations names a source.
fn names_source(log: &PathLog, id: i64) -> (r: bool)
    ensures
        r == exists|k: int| 0 <= k < log@.len() && (#[trigger] log@[k]).source_id == id,
{
    assert(log@.len() == log.list@.len());
    let mut i: usize = 0;
    while i < log.list.len()
        invariant
            i <= log.list@.len() == log@.len(),
            forall|k: int| 0 <= k < i ==> (#[trigger] log@[k]).source_id != id,
        decreases log.list@.len() - i,
    {
        assert(log@[i as int] == log.list@[i as int]@);
        if log.list[i].source_id == id {
            return true;
        }
        i += 1;
    }
    false
}

impl Store {
    /// All paths as the status shows them.
    fn list_targets(&self, asked: Option<i64>) -> (r: Vec<SourceStatusTarget>)
        ensures
            text::views(r@) == all_targets(self@, asked),
    {
        let n = self.paths.len();
        let ghost keys = self.paths.keys();
        proof {
            table::lemma_ordered_is::<String>(keys, self@.paths.dom());
        }
        let mut out: Vec<SourceStatusTarget> = Vec::new();
        assert(text::views(out@) =~= Seq::empty());
        let mut i: usize = 0;
        while i < n
            invariant
                i <= n == keys.len(),
                keys == self.paths.keys(),
                text::views(out@) == targets_among(self@, keys, asked, i as nat),
            decreases n - i,
        {
            let path = self.paths.key_at(i);
            let log = self.paths.value_at(i);
            assert(log@ == path_log(self@.paths, path@));
            assert(log@.len() == log.list@.len());
            let count = log.list.len();
            if count > 0 {
                let head = &log.list[count - 1];
                assert(log@.last() == head@);
                let relevant = match asked {
                    Some(id) => names_source(log, id),
                    None => true,
                };
                if let Some(source) = self.sources.get(&head.source_id) {
                    if relevant {
                        let target = SourceStatusTarget {
                            requested_source_id: match asked {
                                Some(id) => id,
                                None => head.source_id,
                            },
                            tracked_path: owned(path.as_str()),
                            head_source_id: head.source_id,
                            head_revision: head.revision,
                            head_content_hash: owned(source.content_hash.as_str()),
                        };
                        proof {
                            text::lemma_views_push(out@, target);
                        }
                        out.push(target);
                    }
                }
            }
            i += 1;
        }
        out
    }

    /// Whether a source was observed at some path.
    fn observed_somewhere(&self, id: i64) -> (r: bool)
        ensures
            r == is_tracked(self@, id),
    {
        let n = self.paths.len();
        let ghost keys = self.paths.keys();
        let mut i: usize = 0;
        while i < n
            invariant
                i <= n == keys.len(),
                keys == self.paths.keys(),
                forall|j: int| 0 <= j < i ==> !was_at(self@, #[trigger] keys[j], id),
            decreases n - i,
        {
            let log = self.paths.value_at(i);
            assert(log@ == path_log(self@.paths, keys[i as int]));
            if names_source(log, id) {
                assert(was_at(self@, keys[i as int], id));
                return true;
            }
            i += 1;
        }
        proof {
            assert forall|path: Seq<char>| self@.paths.dom().contains(path) implies !(
            #[trigger] was_at(self@, path, id)) by {
                assert(keys.to_set().contains(path));
                let j = keys.index_of(path);
                assert(keys[j] == path);
            }
        }
        false
    }

    /// The tracked paths of sources, or of all of them, and the sources without one.
    pub fn source_status_targets(&self, source_ids: &Vec<i64>, all: bool) -> (r: Result<
        SourceStatusTargets,
        AppError,
    >)
        ensures
            error::outcome(r) == status_goal(self@, source_ids@, all),
    {
        let asked = dedupe_i64(source_ids);
        if all {
            let targets = self.list_targets(None);
            let n = self.sources.len();
            let ghost keys = self.sources.keys();
            proof {
                table::lemma_ordered_is::<i64>(keys, self@.sources.dom());
            }
            let mut untracked: Vec<i64> = Vec::new();
            let mut i: usize = 0;
            while i < n
                invariant
                    i <= n == keys.len(),
                    keys == self.sources.keys(),
                    untracked@ == untracked_among(self@, keys, i as nat),
                decreases n - i,
            {
                let id = *self.sources.key_at(i);
                if !self.observed_somewhere(id) {
                    untracked.push(id);
                }
                i += 1;
            }
            return Ok(SourceStatusTargets { targets, untracked_source_ids: untracked });
        }
        if asked.len() == 0 {
            return Err(
                AppError::new(
                    ErrorCode::InvalidInput,
                    "source status requires at least one source ID or --all",
                ),
            );
        }
        let mut targets: Vec<SourceStatusTarget> = Vec::new();
        assert(text::views(targets@) =~= Seq::empty());
        let mut untracked: Vec<i64> = Vec::new();
        let mut i: usize = 0;
        while i < asked.len()
            invariant
                i <= asked@.len(),
                status_of(self@, asked@, i as nat) == Ok::<StatusView, AppErrorView>(
                    StatusView {
                        targets: text::views(targets@),
                        untracked_source_ids: untracked@,
                    },
                ),
            decreases asked@.len() - i,
        {
            let id = asked[i];
            if !self.sources.has(&id) {
                proof {
                    lemma_status_stop(self@, asked@, (i + 1) as nat, asked@.len());
                }
                return Err(source_missing_error(id));
            }
            let mut found = self.list_targets(Some(id));
            let ghost more = text::views(found@);
            assert(more.len() == found@.len());
            if found.len() == 0 {
                untracked.push(id);
            } else {
                let ghost was = targets@;
                let ghost added = found@;
                targets.append(&mut found);
                assert(text::views(targets@) =~= text::views(was) + more);
            }
            i += 1;
        }
        Ok(SourceStatusTargets { targets, untracked_source_ids: untracked })
    }
}

// ---------------------------------------------------------------------------
// Removing sources
// ---------------------------------------------------------------------------

/// The observations of other sources.
pub open spec fn of_others(log: Seq<PathRevisionView>, id: i64) -> Seq<PathRevisionView>
    decreases log.len(),
{
    if log.len() == 0 {
        Seq::empty()
    } else {
        let head = of_others(log.drop_last(), id);
        if log.last().source_id == id {
            head
        } else {
            head.push(log.last())
        }
    }
}

/// What the removal of a source does to the tracked paths.
#[verifier::ext_equal]
pub struct UntrackingView {
    pub paths: Map<Seq<char>, Seq<PathRevisionView>>,
    pub removed: nat,
    pub affected: Seq<Seq<char>>,
    pub untracked: Seq<Seq<char>>,
}

/// What the removal of a source does to the first `count` paths: one that shows the
/// source is no longer tracked, another one forgets that it showed it.
pub open spec fn untracking(
    paths: Map<Seq<char>, Seq<PathRevisionView>>,
    names: Seq<Seq<char>>,
    id: i64,
    count: nat,
) -> UntrackingView
    decreases count,
{
    if count == 0 || count > names.len() {
        UntrackingView {
            paths,
            removed: 0,
            affected: Seq::empty(),
            untracked: Seq::empty(),
        }
    } else {
        let so_far = untracking(paths, names, id, (count - 1) as nat);
        let path = names[count - 1];
        let log = paths[path];
        let kept = of_others(log, id);
        if kept.len() == log.len() {
            so_far
        } else if log.last().source_id == id {
            UntrackingView {
                paths: so_far.paths.remove(path),
                removed: so_far.removed + log.len(),
                affected: so_far.affected.push(path),
                untracked: so_far.untracked.push(path),
            }
        } else {
            UntrackingView {
                paths: so_far.paths.insert(path, kept),
                removed: (so_far.removed + log.len() - kept.len()) as nat,
                affected: so_far.affected.push(path),
                untracked: so_far.untracked,
            }
        }
    }
}

/// What the removal of a source does to the tracked paths.
pub open spec fn all_untracking(store: StoreView, id: i64) -> UntrackingView {
    let names = table::ordered::<String>(store.paths.dom());
    untracking(store.paths, names, id, names.len())
}

/// The error for a source that pages cite.
pub open spec fn source_in_use(id: i64, count: nat) -> AppErrorView {
    error::app_error(
        ErrorCode::SourceInUse,
        "source "@ + text::decimal(id as int) + " is cited by "@ + text::natural(count)
            + " Wiki page(s)"@,
    )
}

/// What the log says of a removed source.
pub open spec fn source_remove_detail(change: UntrackingView) -> JsonView {
    JsonView::Object(
        seq![
            json::entry("affected_paths"@, pages::texts_json(change.affected)),
            json::entry("removed_path_revisions"@, json::count_view(change.removed)),
            json::entry("untracked_paths"@, pages::texts_json(change.untracked)),
        ],
    )
}

/// The store without a source and its job.
pub open spec fn source_dropped(store: StoreView, id: i64) -> StoreView {
    StoreView {
        sources: store.sources.remove(id),
        ingest_jobs: store.ingest_jobs.remove(id),
        ..store
    }
}

/// What removing a source comes to.
pub open spec fn source_remove_goal(
    store: StoreView,
    id: i64,
    now: Seq<char>,
    revision: Seq<char>,
) -> Result<StoreView, AppErrorView> {
    if !store.sources.dom().contains(id) {
        Err(pages::source_missing(id))
    } else if citing(store, id).len() > 0 {
        Err(source_in_use(id, citing(store, id).len()))
    } else {
        let change = all_untracking(store, id);
        let quiet = pages::forgotten(
            StoreView {
                paths: change.paths,
                spans: spans::deactivated(store.spans, "source"@, text::decimal(id as int)),
                ..store
            },
            "source"@,
            text::decimal(id as int),
        );
        store::recorded(
            source_dropped(quiet, id),
            "source_remove"@,
            text::decimal(id as int),
            source_remove_detail(change),
            now,
            revision,
        )
    }
}

/// A source that was removed.
pub struct SourceRemoveResponse {
    pub scope: String,
    pub database: String,
    pub source_id: i64,
    pub removed_path_revisions: u128,
    pub untracked_paths: Vec<String>,
}

proof fn lemma_others_len(log: Seq<PathRevisionView>, id: i64)
    ensures
        of_others(log, id).len() <= log.len(),
    decreases log.len(),
{
    if log.len() > 0 {
        lemma_others_len(log.drop_last(), id);
    }
}

/// The observations of other sources.
pub fn keep_others(log: &PathLog, id: i64) -> (r: PathLog)
    ensures
        r@ == of_others(log@, id),
{
    let mut list: Vec<PathRevision> = Vec::new();
    assert(text::views(list@) =~= Seq::empty());
    assert(log@.len() == log.list@.len());
    let mut i: usize = 0;
    while i < log.list.len()
        invariant
            i <= log.list@.len() == log@.len(),
            text::views(list@) == of_others(log@.take(i as int), id),
        decreases log.list@.len() - i,
    {
        assert(log@.take(i + 1).drop_last() =~= log@.take(i as int));
        assert(log@.take(i + 1).last() == log.list@[i as int]@);
        if log.list[i].source_id != id {
            let kept = log.list[i].duplicate();
            proof {
                text::lemma_views_push(list@, kept);
            }
            list.push(kept);
        }
        i += 1;
    }
    assert(log@.take(i as int) =~= log@);
    PathLog { list }
}

impl Store {
    /// Drops a source and its job.
    pub fn drop_source(&mut self, id: i64)
        ensures
            final(self)@ == source_dropped(old(self)@, id),
    {
        self.sources.remove(&id);
        self.ingest_jobs.remove(&id);
    }

    /// Removes a source that no page cites.
    pub fn source_remove(&mut self, id: i64, now: &str, revision: &str) -> (r: Result<
        SourceRemoveResponse,
        AppError,
    >)
        ensures
            store::settled(
                old(self)@,
                final(self)@,
                r,
                source_remove_goal(old(self)@, id, now@, revision@),
            ),
            r matches Ok(done) ==> {
                &&& done.scope@ == old(self)@.scope
                &&& done.database@ == old(self)@.database
                &&& done.source_id == id
                &&& done.removed_path_revisions == all_untracking(old(self)@, id).removed
                &&& text::views(done.untracked_paths@) == all_untracking(
                    old(self)@,
                    id,
                ).untracked
            },
    {
        if !self.sources.has(&id) {
            return Err(source_missing_error(id));
        }
        let references = self.citing_pages(id);
        proof {
            text::lemma_ascending_len(text::views(references@));
            assert(text::views(references@).len() == references@.len());
        }
        if references.len() > 0 {
            return Err(
                AppError::new(
                    ErrorCode::SourceInUse,
                    join5(
                        "source ",
                        decimal_text(id).as_str(),
                        " is cited by ",
                        natural_text(references.len() as u128).as_str(),
                        " Wiki page(s)",
                    ).as_str(),
                ),
            );
        }
        let mut next = self.duplicate();
        let n = self.paths.len();
        let ghost names = self.paths.keys();
        proof {
            table::lemma_ordered_is::<String>(names, self@.paths.dom());
        }
        let mut removed: u128 = 0;
        let mut affected: Vec<String> = Vec::new();
        let mut untracked: Vec<String> = Vec::new();
        assert(text::views(affected@) =~= Seq::empty());
        assert(text::views(untracked@) =~= Seq::empty());
        let ghost start = next@;
        let mut i: usize = 0;
        while i < n
            invariant
                i <= n == names.len(),
                names == self.paths.keys(),
                removed <= i * 0xffff_ffff_ffff_ffff,
                next@ == (StoreView { paths: next@.paths, ..start }),
                untracking(self@.paths, names, id, i as nat) == (UntrackingView {
                    paths: next@.paths,
                    removed: removed as nat,
                    affected: text::views(affected@),
                    untracked: text::views(untracked@),
                }),
            decreases n - i,
        {
            let path = self.paths.key_at(i);
            let log = self.paths.value_at(i);
            assert(log@.len() == log.list@.len());
            let kept = keep_others(log, id);
            assert(kept@.len() == kept.list@.len());
            proof {
                lemma_others_len(log@, id);
            }
            let before = log.list.len();
            let after = kept.list.len();
            if after != before {
                let name = owned(path.as_str());
                proof {
                    text::lemma_views_push(affected@, name);
                }
                affected.push(name);
                assert(log@.last() == log.list@[before - 1]@);
                if log.list[before - 1].source_id == id {
                    let name = owned(path.as_str());
                    proof {
                        text::lemma_views_push(untracked@, name);
                    }
                    untracked.push(name);
                    next.paths.remove(path);
                    removed = removed + before as u128;
                } else {
                    next.paths.put(owned(path.as_str()), kept);
                    removed = removed + (before - after) as u128;
                }
            }
            i += 1;
        }
        let label = decimal_text(id);
        next.deactivate_search_spans("source", label.as_str());
        next.forget_target("source", label.as_str());
        next.drop_source(id);
        let ghost change = all_untracking(self@, id);
        let mut entries: Vec<(String, Json)> = Vec::new();
        entries.push((owned("affected_paths"), encode_texts(&affected)));
        entries.push((owned("removed_path_revisions"), Json::wide_count(removed)));
        entries.push((owned("untracked_paths"), encode_texts(&untracked)));
        assert(json::entry_views(entries@) =~= source_remove_detail(change)->Object_0);
        let detail = Json::object(entries);
        if let Err(e) = next.record_operation("source_remove", label.as_str(), detail, now, revision) {
            return Err(e);
        }
        *self = next;
        Ok(
            SourceRemoveResponse {
                scope: owned(self.scope.as_str()),
                database: owned(self.database.as_str()),
                source_id: id,
                removed_path_revisions: removed,
                untracked_paths: untracked,
            },
        )
    }
}

} // verus!
