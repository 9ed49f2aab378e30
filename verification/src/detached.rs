//! The intent of a sparse draft, detached from the store that it was staged in: what it
//! wants each source, page, tag and piece of metadata to become, in terms of content.
use crate::changesets;
use crate::error;
use crate::error::{AppError, AppErrorView, ErrorCode};
use crate::json::Json;
use crate::rows::{IngestRow, OperationRow, OperationView, SourceRow};
use crate::store;
use crate::store::{Store, StoreView};
use crate::table;
use crate::table::{
    copy_record_opt, copy_records, same_record_opt, same_records, Pair, PairView, Record, Table,
};
use crate::text;
use crate::text::{
    begins_with, byte_len, chars_of, copy_opt, copy_texts, lower_hex, owned, parse_i64, same_opt,
    same_text, same_texts,
};
use crate::touched;
use crate::touched::{ingest_action, keys_of, list_created_sources, tag_action};
use vstd::prelude::*;

verus! {

/// The most operations of a detached draft.
pub const MAX_ACTIONS: usize = 2048;

/// The most sources, pages, tags and pieces of metadata together.
pub const MAX_ITEMS: usize = 1024;

/// The most bytes of a detached intent, written out.
pub const MAX_METADATA_BYTES: usize = 8388608;

/// The most bytes of the sources that go with an intent.
pub const MAX_BLOB_BYTES: u64 = 8589934592;

/// Where the ingestion of a source stands.
pub struct DetachedIngestIntent {
    pub status: String,
    pub attempts: i64,
    pub analysis: Option<String>,
    pub no_derived_pages_reason: Option<String>,
}

#[verifier::ext_equal]
pub struct IngestIntentView {
    pub status: Seq<char>,
    pub attempts: i64,
    pub analysis: Option<Seq<char>>,
    pub no_derived_pages_reason: Option<Seq<char>>,
}

impl View for DetachedIngestIntent {
    type V = IngestIntentView;

    open spec fn view(&self) -> IngestIntentView {
        IngestIntentView {
            status: self.status@,
            attempts: self.attempts,
            analysis: text::opt_text(self.analysis),
            no_derived_pages_reason: text::opt_text(self.no_derived_pages_reason),
        }
    }
}

impl Record for DetachedIngestIntent {
    fn duplicate(&self) -> (r: Self) {
        DetachedIngestIntent {
            status: owned(self.status.as_str()),
            attempts: self.attempts,
            analysis: copy_opt(&self.analysis),
            no_derived_pages_reason: copy_opt(&self.no_derived_pages_reason),
        }
    }

    fn same(&self, other: &Self) -> (r: bool) {
        same_text(self.status.as_str(), other.status.as_str())
            && self.attempts == other.attempts
            && same_opt(&self.analysis, &other.analysis)
            && same_opt(&self.no_derived_pages_reason, &other.no_derived_pages_reason)
    }
}

/// A source of a detached draft.
pub struct DetachedSourceIntent {
    pub content_hash: String,
    pub title: Option<String>,
    /// The origin, where it means the same elsewhere.
    pub origin: Option<String>,
    pub structural_navigation: bool,
    pub base_fingerprint: String,
    /// The content goes with the intent.
    pub content_required: bool,
    pub ingest: DetachedIngestIntent,
}

#[verifier::ext_equal]
pub struct SourceIntentView {
    pub content_hash: Seq<char>,
    pub title: Option<Seq<char>>,
    pub origin: Option<Seq<char>>,
    pub structural_navigation: bool,
    pub base_fingerprint: Seq<char>,
    pub content_required: bool,
    pub ingest: IngestIntentView,
}

impl View for DetachedSourceIntent {
    type V = SourceIntentView;

    open spec fn view(&self) -> SourceIntentView {
        SourceIntentView {
            content_hash: self.content_hash@,
            title: text::opt_text(self.title),
            origin: text::opt_text(self.origin),
            structural_navigation: self.structural_navigation,
            base_fingerprint: self.base_fingerprint@,
            content_required: self.content_required,
            ingest: self.ingest@,
        }
    }
}

impl Record for DetachedSourceIntent {
    fn duplicate(&self) -> (r: Self) {
        DetachedSourceIntent {
            content_hash: owned(self.content_hash.as_str()),
            title: copy_opt(&self.title),
            origin: copy_opt(&self.origin),
            structural_navigation: self.structural_navigation,
            base_fingerprint: owned(self.base_fingerprint.as_str()),
            content_required: self.content_required,
            ingest: self.ingest.duplicate(),
        }
    }

    fn same(&self, other: &Self) -> (r: bool) {
        same_text(self.content_hash.as_str(), other.content_hash.as_str())
            && same_opt(&self.title, &other.title)
            && same_opt(&self.origin, &other.origin)
            && self.structural_navigation == other.structural_navigation
            && same_text(self.base_fingerprint.as_str(), other.base_fingerprint.as_str())
            && self.content_required == other.content_required
            && self.ingest.same(&other.ingest)
    }
}

/// What a page is to be.
pub struct DetachedPageAfterImage {
    pub title: String,
    pub kind: Option<String>,
    pub summary: Option<String>,
    pub body: String,
    pub source_hashes: Vec<String>,
    pub provenance: Vec<String>,
}

#[verifier::ext_equal]
pub struct PageAfterView {
    pub title: Seq<char>,
    pub kind: Option<Seq<char>>,
    pub summary: Option<Seq<char>>,
    pub body: Seq<char>,
    pub source_hashes: Seq<Seq<char>>,
    pub provenance: Seq<Seq<char>>,
}

impl View for DetachedPageAfterImage {
    type V = PageAfterView;

    open spec fn view(&self) -> PageAfterView {
        PageAfterView {
            title: self.title@,
            kind: text::opt_text(self.kind),
            summary: text::opt_text(self.summary),
            body: self.body@,
            source_hashes: text::views(self.source_hashes@),
            provenance: text::views(self.provenance@),
        }
    }
}

impl Record for DetachedPageAfterImage {
    fn duplicate(&self) -> (r: Self) {
        DetachedPageAfterImage {
            title: owned(self.title.as_str()),
            kind: copy_opt(&self.kind),
            summary: copy_opt(&self.summary),
            body: owned(self.body.as_str()),
            source_hashes: copy_texts(&self.source_hashes),
            provenance: copy_texts(&self.provenance),
        }
    }

    fn same(&self, other: &Self) -> (r: bool) {
        same_text(self.title.as_str(), other.title.as_str())
            && same_opt(&self.kind, &other.kind)
            && same_opt(&self.summary, &other.summary)
            && same_text(self.body.as_str(), other.body.as_str())
            && same_texts(&self.source_hashes, &other.source_hashes)
            && same_texts(&self.provenance, &other.provenance)
    }
}

/// A page of a detached draft; without an after-image it is removed.
pub struct DetachedPageIntent {
    pub slug: String,
    pub base_fingerprint: String,
    pub after: Option<DetachedPageAfterImage>,
}

#[verifier::ext_equal]
pub struct PageIntentView {
    pub slug: Seq<char>,
    pub base_fingerprint: Seq<char>,
    pub after: Option<PageAfterView>,
}

impl View for DetachedPageIntent {
    type V = PageIntentView;

    open spec fn view(&self) -> PageIntentView {
        PageIntentView {
            slug: self.slug@,
            base_fingerprint: self.base_fingerprint@,
            after: text::opt_view(self.after),
        }
    }
}

impl Record for DetachedPageIntent {
    fn duplicate(&self) -> (r: Self) {
        DetachedPageIntent {
            slug: owned(self.slug.as_str()),
            base_fingerprint: owned(self.base_fingerprint.as_str()),
            after: copy_record_opt(&self.after),
        }
    }

    fn same(&self, other: &Self) -> (r: bool) {
        same_text(self.slug.as_str(), other.slug.as_str())
            && same_text(self.base_fingerprint.as_str(), other.base_fingerprint.as_str())
            && same_record_opt(&self.after, &other.after)
    }
}

/// A page under a tag.
pub struct DetachedTagMembership {
    pub page_slug: String,
    pub priority: i64,
    pub reason: String,
}

#[verifier::ext_equal]
pub struct MembershipView {
    pub page_slug: Seq<char>,
    pub priority: i64,
    pub reason: Seq<char>,
}

impl View for DetachedTagMembership {
    type V = MembershipView;

    open spec fn view(&self) -> MembershipView {
        MembershipView {
            page_slug: self.page_slug@,
            priority: self.priority,
            reason: self.reason@,
        }
    }
}

impl Record for DetachedTagMembership {
    fn duplicate(&self) -> (r: Self) {
        DetachedTagMembership {
            page_slug: owned(self.page_slug.as_str()),
            priority: self.priority,
            reason: owned(self.reason.as_str()),
        }
    }

    fn same(&self, other: &Self) -> (r: bool) {
        same_text(self.page_slug.as_str(), other.page_slug.as_str())
            && self.priority == other.priority
            && same_text(self.reason.as_str(), other.reason.as_str())
    }
}

/// What a tag is to be.
pub struct DetachedTagAfterImage {
    pub autoload: bool,
    pub autoload_priority: i64,
    pub autoload_limit: i64,
    pub autoload_max_chars: i64,
    pub reason: String,
    pub memberships: Vec<DetachedTagMembership>,
}

#[verifier::ext_equal]
pub struct TagAfterView {
    pub autoload: bool,
    pub autoload_priority: i64,
    pub autoload_limit: i64,
    pub autoload_max_chars: i64,
    pub reason: Seq<char>,
    pub memberships: Seq<MembershipView>,
}

impl View for DetachedTagAfterImage {
    type V = TagAfterView;

    open spec fn view(&self) -> TagAfterView {
        TagAfterView {
            autoload: self.autoload,
            autoload_priority: self.autoload_priority,
            autoload_limit: self.autoload_limit,
            autoload_max_chars: self.autoload_max_chars,
            reason: self.reason@,
            memberships: text::views(self.memberships@),
        }
    }
}

impl Record for DetachedTagAfterImage {
    fn duplicate(&self) -> (r: Self) {
        DetachedTagAfterImage {
            autoload: self.autoload,
            autoload_priority: self.autoload_priority,
            autoload_limit: self.autoload_limit,
            autoload_max_chars: self.autoload_max_chars,
            reason: owned(self.reason.as_str()),
            memberships: copy_records(&self.memberships),
        }
    }

    fn same(&self, other: &Self) -> (r: bool) {
        self.autoload == other.autoload
            && self.autoload_priority == other.autoload_priority
            && self.autoload_limit == other.autoload_limit
            && self.autoload_max_chars == other.autoload_max_chars
            && same_text(self.reason.as_str(), other.reason.as_str())
            && same_records(&self.memberships, &other.memberships)
    }
}

/// A tag of a detached draft; without an after-image it is deleted.
pub struct DetachedTagIntent {
    pub name: String,
    pub base_fingerprint: String,
    pub after: Option<DetachedTagAfterImage>,
}

#[verifier::ext_equal]
pub struct TagIntentView {
    pub name: Seq<char>,
    pub base_fingerprint: Seq<char>,
    pub after: Option<TagAfterView>,
}

impl View for DetachedTagIntent {
    type V = TagIntentView;

    open spec fn view(&self) -> TagIntentView {
        TagIntentView {
            name: self.name@,
            base_fingerprint: self.base_fingerprint@,
            after: text::opt_view(self.after),
        }
    }
}

impl Record for DetachedTagIntent {
    fn duplicate(&self) -> (r: Self) {
        DetachedTagIntent {
            name: owned(self.name.as_str()),
            base_fingerprint: owned(self.base_fingerprint.as_str()),
            after: copy_record_opt(&self.after),
        }
    }

    fn same(&self, other: &Self) -> (r: bool) {
        same_text(self.name.as_str(), other.name.as_str())
            && same_text(self.base_fingerprint.as_str(), other.base_fingerprint.as_str())
            && same_record_opt(&self.after, &other.after)
    }
}

/// A piece of metadata of a detached draft.
pub struct DetachedMetaIntent {
    pub key: String,
    pub base_fingerprint: String,
    pub value: String,
}

#[verifier::ext_equal]
pub struct MetaIntentView {
    pub key: Seq<char>,
    pub base_fingerprint: Seq<char>,
    pub value: Seq<char>,
}

impl View for DetachedMetaIntent {
    type V = MetaIntentView;

    open spec fn view(&self) -> MetaIntentView {
        MetaIntentView {
            key: self.key@,
            base_fingerprint: self.base_fingerprint@,
            value: self.value@,
        }
    }
}

impl Record for DetachedMetaIntent {
    fn duplicate(&self) -> (r: Self) {
        DetachedMetaIntent {
            key: owned(self.key.as_str()),
            base_fingerprint: owned(self.base_fingerprint.as_str()),
            value: owned(self.value.as_str()),
        }
    }

    fn same(&self, other: &Self) -> (r: bool) {
        same_text(self.key.as_str(), other.key.as_str())
            && same_text(self.base_fingerprint.as_str(), other.base_fingerprint.as_str())
            && same_text(self.value.as_str(), other.value.as_str())
    }
}

/// A source whose content goes with an intent.
pub struct DetachedBlob {
    pub source_id: i64,
    pub content_hash: String,
    pub bytes: u64,
}

#[verifier::ext_equal]
pub struct BlobView {
    pub source_id: i64,
    pub content_hash: Seq<char>,
    pub bytes: u64,
}

impl View for DetachedBlob {
    type V = BlobView;

    open spec fn view(&self) -> BlobView {
        BlobView {
            source_id: self.source_id,
            content_hash: self.content_hash@,
            bytes: self.bytes,
        }
    }
}

impl Record for DetachedBlob {
    fn duplicate(&self) -> (r: Self) {
        DetachedBlob {
            source_id: self.source_id,
            content_hash: owned(self.content_hash.as_str()),
            bytes: self.bytes,
        }
    }

    fn same(&self, other: &Self) -> (r: bool) {
        self.source_id == other.source_id
            && same_text(self.content_hash.as_str(), other.content_hash.as_str())
            && self.bytes == other.bytes
    }
}

/// An operation of a detached draft.
pub enum DetachedChangesetAction {
    SourceAdd { content_hash: String },
    Ingest { action: String, content_hash: String },
    PagePut { slug: String },
    PageRemove { slug: String },
    Tag { action: String, name: String },
    MetaSet { key: String },
    Search,
}

#[verifier::ext_equal]
pub enum ActionView {
    SourceAdd { content_hash: Seq<char> },
    Ingest { action: Seq<char>, content_hash: Seq<char> },
    PagePut { slug: Seq<char> },
    PageRemove { slug: Seq<char> },
    Tag { action: Seq<char>, name: Seq<char> },
    MetaSet { key: Seq<char> },
    Search,
}

impl View for DetachedChangesetAction {
    type V = ActionView;

    open spec fn view(&self) -> ActionView {
        match self {
            DetachedChangesetAction::SourceAdd { content_hash } => ActionView::SourceAdd {
                content_hash: content_hash@,
            },
            DetachedChangesetAction::Ingest { action, content_hash } => ActionView::Ingest {
                action: action@,
                content_hash: content_hash@,
            },
            DetachedChangesetAction::PagePut { slug } => ActionView::PagePut { slug: slug@ },
            DetachedChangesetAction::PageRemove { slug } => ActionView::PageRemove { slug: slug@ },
            DetachedChangesetAction::Tag { action, name } => ActionView::Tag {
                action: action@,
                name: name@,
            },
            DetachedChangesetAction::MetaSet { key } => ActionView::MetaSet { key: key@ },
            DetachedChangesetAction::Search => ActionView::Search,
        }
    }
}

/// The intent of a draft.
pub struct DetachedChangesetIntent {
    pub version: i64,
    pub origin_changeset_id: String,
    pub name: String,
    pub actions: Vec<DetachedChangesetAction>,
    pub sources: Vec<DetachedSourceIntent>,
    pub pages: Vec<DetachedPageIntent>,
    pub tags: Vec<DetachedTagIntent>,
    pub meta: Vec<DetachedMetaIntent>,
}

#[verifier::ext_equal]
pub struct IntentView {
    pub version: i64,
    pub origin_changeset_id: Seq<char>,
    pub name: Seq<char>,
    pub actions: Seq<ActionView>,
    pub sources: Seq<SourceIntentView>,
    pub pages: Seq<PageIntentView>,
    pub tags: Seq<TagIntentView>,
    pub meta: Seq<MetaIntentView>,
}

impl View for DetachedChangesetIntent {
    type V = IntentView;

    open spec fn view(&self) -> IntentView {
        IntentView {
            version: self.version,
            origin_changeset_id: self.origin_changeset_id@,
            name: self.name@,
            actions: text::views(self.actions@),
            sources: text::views(self.sources@),
            pages: text::views(self.pages@),
            tags: text::views(self.tags@),
            meta: text::views(self.meta@),
        }
    }
}

/// The intent of a draft, and the sources whose content goes with it.
pub struct DetachedExport {
    pub intent: DetachedChangesetIntent,
    pub blobs: Vec<DetachedBlob>,
}

#[verifier::ext_equal]
pub struct ExportView {
    pub intent: IntentView,
    pub blobs: Seq<BlobView>,
}

impl View for DetachedExport {
    type V = ExportView;

    open spec fn view(&self) -> ExportView {
        ExportView {
            intent: self.intent@,
            blobs: text::views(self.blobs@),
        }
    }
}

// ---------------------------------------------------------------------------
// Sources
// ---------------------------------------------------------------------------

/// An origin that is a place on one machine.
pub open spec fn is_absolute(origin: Seq<char>) -> bool {
    ||| origin.len() >= 1 && (origin[0] == '/' || origin[0] == '\\')
    ||| {
        &&& origin.len() >= 3
        &&& ('a' <= origin[0] <= 'z' || 'A' <= origin[0] <= 'Z')
        &&& origin[1] == ':'
        &&& (origin[2] == '/' || origin[2] == '\\')
    }
}

/// An origin, where it means the same elsewhere.
pub open spec fn portable(origin: Seq<char>) -> Option<Seq<char>> {
    if is_absolute(origin) {
        None
    } else {
        Some(origin)
    }
}

/// An origin, where it means the same elsewhere.
pub fn portable_detached_origin(origin: &str) -> (r: Option<String>)
    ensures
        text::opt_text(r) == portable(origin@),
{
    let c = chars_of(origin);
    let rooted = c.len() >= 1 && (c[0] == '/' || c[0] == '\\');
    let drive = c.len() >= 3 && (('a' <= c[0] && c[0] <= 'z') || ('A' <= c[0] && c[0] <= 'Z'))
        && c[1] == ':' && (c[2] == '/' || c[2] == '\\');
    if rooted || drive {
        None
    } else {
        Some(owned(origin))
    }
}

/// The content hash of a source of a store.
pub open spec fn hash_of(store: StoreView, id: i64) -> Option<Seq<char>> {
    if store.sources.dom().contains(id) {
        Some(store.sources[id].content_hash)
    } else {
        None
    }
}

fn find_hash(live: &Store, id: i64) -> (r: Option<String>)
    ensures
        text::opt_text(r) == hash_of(live@, id),
{
    match live.sources.get(&id) {
        Some(source) => Some(owned(source.content_hash.as_str())),
        None => None,
    }
}

/// The sources that the ingestion operations of a draft are about.
pub open spec fn ingested(operations: Seq<OperationView>) -> Result<Set<i64>, AppErrorView>
    decreases operations.len(),
{
    if operations.len() == 0 {
        Ok(Set::empty())
    } else {
        match ingested(operations.drop_last()) {
            Err(e) => Err(e),
            Ok(head) => {
                let op = operations.last();
                if "ingest_"@.is_prefix_of(op.action) {
                    match text::reads_as_i64(op.target) {
                        Some(id) => Ok(head.insert(id as i64)),
                        None => error::refused(
                            ErrorCode::ChangesetCorrupt,
                            "ingest action has an invalid source ID"@,
                        ),
                    }
                } else {
                    Ok(head)
                }
            },
        }
    }
}

proof fn lemma_ingested_stop(operations: Seq<OperationView>, count: int)
    requires
        0 <= count <= operations.len(),
        ingested(operations.take(count)) is Err,
    ensures
        ingested(operations) == ingested(operations.take(count)),
    decreases operations.len() - count,
{
    if count < operations.len() {
        assert(operations.take(count + 1).drop_last() =~= operations.take(count));
        lemma_ingested_stop(operations, count + 1);
    } else {
        assert(operations.take(count) =~= operations);
    }
}

/// Marks the sources that the ingestion operations of a draft are about.
fn mark_ingested(operations: &Vec<OperationRow>, marks: &mut Table<i64, bool>) -> (r: Result<
    (),
    AppError,
>)
    ensures
        match ingested(text::views(operations@)) {
            Ok(ids) => r is Ok && final(marks)@.dom() == old(marks)@.dom() + ids,
            Err(e) => r matches Err(got) && got@ == e,
        },
{
    let ghost all = text::views(operations@);
    let ghost start = marks@.dom();
    let mut i: usize = 0;
    assert(all.take(0) =~= Seq::<OperationView>::empty());
    assert(start + Set::<i64>::empty() =~= start);
    while i < operations.len()
        invariant
            i <= operations@.len() == all.len(),
            all == text::views(operations@),
            ingested(all.take(i as int)) is Ok,
            marks@.dom() == start + ingested(all.take(i as int))->Ok_0,
        decreases operations@.len() - i,
    {
        assert(all.take(i + 1).drop_last() =~= all.take(i as int));
        assert(all.take(i + 1).last() == operations@[i as int]@);
        let ghost before = ingested(all.take(i as int))->Ok_0;
        if begins_with(operations[i].action.as_str(), "ingest_") {
            match parse_i64(operations[i].target.as_str()) {
                Some(id) => {
                    marks.put(id, true);
                    assert((start + before).insert(id) =~= start + before.insert(id));
                },
                None => {
                    proof {
                        lemma_ingested_stop(all, i + 1);
                    }
                    return Err(
                        AppError::new(
                            ErrorCode::ChangesetCorrupt,
                            "ingest action has an invalid source ID",
                        ),
                    );
                },
            }
        }
        i += 1;
    }
    assert(all.take(i as int) =~= all);
    Ok(())
}

/// What is known of the sources of an intent so far.
#[verifier::ext_equal]
pub struct SourcesView {
    pub sources: Seq<SourceIntentView>,
    pub blobs: Seq<BlobView>,
    pub total: nat,
}

/// A source of the store, and how its ingestion stands, as an intent.
pub open spec fn source_intent(store: StoreView, id: i64, required: bool) -> SourceIntentView {
    let source = store.sources[id];
    let job = store.ingest_jobs[id];
    SourceIntentView {
        content_hash: source.content_hash,
        title: source.title,
        origin: portable(source.origin),
        structural_navigation: source.structural_navigation,
        base_fingerprint: if required {
            "absent"@
        } else {
            source.content_hash
        },
        content_required: required,
        ingest: IngestIntentView {
            status: job.status,
            attempts: job.attempts,
            analysis: job.analysis,
            no_derived_pages_reason: job.no_derived_pages_reason,
        },
    }
}

/// One more source of an intent.
pub open spec fn source_exported(
    store: StoreView,
    head: SourcesView,
    id: i64,
    required: bool,
) -> Result<SourcesView, AppErrorView> {
    if !store.sources.dom().contains(id) || !store.ingest_jobs.dom().contains(id) {
        error::refused(ErrorCode::ChangesetCorrupt, "staged source after-image is missing"@)
    } else if !text::is_lower_hex(store.sources[id].content_hash, 64) {
        error::refused(ErrorCode::ChangesetCorrupt, "invalid source content hash"@)
    } else {
        let bytes = text::byte_count(store.sources[id].content);
        if required && head.total + bytes > u64::MAX {
            error::refused(ErrorCode::ChangesetSyncLimit, "detached source byte count overflowed"@)
        } else if required && head.total + bytes > MAX_BLOB_BYTES {
            error::refused(
                ErrorCode::ChangesetSyncLimit,
                "detached source blobs exceed the Sync transfer byte limit"@,
            )
        } else {
            Ok(
                SourcesView {
                    sources: head.sources.push(source_intent(store, id, required)),
                    blobs: if required {
                        head.blobs.push(
                            BlobView {
                                source_id: id,
                                content_hash: store.sources[id].content_hash,
                                bytes: bytes as u64,
                            },
                        )
                    } else {
                        head.blobs
                    },
                    total: if required {
                        head.total + bytes
                    } else {
                        head.total
                    },
                },
            )
        }
    }
}

/// The first `count` sources of an intent.
pub open spec fn sources_exported(
    store: StoreView,
    ids: Seq<i64>,
    created: Set<i64>,
    count: nat,
) -> Result<SourcesView, AppErrorView>
    decreases count,
{
    if count == 0 || count > ids.len() {
        Ok(SourcesView { sources: Seq::empty(), blobs: Seq::empty(), total: 0 })
    } else {
        match sources_exported(store, ids, created, (count - 1) as nat) {
            Err(e) => Err(e),
            Ok(head) => source_exported(
                store,
                head,
                ids[count - 1],
                created.contains(ids[count - 1]),
            ),
        }
    }
}

proof fn lemma_sources_exported_stop(
    store: StoreView,
    ids: Seq<i64>,
    created: Set<i64>,
    count: nat,
    more: nat,
)
    requires
        count <= more <= ids.len(),
        sources_exported(store, ids, created, count) is Err,
    ensures
        sources_exported(store, ids, created, more) == sources_exported(store, ids, created, count),
    decreases more,
{
    if count < more {
        lemma_sources_exported_stop(store, ids, created, count, (more - 1) as nat);
    }
}

fn show_source(source: &SourceRow, job: &IngestRow, required: bool) -> (r: DetachedSourceIntent)
    ensures
        forall|store: StoreView, id: i64|
            #![trigger source_intent(store, id, required)]
            store.sources[id] == source@ && store.ingest_jobs[id] == job@ ==> r@ == source_intent(
                store,
                id,
                required,
            ),
{
    DetachedSourceIntent {
        content_hash: owned(source.content_hash.as_str()),
        title: copy_opt(&source.title),
        origin: portable_detached_origin(source.origin.as_str()),
        structural_navigation: source.structural_navigation,
        base_fingerprint: if required {
            owned("absent")
        } else {
            owned(source.content_hash.as_str())
        },
        content_required: required,
        ingest: DetachedIngestIntent {
            status: owned(job.status.as_str()),
            attempts: job.attempts,
            analysis: copy_opt(&job.analysis),
            no_derived_pages_reason: copy_opt(&job.no_derived_pages_reason),
        },
    }
}

/// The sources of an intent, and those whose content goes with it.
fn export_sources(live: &Store, ids: &Vec<i64>, created: &Table<i64, bool>) -> (r: Result<
    (Vec<DetachedSourceIntent>, Vec<DetachedBlob>),
    AppError,
>)
    ensures
        match sources_exported(live@, ids@, created@.dom(), ids@.len()) {
            Ok(done) => r matches Ok(got) && text::views(got.0@) == done.sources && text::views(
                got.1@,
            ) == done.blobs,
            Err(e) => r matches Err(got) && got@ == e,
        },
{
    let mut sources: Vec<DetachedSourceIntent> = Vec::new();
    let mut blobs: Vec<DetachedBlob> = Vec::new();
    let mut total: u64 = 0;
    assert(text::views(sources@) =~= Seq::empty());
    assert(text::views(blobs@) =~= Seq::empty());
    let mut i: usize = 0;
    while i < ids.len()
        invariant
            i <= ids@.len(),
            total <= MAX_BLOB_BYTES,
            sources_exported(live@, ids@, created@.dom(), i as nat) == Ok::<
                SourcesView,
                AppErrorView,
            >(
                SourcesView {
                    sources: text::views(sources@),
                    blobs: text::views(blobs@),
                    total: total as nat,
                },
            ),
        decreases ids@.len() - i,
    {
        let id = ids[i];
        let required = created.has(&id);
        proof {
            if sources_exported(live@, ids@, created@.dom(), (i + 1) as nat) is Err {
                lemma_sources_exported_stop(
                    live@,
                    ids@,
                    created@.dom(),
                    (i + 1) as nat,
                    ids@.len(),
                );
            }
        }
        let missing = AppError::new(
            ErrorCode::ChangesetCorrupt,
            "staged source after-image is missing",
        );
        let source = match live.sources.get(&id) {
            Some(source) => source,
            None => {
                return Err(missing);
            },
        };
        let job = match live.ingest_jobs.get(&id) {
            Some(job) => job,
            None => {
                return Err(missing);
            },
        };
        if !lower_hex(source.content_hash.as_str(), 64) {
            return Err(AppError::new(ErrorCode::ChangesetCorrupt, "invalid source content hash"));
        }
        let bytes = byte_len(source.content.as_str()) as u64;
        if required {
            if bytes > u64::MAX - total {
                return Err(
                    AppError::new(
                        ErrorCode::ChangesetSyncLimit,
                        "detached source byte count overflowed",
                    ),
                );
            }
            if total + bytes > MAX_BLOB_BYTES {
                return Err(
                    AppError::new(
                        ErrorCode::ChangesetSyncLimit,
                        "detached source blobs exceed the Sync transfer byte limit",
                    ),
                );
            }
            total = total + bytes;
            let blob = DetachedBlob {
                source_id: id,
                content_hash: owned(source.content_hash.as_str()),
                bytes,
            };
            proof {
                text::lemma_views_push(blobs@, blob);
            }
            blobs.push(blob);
        }
        let one = show_source(source, job, required);
        proof {
            assert(one@ == source_intent(live@, id, required));
            text::lemma_views_push(sources@, one);
        }
        sources.push(one);
        i += 1;
    }
    Ok((sources, blobs))
}

// ---------------------------------------------------------------------------
// Pages, tags and metadata
// ---------------------------------------------------------------------------

/// The content hash of a source that a page cites.
pub open spec fn cited_hash(store: StoreView, id: i64) -> Result<Seq<char>, AppErrorView> {
    match hash_of(store, id) {
        Some(hash) => Ok(hash),
        None => error::refused(ErrorCode::ChangesetCorrupt, "page cites a missing source"@),
    }
}

fn find_cited_hash(live: &Store, id: &i64) -> (r: Result<String, AppError>)
    ensures
        match cited_hash(live@, *id) {
            Ok(hash) => r matches Ok(got) && got@ == hash,
            Err(e) => r matches Err(got) && got@ == e,
        },
{
    match find_hash(live, *id) {
        Some(hash) => Ok(hash),
        None => Err(AppError::new(ErrorCode::ChangesetCorrupt, "page cites a missing source")),
    }
}

/// The content hashes of the first `count` sources that a page cites.
pub open spec fn cited_hashes(
    store: StoreView,
    items: Seq<i64>,
    count: nat,
) -> Result<Seq<Seq<char>>, AppErrorView>
    decreases count,
{
    if count == 0 || count > items.len() {
        Ok(Seq::empty())
    } else {
        match cited_hashes(store, items, (count - 1) as nat) {
            Err(e) => Err(e),
            Ok(head) => match cited_hash(store, items[count - 1]) {
                Err(e) => Err(e),
                Ok(one) => Ok(head.push(one)),
            },
        }
    }
}

proof fn lemma_cited_hashes_stop(
    store: StoreView,
    items: Seq<i64>,
    count: nat,
    more: nat,
)
    requires
        count <= more <= items.len(),
        cited_hashes(store, items, count) is Err,
    ensures
        cited_hashes(store, items, more) == cited_hashes(store, items, count),
    decreases more,
{
    if count < more {
        lemma_cited_hashes_stop(store, items, count, (more - 1) as nat);
    }
}

/// The content hashes of the first `count` sources that a page cites.
fn find_cited_hashes(
    live: &Store,
    items: &Vec<i64>,
) -> (r: Result<Vec<String>, AppError>)
    ensures
        match cited_hashes(live@, text::views(items@), items@.len()) {
            Ok(list) => r matches Ok(got) && text::views(got@) == list,
            Err(e) => r matches Err(got) && got@ == e,
        },
{
    let ghost all = text::views(items@);
    let mut out: Vec<String> = Vec::new();
    assert(text::views(out@) =~= Seq::empty());
    let mut i: usize = 0;
    while i < items.len()
        invariant
            i <= items@.len() == all.len(),
            all == text::views(items@),
            cited_hashes(live@, all, i as nat) == Ok::<Seq<Seq<char>>, AppErrorView>(
                text::views(out@),
            ),
        decreases items@.len() - i,
    {
        assert(all[i as int] == items@[i as int]@);
        match find_cited_hash(live, &items[i]) {
            Ok(one) => {
                proof {
                    text::lemma_views_push(out@, one);
                }
                out.push(one);
            },
            Err(e) => {
                proof {
                    lemma_cited_hashes_stop(live@, all, (i + 1) as nat, all.len());
                }
                return Err(e);
            },
        }
        i += 1;
    }
    Ok(out)
}

/// What a draft wants a page to be.
pub open spec fn page_intent(store: StoreView, touched: PairView) -> Result<
    PageIntentView,
    AppErrorView,
> {
    let slug = touched.first;
    if !store.pages.dom().contains(slug) {
        Ok(PageIntentView { slug, base_fingerprint: touched.second, after: None })
    } else {
        let page = store.pages[slug];
        match cited_hashes(store, page.source_ids, page.source_ids.len()) {
            Err(e) => Err(e),
            Ok(hashes) => Ok(
                PageIntentView {
                    slug,
                    base_fingerprint: touched.second,
                    after: Some(
                        PageAfterView {
                            title: page.title,
                            kind: page.kind,
                            summary: page.summary,
                            body: page.body,
                            source_hashes: hashes,
                            provenance: page.provenance,
                        },
                    ),
                },
            ),
        }
    }
}

fn show_page(live: &Store, touched: &Pair) -> (r: Result<DetachedPageIntent, AppError>)
    ensures
        error::outcome(r) == page_intent(live@, touched@),
{
    let slug = owned(touched.first.as_str());
    let base_fingerprint = owned(touched.second.as_str());
    let page = match live.pages.get(&touched.first) {
        Some(page) => page,
        None => {
            return Ok(DetachedPageIntent { slug, base_fingerprint, after: None });
        },
    };
    assert(text::views(page.source_ids@) =~= page.source_ids@);
    match find_cited_hashes(live, &page.source_ids) {
        Err(e) => Err(e),
        Ok(hashes) => Ok(
            DetachedPageIntent {
                slug,
                base_fingerprint,
                after: Some(
                    DetachedPageAfterImage {
                        title: owned(page.title.as_str()),
                        kind: copy_opt(&page.kind),
                        summary: copy_opt(&page.summary),
                        body: owned(page.body.as_str()),
                        source_hashes: hashes,
                        provenance: copy_texts(&page.provenance),
                    },
                ),
            },
        ),
    }
}

/// The first `count` pages of an intent.
pub open spec fn page_intents(
    store: StoreView,
    items: Seq<PairView>,
    count: nat,
) -> Result<Seq<PageIntentView>, AppErrorView>
    decreases count,
{
    if count == 0 || count > items.len() {
        Ok(Seq::empty())
    } else {
        match page_intents(store, items, (count - 1) as nat) {
            Err(e) => Err(e),
            Ok(head) => match page_intent(store, items[count - 1]) {
                Err(e) => Err(e),
                Ok(one) => Ok(head.push(one)),
            },
        }
    }
}

proof fn lemma_page_intents_stop(
    store: StoreView,
    items: Seq<PairView>,
    count: nat,
    more: nat,
)
    requires
        count <= more <= items.len(),
        page_intents(store, items, count) is Err,
    ensures
        page_intents(store, items, more) == page_intents(store, items, count),
    decreases more,
{
    if count < more {
        lemma_page_intents_stop(store, items, count, (more - 1) as nat);
    }
}

/// The first `count` pages of an intent.
fn show_pages(
    live: &Store,
    items: &Vec<Pair>,
) -> (r: Result<Vec<DetachedPageIntent>, AppError>)
    ensures
        match page_intents(live@, text::views(items@), items@.len()) {
            Ok(list) => r matches Ok(got) && text::views(got@) == list,
            Err(e) => r matches Err(got) && got@ == e,
        },
{
    let ghost all = text::views(items@);
    let mut out: Vec<DetachedPageIntent> = Vec::new();
    assert(text::views(out@) =~= Seq::empty());
    let mut i: usize = 0;
    while i < items.len()
        invariant
            i <= items@.len() == all.len(),
            all == text::views(items@),
            page_intents(live@, all, i as nat) == Ok::<Seq<PageIntentView>, AppErrorView>(
                text::views(out@),
            ),
        decreases items@.len() - i,
    {
        assert(all[i as int] == items@[i as int]@);
        match show_page(live, &items[i]) {
            Ok(one) => {
                proof {
                    text::lemma_views_push(out@, one);
                }
                out.push(one);
            },
            Err(e) => {
                proof {
                    lemma_page_intents_stop(live@, all, (i + 1) as nat, all.len());
                }
                return Err(e);
            },
        }
        i += 1;
    }
    Ok(out)
}

/// What a draft wants a tag to be.
pub open spec fn tag_after(store: StoreView, name: Seq<char>) -> Option<TagAfterView> {
    if store.tags.dom().contains(name) {
        let tag = store.tags[name];
        Some(
            TagAfterView {
                autoload: tag.policy.autoload,
                autoload_priority: tag.policy.autoload_priority,
                autoload_limit: tag.policy.autoload_limit,
                autoload_max_chars: tag.policy.autoload_max_chars,
                reason: tag.policy.reason,
                memberships: table::ordered::<String>(tag.members.dom()).map_values(
                    |slug: Seq<char>|
                        MembershipView {
                            page_slug: slug,
                            priority: tag.members[slug].priority,
                            reason: tag.members[slug].reason,
                        },
                ),
            },
        )
    } else {
        None
    }
}

/// What a draft wants a tag to be.
pub open spec fn tag_intent(store: StoreView, touched: PairView) -> Result<
    TagIntentView,
    AppErrorView,
> {
    Ok(
        TagIntentView {
            name: touched.first,
            base_fingerprint: touched.second,
            after: tag_after(store, touched.first),
        },
    )
}

/// What a store holds of a tag, without its times.
pub fn show_tag_after(live: &Store, name: &String) -> (r: Option<DetachedTagAfterImage>)
    ensures
        text::opt_view(r) == tag_after(live@, name@),
{
    let tag = match live.tags.get(name) {
        Some(tag) => tag,
        None => {
            return None;
        },
    };
    let ghost goal = tag_after(live@, name@)->0.memberships;
    let ghost keys = tag.members.keys();
    let n = tag.members.len();
    proof {
        table::lemma_ordered_is::<String>(keys, tag.members@.dom());
    }
    let mut memberships: Vec<DetachedTagMembership> = Vec::new();
    let mut i: usize = 0;
    while i < n
        invariant
            i <= n == keys.len(),
            keys == tag.members.keys(),
            goal.len() == n,
            text::views(memberships@) =~= goal.take(i as int),
        decreases n - i,
    {
        let slug = tag.members.key_at(i);
        let member = tag.members.value_at(i);
        let one = DetachedTagMembership {
            page_slug: owned(slug.as_str()),
            priority: member.priority,
            reason: owned(member.reason.as_str()),
        };
        proof {
            assert(one@ == goal[i as int]);
            text::lemma_views_push(memberships@, one);
            assert(goal.take(i + 1) =~= goal.take(i as int).push(goal[i as int]));
        }
        memberships.push(one);
        i += 1;
    }
    assert(goal.take(n as int) =~= goal);
    Some(
        DetachedTagAfterImage {
            autoload: tag.policy.autoload,
            autoload_priority: tag.policy.autoload_priority,
            autoload_limit: tag.policy.autoload_limit,
            autoload_max_chars: tag.policy.autoload_max_chars,
            reason: owned(tag.policy.reason.as_str()),
            memberships,
        },
    )
}

fn show_tag(live: &Store, touched: &Pair) -> (r: Result<DetachedTagIntent, AppError>)
    ensures
        error::outcome(r) == tag_intent(live@, touched@),
{
    Ok(
        DetachedTagIntent {
            name: owned(touched.first.as_str()),
            base_fingerprint: owned(touched.second.as_str()),
            after: show_tag_after(live, &touched.first),
        },
    )
}

/// The first `count` tags of an intent.
pub open spec fn tag_intents(
    store: StoreView,
    items: Seq<PairView>,
    count: nat,
) -> Result<Seq<TagIntentView>, AppErrorView>
    decreases count,
{
    if count == 0 || count > items.len() {
        Ok(Seq::empty())
    } else {
        match tag_intents(store, items, (count - 1) as nat) {
            Err(e) => Err(e),
            Ok(head) => match tag_intent(store, items[count - 1]) {
                Err(e) => Err(e),
                Ok(one) => Ok(head.push(one)),
            },
        }
    }
}

proof fn lemma_tag_intents_stop(
    store: StoreView,
    items: Seq<PairView>,
    count: nat,
    more: nat,
)
    requires
        count <= more <= items.len(),
        tag_intents(store, items, count) is Err,
    ensures
        tag_intents(store, items, more) == tag_intents(store, items, count),
    decreases more,
{
    if count < more {
        lemma_tag_intents_stop(store, items, count, (more - 1) as nat);
    }
}

/// The first `count` tags of an intent.
fn show_tags(
    live: &Store,
    items: &Vec<Pair>,
) -> (r: Result<Vec<DetachedTagIntent>, AppError>)
    ensures
        match tag_intents(live@, text::views(items@), items@.len()) {
            Ok(list) => r matches Ok(got) && text::views(got@) == list,
            Err(e) => r matches Err(got) && got@ == e,
        },
{
    let ghost all = text::views(items@);
    let mut out: Vec<DetachedTagIntent> = Vec::new();
    assert(text::views(out@) =~= Seq::empty());
    let mut i: usize = 0;
    while i < items.len()
        invariant
            i <= items@.len() == all.len(),
            all == text::views(items@),
            tag_intents(live@, all, i as nat) == Ok::<Seq<TagIntentView>, AppErrorView>(
                text::views(out@),
            ),
        decreases items@.len() - i,
    {
        assert(all[i as int] == items@[i as int]@);
        match show_tag(live, &items[i]) {
            Ok(one) => {
                proof {
                    text::lemma_views_push(out@, one);
                }
                out.push(one);
            },
            Err(e) => {
                proof {
                    lemma_tag_intents_stop(live@, all, (i + 1) as nat, all.len());
                }
                return Err(e);
            },
        }
        i += 1;
    }
    Ok(out)
}

/// What a draft wants a piece of metadata to be.
pub open spec fn meta_intent(store: StoreView, touched: PairView) -> Result<
    MetaIntentView,
    AppErrorView,
> {
    if touched.first != "schema"@ && touched.first != "purpose"@ {
        error::refused(ErrorCode::ChangesetCorrupt, "unsupported detached meta key"@)
    } else {
        match store::meta_value(store, touched.first) {
            None => Err(store::no_rows()),
            Some(value) => Ok(
                MetaIntentView { key: touched.first, base_fingerprint: touched.second, value },
            ),
        }
    }
}

fn show_meta(live: &Store, touched: &Pair) -> (r: Result<DetachedMetaIntent, AppError>)
    ensures
        error::outcome(r) == meta_intent(live@, touched@),
{
    if !same_text(touched.first.as_str(), "schema") && !same_text(
        touched.first.as_str(),
        "purpose",
    ) {
        return Err(AppError::new(ErrorCode::ChangesetCorrupt, "unsupported detached meta key"));
    }
    match live.meta_text(touched.first.as_str()) {
        None => Err(store::no_rows_error()),
        Some(value) => Ok(
            DetachedMetaIntent {
                key: owned(touched.first.as_str()),
                base_fingerprint: owned(touched.second.as_str()),
                value,
            },
        ),
    }
}

/// The first `count` pieces of metadata of an intent.
pub open spec fn meta_intents(
    store: StoreView,
    items: Seq<PairView>,
    count: nat,
) -> Result<Seq<MetaIntentView>, AppErrorView>
    decreases count,
{
    if count == 0 || count > items.len() {
        Ok(Seq::empty())
    } else {
        match meta_intents(store, items, (count - 1) as nat) {
            Err(e) => Err(e),
            Ok(head) => match meta_intent(store, items[count - 1]) {
                Err(e) => Err(e),
                Ok(one) => Ok(head.push(one)),
            },
        }
    }
}

proof fn lemma_meta_intents_stop(
    store: StoreView,
    items: Seq<PairView>,
    count: nat,
    more: nat,
)
    requires
        count <= more <= items.len(),
        meta_intents(store, items, count) is Err,
    ensures
        meta_intents(store, items, more) == meta_intents(store, items, count),
    decreases more,
{
    if count < more {
        lemma_meta_intents_stop(store, items, count, (more - 1) as nat);
    }
}

/// The first `count` pieces of metadata of an intent.
fn show_metas(
    live: &Store,
    items: &Vec<Pair>,
) -> (r: Result<Vec<DetachedMetaIntent>, AppError>)
    ensures
        match meta_intents(live@, text::views(items@), items@.len()) {
            Ok(list) => r matches Ok(got) && text::views(got@) == list,
            Err(e) => r matches Err(got) && got@ == e,
        },
{
    let ghost all = text::views(items@);
    let mut out: Vec<DetachedMetaIntent> = Vec::new();
    assert(text::views(out@) =~= Seq::empty());
    let mut i: usize = 0;
    while i < items.len()
        invariant
            i <= items@.len() == all.len(),
            all == text::views(items@),
            meta_intents(live@, all, i as nat) == Ok::<Seq<MetaIntentView>, AppErrorView>(
                text::views(out@),
            ),
        decreases items@.len() - i,
    {
        assert(all[i as int] == items@[i as int]@);
        match show_meta(live, &items[i]) {
            Ok(one) => {
                proof {
                    text::lemma_views_push(out@, one);
                }
                out.push(one);
            },
            Err(e) => {
                proof {
                    lemma_meta_intents_stop(live@, all, (i + 1) as nat, all.len());
                }
                return Err(e);
            },
        }
        i += 1;
    }
    Ok(out)
}

// ---------------------------------------------------------------------------
// Operations
// ---------------------------------------------------------------------------

/// An operation in terms of content.
pub open spec fn detached_action(store: StoreView, op: OperationView) -> Result<
    ActionView,
    AppErrorView,
> {
    if !(op.detail is Object) {
        error::refused(
            ErrorCode::ChangesetCorrupt,
            "changeset operation detail is not an object"@,
        )
    } else if op.action == "source_add"@ {
        match op.detail.int_at("source_id"@) {
            None => error::refused(ErrorCode::ChangesetCorrupt, "source_add lacks source_id"@),
            Some(id) => match hash_of(store, id) {
                Some(content_hash) => Ok(ActionView::SourceAdd { content_hash }),
                None => error::refused(
                    ErrorCode::ChangesetCorrupt,
                    "source_add references a missing source"@,
                ),
            },
        }
    } else if touched::is_ingest_action(op.action) {
        match text::reads_as_i64(op.target) {
            None => error::refused(
                ErrorCode::ChangesetCorrupt,
                "ingest action has an invalid source ID"@,
            ),
            Some(id) => match hash_of(store, id as i64) {
                Some(content_hash) => Ok(ActionView::Ingest { action: op.action, content_hash }),
                None => error::refused(
                    ErrorCode::ChangesetCorrupt,
                    "ingest action references a missing source"@,
                ),
            },
        }
    } else if op.action == "page_put"@ {
        Ok(ActionView::PagePut { slug: op.target })
    } else if op.action == "page_remove"@ {
        Ok(ActionView::PageRemove { slug: op.target })
    } else if touched::is_tag_action(op.action) {
        match op.detail.text_at("tag"@) {
            None => error::refused(ErrorCode::ChangesetCorrupt, "tag action lacks tag"@),
            Some(name) => Ok(ActionView::Tag { action: op.action, name }),
        }
    } else if op.action == "schema_set"@ {
        Ok(ActionView::MetaSet { key: "schema"@ })
    } else if op.action == "purpose_set"@ {
        Ok(ActionView::MetaSet { key: "purpose"@ })
    } else if op.action == "search"@ {
        Ok(ActionView::Search)
    } else {
        error::refused(ErrorCode::ChangesetCorrupt, "unsupported detached changeset action"@)
    }
}

fn detach_source_add(live: &Store, op: &OperationRow) -> (r: Result<
    DetachedChangesetAction,
    AppError,
>)
    requires
        op@.detail is Object,
        op@.action == "source_add"@,
    ensures
        error::outcome(r) == detached_action(live@, op@),
{
    match op.detail.int_at("source_id") {
        None => Err(AppError::new(ErrorCode::ChangesetCorrupt, "source_add lacks source_id")),
        Some(id) => match find_hash(live, id) {
            Some(content_hash) => Ok(DetachedChangesetAction::SourceAdd { content_hash }),
            None => Err(
                AppError::new(
                    ErrorCode::ChangesetCorrupt,
                    "source_add references a missing source",
                ),
            ),
        },
    }
}

fn detach_ingest(live: &Store, op: &OperationRow) -> (r: Result<DetachedChangesetAction, AppError>)
    requires
        op@.detail is Object,
        op@.action != "source_add"@,
        touched::is_ingest_action(op@.action),
    ensures
        error::outcome(r) == detached_action(live@, op@),
{
    match parse_i64(op.target.as_str()) {
        None => Err(
            AppError::new(ErrorCode::ChangesetCorrupt, "ingest action has an invalid source ID"),
        ),
        Some(id) => match find_hash(live, id) {
            Some(content_hash) => Ok(
                DetachedChangesetAction::Ingest { action: owned(op.action.as_str()), content_hash },
            ),
            None => Err(
                AppError::new(
                    ErrorCode::ChangesetCorrupt,
                    "ingest action references a missing source",
                ),
            ),
        },
    }
}

fn detach_action(live: &Store, op: &OperationRow) -> (r: Result<DetachedChangesetAction, AppError>)
    ensures
        error::outcome(r) == detached_action(live@, op@),
{
    let structured = match &op.detail {
        Json::Object(_) => true,
        _ => false,
    };
    if !structured {
        return Err(
            AppError::new(
                ErrorCode::ChangesetCorrupt,
                "changeset operation detail is not an object",
            ),
        );
    }
    let action = op.action.as_str();
    if same_text(action, "source_add") {
        return detach_source_add(live, op);
    }
    if ingest_action(action) {
        return detach_ingest(live, op);
    }
    if same_text(action, "page_put") {
        return Ok(DetachedChangesetAction::PagePut { slug: owned(op.target.as_str()) });
    }
    if same_text(action, "page_remove") {
        return Ok(DetachedChangesetAction::PageRemove { slug: owned(op.target.as_str()) });
    }
    if tag_action(action) {
        return match op.detail.text_at("tag") {
            None => Err(AppError::new(ErrorCode::ChangesetCorrupt, "tag action lacks tag")),
            Some(name) => Ok(
                DetachedChangesetAction::Tag { action: owned(action), name: owned(name.as_str()) },
            ),
        };
    }
    if same_text(action, "schema_set") {
        return Ok(DetachedChangesetAction::MetaSet { key: owned("schema") });
    }
    if same_text(action, "purpose_set") {
        return Ok(DetachedChangesetAction::MetaSet { key: owned("purpose") });
    }
    if same_text(action, "search") {
        return Ok(DetachedChangesetAction::Search);
    }
    Err(AppError::new(ErrorCode::ChangesetCorrupt, "unsupported detached changeset action"))
}

/// The first `count` operations of an intent.
pub open spec fn detached_actions(
    store: StoreView,
    items: Seq<OperationView>,
    count: nat,
) -> Result<Seq<ActionView>, AppErrorView>
    decreases count,
{
    if count == 0 || count > items.len() {
        Ok(Seq::empty())
    } else {
        match detached_actions(store, items, (count - 1) as nat) {
            Err(e) => Err(e),
            Ok(head) => match detached_action(store, items[count - 1]) {
                Err(e) => Err(e),
                Ok(one) => Ok(head.push(one)),
            },
        }
    }
}

proof fn lemma_detached_actions_stop(
    store: StoreView,
    items: Seq<OperationView>,
    count: nat,
    more: nat,
)
    requires
        count <= more <= items.len(),
        detached_actions(store, items, count) is Err,
    ensures
        detached_actions(store, items, more) == detached_actions(store, items, count),
    decreases more,
{
    if count < more {
        lemma_detached_actions_stop(store, items, count, (more - 1) as nat);
    }
}

/// The first `count` operations of an intent.
fn detach_actions(
    live: &Store,
    items: &Vec<OperationRow>,
) -> (r: Result<Vec<DetachedChangesetAction>, AppError>)
    ensures
        match detached_actions(live@, text::views(items@), items@.len()) {
            Ok(list) => r matches Ok(got) && text::views(got@) == list,
            Err(e) => r matches Err(got) && got@ == e,
        },
{
    let ghost all = text::views(items@);
    let mut out: Vec<DetachedChangesetAction> = Vec::new();
    assert(text::views(out@) =~= Seq::empty());
    let mut i: usize = 0;
    while i < items.len()
        invariant
            i <= items@.len() == all.len(),
            all == text::views(items@),
            detached_actions(live@, all, i as nat) == Ok::<Seq<ActionView>, AppErrorView>(
                text::views(out@),
            ),
        decreases items@.len() - i,
    {
        assert(all[i as int] == items@[i as int]@);
        match detach_action(live, &items[i]) {
            Ok(one) => {
                proof {
                    text::lemma_views_push(out@, one);
                }
                out.push(one);
            },
            Err(e) => {
                proof {
                    lemma_detached_actions_stop(live@, all, (i + 1) as nat, all.len());
                }
                return Err(e);
            },
        }
        i += 1;
    }
    Ok(out)
}

/// The operations hold a mark of a replayed draft.
pub open spec fn holds_replay(operations: Seq<OperationView>) -> bool {
    exists|k: int|
        0 <= k < operations.len() && ((#[trigger] operations[k]).action
            == "changeset_sync_replay_start"@ || operations[k].action
            == "changeset_sync_replay_complete"@)
}

fn finds_replay(operations: &Vec<OperationRow>) -> (r: bool)
    ensures
        r == holds_replay(text::views(operations@)),
{
    let ghost all = text::views(operations@);
    let mut i: usize = 0;
    while i < operations.len()
        invariant
            i <= operations@.len() == all.len(),
            all == text::views(operations@),
            forall|k: int|
                0 <= k < i ==> (#[trigger] all[k]).action != "changeset_sync_replay_start"@
                    && all[k].action != "changeset_sync_replay_complete"@,
        decreases operations@.len() - i,
    {
        assert(all[i as int] == operations@[i as int]@);
        let action = operations[i].action.as_str();
        if same_text(action, "changeset_sync_replay_start") || same_text(
            action,
            "changeset_sync_replay_complete",
        ) {
            return true;
        }
        i += 1;
    }
    false
}

// ---------------------------------------------------------------------------
// The whole intent
// ---------------------------------------------------------------------------

/// The items of an intent together.
pub open spec fn intent_assembled(
    store: StoreView,
    id: Seq<char>,
    operations: Seq<OperationView>,
    sources: SourcesView,
) -> Result<ExportView, AppErrorView> {
    let touched_pages = touched::touched_pages(store);
    let touched_tags = touched::touched_tags(store);
    let touched_meta = touched::touched_meta(store);
    match page_intents(store, touched_pages, touched_pages.len()) {
        Err(e) => Err(e),
        Ok(pages) => match tag_intents(store, touched_tags, touched_tags.len()) {
            Err(e) => Err(e),
            Ok(tags) => match meta_intents(store, touched_meta, touched_meta.len()) {
                Err(e) => Err(e),
                Ok(meta) => if sources.sources.len() + pages.len() + tags.len() + meta.len()
                    > MAX_ITEMS {
                    error::refused(
                        ErrorCode::ChangesetSyncLimit,
                        "detached changeset has too many typed items"@,
                    )
                } else {
                    match detached_actions(store, operations, operations.len()) {
                        Err(e) => Err(e),
                        Ok(actions) => Ok(
                            ExportView {
                                intent: IntentView {
                                    version: 1,
                                    origin_changeset_id: id,
                                    name: store.changesets[id].name,
                                    actions,
                                    sources: sources.sources,
                                    pages,
                                    tags,
                                    meta,
                                },
                                blobs: sources.blobs,
                            },
                        ),
                    }
                },
            },
        },
    }
}

/// The intent of the draft of a store; there is none of a replayed draft.
pub open spec fn intent_goal(store: StoreView) -> Result<Option<ExportView>, AppErrorView> {
    let operations = changesets::staged(store);
    if store::meta_value(store, "changeset_storage"@) != Some("sparse-v1"@) {
        error::refused(
            ErrorCode::ChangesetSyncUnsupported,
            "only sparse changesets can be exported as detached intent"@,
        )
    } else if touched::first_unsupported(operations) is Some {
        Err(touched::sparse_unsupported(touched::first_unsupported(operations)->0))
    } else {
        match changesets::draft_of(store, None) {
            None => Err(store::no_rows()),
            Some(id) => match store::live_identity(store) {
                Err(e) => Err(e),
                Ok(_) => if operations.len() > MAX_ACTIONS {
                    error::refused(
                        ErrorCode::ChangesetSyncLimit,
                        "detached changeset has too many actions"@,
                    )
                } else if holds_replay(operations) {
                    Ok(None)
                } else {
                    match touched::created_sources(changesets::staged_anywhere(store)) {
                        Err(e) => Err(e),
                        Ok(created) => match ingested(operations) {
                            Err(e) => Err(e),
                            Ok(more) => {
                                let ids = table::ordered::<i64>(created + more);
                                match sources_exported(store, ids, created, ids.len()) {
                                    Err(e) => Err(e),
                                    Ok(sources) => match intent_assembled(
                                        store,
                                        id,
                                        operations,
                                        sources,
                                    ) {
                                        Err(e) => Err(e),
                                        Ok(export) => Ok(Some(export)),
                                    },
                                }
                            },
                        },
                    }
                },
            },
        }
    }
}

/// An intent that may travel: one that does not take too many bytes where it is written out.
/// `bytes` is how many it takes: in which form it is written out, the program around the
/// library decides.
pub fn bounded_detached_export(export: DetachedExport, bytes: usize) -> (r: Result<
    DetachedExport,
    AppError,
>)
    ensures
        if bytes > MAX_METADATA_BYTES {
            r matches Err(e) && e@ == error::app_error(
                ErrorCode::ChangesetSyncLimit,
                "detached changeset metadata exceeds the byte limit"@,
            )
        } else {
            r == Ok::<DetachedExport, AppError>(export)
        },
{
    if bytes > MAX_METADATA_BYTES {
        return Err(
            AppError::new(
                ErrorCode::ChangesetSyncLimit,
                "detached changeset metadata exceeds the byte limit",
            ),
        );
    }
    Ok(export)
}

fn too_many(a: usize, b: usize, c: usize, d: usize) -> (r: bool)
    ensures
        r == (a + b + c + d > MAX_ITEMS),
{
    a as u128 + b as u128 + c as u128 + d as u128 > MAX_ITEMS as u128
}

/// The items of an intent together.
fn assemble(
    live: &Store,
    id: &str,
    operations: &Vec<OperationRow>,
    sources: Vec<DetachedSourceIntent>,
    blobs: Vec<DetachedBlob>,
    Ghost(total): Ghost<nat>,
) -> (r: Result<DetachedExport, AppError>)
    requires
        live@.changesets.dom().contains(id@),
    ensures
        error::outcome(r) == intent_assembled(
            live@,
            id@,
            text::views(operations@),
            SourcesView { sources: text::views(sources@), blobs: text::views(blobs@), total },
        ),
{
    let touched_pages = live.changeset_touched_pages();
    let touched_tags = live.changeset_touched_tags();
    let touched_meta = live.changeset_touched_meta();
    assert(text::views(touched_pages@).len() == touched_pages@.len());
    assert(text::views(touched_tags@).len() == touched_tags@.len());
    assert(text::views(touched_meta@).len() == touched_meta@.len());
    assert(text::views(operations@).len() == operations@.len());
    let pages = match show_pages(live, &touched_pages) {
        Ok(pages) => pages,
        Err(e) => {
            return Err(e);
        },
    };
    let tags = match show_tags(live, &touched_tags) {
        Ok(tags) => tags,
        Err(e) => {
            return Err(e);
        },
    };
    let meta = match show_metas(live, &touched_meta) {
        Ok(meta) => meta,
        Err(e) => {
            return Err(e);
        },
    };
    assert(text::views(pages@).len() == pages@.len());
    assert(text::views(tags@).len() == tags@.len());
    assert(text::views(meta@).len() == meta@.len());
    assert(text::views(sources@).len() == sources@.len());
    if too_many(sources.len(), pages.len(), tags.len(), meta.len()) {
        return Err(
            AppError::new(
                ErrorCode::ChangesetSyncLimit,
                "detached changeset has too many typed items",
            ),
        );
    }
    let actions = match detach_actions(live, operations) {
        Ok(actions) => actions,
        Err(e) => {
            return Err(e);
        },
    };
    let key = owned(id);
    let name = match live.changesets.get(&key) {
        Some(row) => owned(row.name.as_str()),
        None => owned(""),
    };
    Ok(
        DetachedExport {
            intent: DetachedChangesetIntent {
                version: 1,
                origin_changeset_id: key,
                name,
                actions,
                sources,
                pages,
                tags,
                meta,
            },
            blobs,
        },
    )
}

/// The sources that a draft created, as marks.
fn mark_created(operations: &Vec<OperationRow>) -> (r: Result<Table<i64, bool>, AppError>)
    ensures
        match touched::created_sources(text::views(operations@)) {
            Ok(ids) => r matches Ok(marks) && marks@.dom() == ids,
            Err(e) => r matches Err(got) && got@ == e,
        },
{
    let listed = match list_created_sources(operations) {
        Ok(listed) => listed,
        Err(e) => {
            return Err(e);
        },
    };
    let mut marks: Table<i64, bool> = Table::new();
    let mut i: usize = 0;
    while i < listed.len()
        invariant
            i <= listed@.len(),
            forall|id: i64| #[trigger]
                marks@.dom().contains(id) == listed@.take(i as int).contains(id),
        decreases listed@.len() - i,
    {
        proof {
            table::lemma_take_more(listed@, i as int);
        }
        marks.put(listed[i], true);
        i += 1;
    }
    proof {
        assert(listed@.take(i as int) =~= listed@);
        let ids = touched::created_sources(text::views(operations@))->Ok_0;
        assert forall|id: i64| marks@.dom().contains(id) == ids.contains(id) by {
            assert(listed@.to_set().contains(id) == listed@.contains(id));
        }
        assert(marks@.dom() =~= ids);
    }
    Ok(marks)
}

impl Store {
    /// The intent of the draft of a sparse store, or none where the draft is itself a
    /// replay of another store's intent.
    pub fn detached_changeset_intent(&self) -> (r: Result<Option<DetachedExport>, AppError>)
        ensures
            match intent_goal(self@) {
                Ok(goal) => r matches Ok(got) && text::opt_view(got) == goal,
                Err(e) => r matches Err(got) && got@ == e,
            },
    {
        let sparse = match self.changeset_storage_kind() {
            Some(kind) => same_text(kind.as_str(), "sparse-v1"),
            None => false,
        };
        if !sparse {
            return Err(
                AppError::new(
                    ErrorCode::ChangesetSyncUnsupported,
                    "only sparse changesets can be exported as detached intent",
                ),
            );
        }
        if let Err(e) = self.validate_changeset_integrity() {
            return Err(e);
        }
        let operations = self.staged_operations();
        assert(text::views(operations@).len() == operations@.len());
        let id = match self.find_draft(None) {
            Some((id, _)) => owned(id.as_str()),
            None => {
                return Err(store::no_rows_error());
            },
        };
        if let Err(e) = self.identity() {
            return Err(e);
        }
        if operations.len() > MAX_ACTIONS {
            return Err(
                AppError::new(
                    ErrorCode::ChangesetSyncLimit,
                    "detached changeset has too many actions",
                ),
            );
        }
        if finds_replay(&operations) {
            return Ok(None);
        }
        let created = match mark_created(&self.all_staged_operations()) {
            Ok(created) => created,
            Err(e) => {
                return Err(e);
            },
        };
        let mut wanted = created.copy();
        if let Err(e) = mark_ingested(&operations, &mut wanted) {
            return Err(e);
        }
        let ids = keys_of(&wanted);
        let ghost done = sources_exported(self@, ids@, created@.dom(), ids@.len());
        let (sources, blobs) = match export_sources(self, &ids, &created) {
            Ok(both) => both,
            Err(e) => {
                return Err(e);
            },
        };
        match assemble(
            self,
            id.as_str(),
            &operations,
            sources,
            blobs,
            Ghost(done->Ok_0.total),
        ) {
            Ok(export) => Ok(Some(export)),
            Err(e) => Err(e),
        }
    }
}

} // verus!
