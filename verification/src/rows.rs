//! The rows of the store's tables.
use crate::json::{Json, JsonView};
use crate::table::{
    copy_ids, copy_records, same_ids, same_records, Record,
    Table, TableKey, Triple, TripleView,
};
use crate::text;
use crate::text::{comes_before, copy_opt, copy_texts, owned, same_opt, same_text, same_texts};
use vstd::prelude::*;

verus! {

/// A source: a document that is kept as it came.
pub struct SourceRow {
    pub content_hash: String,
    pub title: Option<String>,
    pub origin: String,
    pub content: String,
    pub structural_navigation: bool,
    pub created_at: String,
}

#[verifier::ext_equal]
pub struct SourceView {
    pub content_hash: Seq<char>,
    pub title: Option<Seq<char>>,
    pub origin: Seq<char>,
    pub content: Seq<char>,
    pub structural_navigation: bool,
    pub created_at: Seq<char>,
}

impl View for SourceRow {
    type V = SourceView;

    open spec fn view(&self) -> SourceView {
        SourceView {
            content_hash: self.content_hash@,
            title: text::opt_text(self.title),
            origin: self.origin@,
            content: self.content@,
            structural_navigation: self.structural_navigation,
            created_at: self.created_at@,
        }
    }
}

impl Record for SourceRow {
    fn duplicate(&self) -> (r: Self) {
        SourceRow {
            content_hash: owned(self.content_hash.as_str()),
            title: copy_opt(&self.title),
            origin: owned(self.origin.as_str()),
            content: owned(self.content.as_str()),
            structural_navigation: self.structural_navigation,
            created_at: owned(self.created_at.as_str()),
        }
    }

    fn same(&self, other: &Self) -> (r: bool) {
        same_text(self.content_hash.as_str(), other.content_hash.as_str())
            && same_opt(&self.title, &other.title)
            && same_text(self.origin.as_str(), other.origin.as_str())
            && same_text(self.content.as_str(), other.content.as_str())
            && self.structural_navigation == other.structural_navigation
            && same_text(self.created_at.as_str(), other.created_at.as_str())
    }
}


/// How far the work on a source has come.
pub struct IngestRow {
    pub status: String,
    pub attempts: i64,
    pub analysis: Option<String>,
    pub last_error: Option<String>,
    pub no_derived_pages_reason: Option<String>,
    pub updated_at: String,
}

#[verifier::ext_equal]
pub struct IngestView {
    pub status: Seq<char>,
    pub attempts: i64,
    pub analysis: Option<Seq<char>>,
    pub last_error: Option<Seq<char>>,
    pub no_derived_pages_reason: Option<Seq<char>>,
    pub updated_at: Seq<char>,
}

impl View for IngestRow {
    type V = IngestView;

    open spec fn view(&self) -> IngestView {
        IngestView {
            status: self.status@,
            attempts: self.attempts,
            analysis: text::opt_text(self.analysis),
            last_error: text::opt_text(self.last_error),
            no_derived_pages_reason: text::opt_text(self.no_derived_pages_reason),
            updated_at: self.updated_at@,
        }
    }
}

impl Record for IngestRow {
    fn duplicate(&self) -> (r: Self) {
        IngestRow {
            status: owned(self.status.as_str()),
            attempts: self.attempts,
            analysis: copy_opt(&self.analysis),
            last_error: copy_opt(&self.last_error),
            no_derived_pages_reason: copy_opt(&self.no_derived_pages_reason),
            updated_at: owned(self.updated_at.as_str()),
        }
    }

    fn same(&self, other: &Self) -> (r: bool) {
        same_text(self.status.as_str(), other.status.as_str())
            && self.attempts == other.attempts
            && same_opt(&self.analysis, &other.analysis)
            && same_opt(&self.last_error, &other.last_error)
            && same_opt(&self.no_derived_pages_reason, &other.no_derived_pages_reason)
            && same_text(self.updated_at.as_str(), other.updated_at.as_str())
    }
}


/// A source that was observed at a tracked path.
pub struct PathRevision {
    pub revision: i64,
    pub source_id: i64,
    pub observed_at: String,
}

#[verifier::ext_equal]
pub struct PathRevisionView {
    pub revision: i64,
    pub source_id: i64,
    pub observed_at: Seq<char>,
}

impl View for PathRevision {
    type V = PathRevisionView;

    open spec fn view(&self) -> PathRevisionView {
        PathRevisionView {
            revision: self.revision,
            source_id: self.source_id,
            observed_at: self.observed_at@,
        }
    }
}

impl Record for PathRevision {
    fn duplicate(&self) -> (r: Self) {
        PathRevision {
            revision: self.revision,
            source_id: self.source_id,
            observed_at: owned(self.observed_at.as_str()),
        }
    }

    fn same(&self, other: &Self) -> (r: bool) {
        self.revision == other.revision
            && self.source_id == other.source_id
            && same_text(self.observed_at.as_str(), other.observed_at.as_str())
    }
}


/// The sources observed at one tracked path, the oldest first.
pub struct PathLog {
    pub list: Vec<PathRevision>,
}

impl View for PathLog {
    type V = Seq<PathRevisionView>;

    open spec fn view(&self) -> Seq<PathRevisionView> {
        text::views(self.list@)
    }
}

impl Record for PathLog {
    fn duplicate(&self) -> (r: Self) {
        PathLog { list: copy_records(&self.list) }
    }

    fn same(&self, other: &Self) -> (r: bool) {
        same_records(&self.list, &other.list)
    }
}

/// A Wiki page.
pub struct PageRow {
    pub title: String,
    pub kind: Option<String>,
    pub summary: Option<String>,
    pub body: String,
    pub structural_navigation: bool,
    /// The cited sources, in ascending order.
    pub source_ids: Vec<i64>,
    /// The explicit provenance, in ascending order.
    pub provenance: Vec<String>,
    /// The pages linked to, in ascending order.
    pub links: Vec<String>,
    pub created_at: String,
    pub updated_at: String,
}

#[verifier::ext_equal]
pub struct PageView {
    pub title: Seq<char>,
    pub kind: Option<Seq<char>>,
    pub summary: Option<Seq<char>>,
    pub body: Seq<char>,
    pub structural_navigation: bool,
    pub source_ids: Seq<i64>,
    pub provenance: Seq<Seq<char>>,
    pub links: Seq<Seq<char>>,
    pub created_at: Seq<char>,
    pub updated_at: Seq<char>,
}

impl View for PageRow {
    type V = PageView;

    open spec fn view(&self) -> PageView {
        PageView {
            title: self.title@,
            kind: text::opt_text(self.kind),
            summary: text::opt_text(self.summary),
            body: self.body@,
            structural_navigation: self.structural_navigation,
            source_ids: self.source_ids@,
            provenance: text::views(self.provenance@),
            links: text::views(self.links@),
            created_at: self.created_at@,
            updated_at: self.updated_at@,
        }
    }
}

impl Record for PageRow {
    fn duplicate(&self) -> (r: Self) {
        PageRow {
            title: owned(self.title.as_str()),
            kind: copy_opt(&self.kind),
            summary: copy_opt(&self.summary),
            body: owned(self.body.as_str()),
            structural_navigation: self.structural_navigation,
            source_ids: copy_ids(&self.source_ids),
            provenance: copy_texts(&self.provenance),
            links: copy_texts(&self.links),
            created_at: owned(self.created_at.as_str()),
            updated_at: owned(self.updated_at.as_str()),
        }
    }

    fn same(&self, other: &Self) -> (r: bool) {
        same_text(self.title.as_str(), other.title.as_str())
            && same_opt(&self.kind, &other.kind)
            && same_opt(&self.summary, &other.summary)
            && same_text(self.body.as_str(), other.body.as_str())
            && self.structural_navigation == other.structural_navigation
            && same_ids(&self.source_ids, &other.source_ids)
            && same_texts(&self.provenance, &other.provenance)
            && same_texts(&self.links, &other.links)
            && same_text(self.created_at.as_str(), other.created_at.as_str())
            && same_text(self.updated_at.as_str(), other.updated_at.as_str())
    }
}


/// How a tag loads its pages.
pub struct TagPolicy {
    pub autoload: bool,
    pub autoload_priority: i64,
    pub autoload_limit: i64,
    pub autoload_max_chars: i64,
    pub reason: String,
    pub updated_at: String,
}

#[verifier::ext_equal]
pub struct TagPolicyView {
    pub autoload: bool,
    pub autoload_priority: i64,
    pub autoload_limit: i64,
    pub autoload_max_chars: i64,
    pub reason: Seq<char>,
    pub updated_at: Seq<char>,
}

impl View for TagPolicy {
    type V = TagPolicyView;

    open spec fn view(&self) -> TagPolicyView {
        TagPolicyView {
            autoload: self.autoload,
            autoload_priority: self.autoload_priority,
            autoload_limit: self.autoload_limit,
            autoload_max_chars: self.autoload_max_chars,
            reason: self.reason@,
            updated_at: self.updated_at@,
        }
    }
}

impl Record for TagPolicy {
    fn duplicate(&self) -> (r: Self) {
        TagPolicy {
            autoload: self.autoload,
            autoload_priority: self.autoload_priority,
            autoload_limit: self.autoload_limit,
            autoload_max_chars: self.autoload_max_chars,
            reason: owned(self.reason.as_str()),
            updated_at: owned(self.updated_at.as_str()),
        }
    }

    fn same(&self, other: &Self) -> (r: bool) {
        self.autoload == other.autoload
            && self.autoload_priority == other.autoload_priority
            && self.autoload_limit == other.autoload_limit
            && self.autoload_max_chars == other.autoload_max_chars
            && same_text(self.reason.as_str(), other.reason.as_str())
            && same_text(self.updated_at.as_str(), other.updated_at.as_str())
    }
}


/// The membership of a page in a tag.
pub struct TagMember {
    pub priority: i64,
    pub reason: String,
    pub created_at: String,
    pub updated_at: String,
}

#[verifier::ext_equal]
pub struct TagMemberView {
    pub priority: i64,
    pub reason: Seq<char>,
    pub created_at: Seq<char>,
    pub updated_at: Seq<char>,
}

impl View for TagMember {
    type V = TagMemberView;

    open spec fn view(&self) -> TagMemberView {
        TagMemberView {
            priority: self.priority,
            reason: self.reason@,
            created_at: self.created_at@,
            updated_at: self.updated_at@,
        }
    }
}

impl Record for TagMember {
    fn duplicate(&self) -> (r: Self) {
        TagMember {
            priority: self.priority,
            reason: owned(self.reason.as_str()),
            created_at: owned(self.created_at.as_str()),
            updated_at: owned(self.updated_at.as_str()),
        }
    }

    fn same(&self, other: &Self) -> (r: bool) {
        self.priority == other.priority
            && same_text(self.reason.as_str(), other.reason.as_str())
            && same_text(self.created_at.as_str(), other.created_at.as_str())
            && same_text(self.updated_at.as_str(), other.updated_at.as_str())
    }
}


/// A tag and its pages.
pub struct TagRow {
    pub policy: TagPolicy,
    pub members: Table<String, TagMember>,
}

#[verifier::ext_equal]
pub struct TagView {
    pub policy: TagPolicyView,
    pub members: Map<Seq<char>, TagMemberView>,
}

impl View for TagRow {
    type V = TagView;

    open spec fn view(&self) -> TagView {
        TagView {
            policy: self.policy@,
            members: self.members@,
        }
    }
}

impl Record for TagRow {
    fn duplicate(&self) -> (r: Self) {
        TagRow {
            policy: self.policy.duplicate(),
            members: self.members.copy(),
        }
    }

    fn same(&self, other: &Self) -> (r: bool) {
        self.policy.same(&other.policy)
            && self.members.equals(&other.members)
    }
}


/// An entry of the log of operations.
pub struct OperationRow {
    pub id: i64,
    pub action: String,
    pub target: String,
    pub detail: Json,
    pub created_at: String,
}

#[verifier::ext_equal]
pub struct OperationView {
    pub id: i64,
    pub action: Seq<char>,
    pub target: Seq<char>,
    pub detail: JsonView,
    pub created_at: Seq<char>,
}

impl View for OperationRow {
    type V = OperationView;

    open spec fn view(&self) -> OperationView {
        OperationView {
            id: self.id,
            action: self.action@,
            target: self.target@,
            detail: self.detail@,
            created_at: self.created_at@,
        }
    }
}

impl Record for OperationRow {
    fn duplicate(&self) -> (r: Self) {
        OperationRow {
            id: self.id,
            action: owned(self.action.as_str()),
            target: owned(self.target.as_str()),
            detail: self.detail.duplicate(),
            created_at: owned(self.created_at.as_str()),
        }
    }

    fn same(&self, other: &Self) -> (r: bool) {
        self.id == other.id
            && same_text(self.action.as_str(), other.action.as_str())
            && same_text(self.target.as_str(), other.target.as_str())
            && self.detail.same(&other.detail)
            && same_text(self.created_at.as_str(), other.created_at.as_str())
    }
}


/// A weight that somebody gave to a page or a source.
pub struct WeightRow {
    pub weight: i32,
    pub reason: String,
    pub updated_at: String,
}

#[verifier::ext_equal]
pub struct WeightView {
    pub weight: i32,
    pub reason: Seq<char>,
    pub updated_at: Seq<char>,
}

impl View for WeightRow {
    type V = WeightView;

    open spec fn view(&self) -> WeightView {
        WeightView {
            weight: self.weight,
            reason: self.reason@,
            updated_at: self.updated_at@,
        }
    }
}

impl Record for WeightRow {
    fn duplicate(&self) -> (r: Self) {
        WeightRow {
            weight: self.weight,
            reason: owned(self.reason.as_str()),
            updated_at: owned(self.updated_at.as_str()),
        }
    }

    fn same(&self, other: &Self) -> (r: bool) {
        self.weight == other.weight
            && same_text(self.reason.as_str(), other.reason.as_str())
            && same_text(self.updated_at.as_str(), other.updated_at.as_str())
    }
}


/// What somebody thought of a page or a source as an answer to a query.
pub struct FeedbackRow {
    pub signal: i32,
    pub reason: String,
    pub updated_at: String,
}

#[verifier::ext_equal]
pub struct FeedbackView {
    pub signal: i32,
    pub reason: Seq<char>,
    pub updated_at: Seq<char>,
}

impl View for FeedbackRow {
    type V = FeedbackView;

    open spec fn view(&self) -> FeedbackView {
        FeedbackView {
            signal: self.signal,
            reason: self.reason@,
            updated_at: self.updated_at@,
        }
    }
}

impl Record for FeedbackRow {
    fn duplicate(&self) -> (r: Self) {
        FeedbackRow {
            signal: self.signal,
            reason: owned(self.reason.as_str()),
            updated_at: owned(self.updated_at.as_str()),
        }
    }

    fn same(&self, other: &Self) -> (r: bool) {
        self.signal == other.signal
            && same_text(self.reason.as_str(), other.reason.as_str())
            && same_text(self.updated_at.as_str(), other.updated_at.as_str())
    }
}


/// Who said what of which answer to which query.
pub struct FeedbackKey {
    pub query: String,
    pub target: Triple,
}

#[verifier::ext_equal]
pub struct FeedbackKeyView {
    pub query: Seq<char>,
    pub target: TripleView,
}

impl View for FeedbackKey {
    type V = FeedbackKeyView;

    open spec fn view(&self) -> FeedbackKeyView {
        FeedbackKeyView { query: self.query@, target: self.target@ }
    }
}

impl TableKey for FeedbackKey {
    open spec fn precedes(a: FeedbackKeyView, b: FeedbackKeyView) -> bool {
        text::before(a.query, b.query) || a.query == b.query && Triple::precedes(
            a.target,
            b.target,
        )
    }

    proof fn lemma_order(a: FeedbackKeyView, b: FeedbackKeyView, c: FeedbackKeyView) {
        String::lemma_order(a.query, b.query, c.query);
        assert(<String as TableKey>::precedes(a.query, a.query) == text::before(
            a.query,
            a.query,
        ));
        assert(<String as TableKey>::precedes(a.query, b.query) == text::before(
            a.query,
            b.query,
        ));
        assert(<String as TableKey>::precedes(b.query, c.query) == text::before(
            b.query,
            c.query,
        ));
        assert(<String as TableKey>::precedes(a.query, c.query) == text::before(
            a.query,
            c.query,
        ));
        assert(<String as TableKey>::precedes(b.query, a.query) == text::before(
            b.query,
            a.query,
        ));
        Triple::lemma_order(a.target, b.target, c.target);
    }

    fn is_before(&self, other: &Self) -> (r: bool) {
        comes_before(self.query.as_str(), other.query.as_str()) || same_text(
            self.query.as_str(),
            other.query.as_str(),
        ) && self.target.is_before(&other.target)
    }

    fn is_same(&self, other: &Self) -> (r: bool) {
        same_text(self.query.as_str(), other.query.as_str()) && self.target.is_same(&other.target)
    }

    fn again(&self) -> (r: Self) {
        FeedbackKey { query: owned(self.query.as_str()), target: self.target.again() }
    }
}

/// A relation that somebody stated between two nodes of the graph. The
/// confidence is kept by the bits of its 64-bit floating-point number.
pub struct RelationRow {
    pub relation_type: String,
    pub from_identifier: String,
    pub to_identifier: String,
    pub confidence: Option<u64>,
    pub provenance: String,
    pub reason: Option<String>,
    pub source_ids: Vec<i64>,
    pub created_at: String,
    pub updated_at: String,
}

#[verifier::ext_equal]
pub struct RelationView {
    pub relation_type: Seq<char>,
    pub from_identifier: Seq<char>,
    pub to_identifier: Seq<char>,
    pub confidence: Option<u64>,
    pub provenance: Seq<char>,
    pub reason: Option<Seq<char>>,
    pub source_ids: Seq<i64>,
    pub created_at: Seq<char>,
    pub updated_at: Seq<char>,
}

impl View for RelationRow {
    type V = RelationView;

    open spec fn view(&self) -> RelationView {
        RelationView {
            relation_type: self.relation_type@,
            from_identifier: self.from_identifier@,
            to_identifier: self.to_identifier@,
            confidence: self.confidence,
            provenance: self.provenance@,
            reason: text::opt_text(self.reason),
            source_ids: self.source_ids@,
            created_at: self.created_at@,
            updated_at: self.updated_at@,
        }
    }
}

impl Record for RelationRow {
    fn duplicate(&self) -> (r: Self) {
        RelationRow {
            relation_type: owned(self.relation_type.as_str()),
            from_identifier: owned(self.from_identifier.as_str()),
            to_identifier: owned(self.to_identifier.as_str()),
            confidence: self.confidence,
            provenance: owned(self.provenance.as_str()),
            reason: copy_opt(&self.reason),
            source_ids: copy_ids(&self.source_ids),
            created_at: owned(self.created_at.as_str()),
            updated_at: owned(self.updated_at.as_str()),
        }
    }

    fn same(&self, other: &Self) -> (r: bool) {
        same_text(self.relation_type.as_str(), other.relation_type.as_str())
            && same_text(self.from_identifier.as_str(), other.from_identifier.as_str())
            && same_text(self.to_identifier.as_str(), other.to_identifier.as_str())
            && self.confidence == other.confidence
            && same_text(self.provenance.as_str(), other.provenance.as_str())
            && same_opt(&self.reason, &other.reason)
            && same_ids(&self.source_ids, &other.source_ids)
            && same_text(self.created_at.as_str(), other.created_at.as_str())
            && same_text(self.updated_at.as_str(), other.updated_at.as_str())
    }
}


/// A passage or a sentence of a page or a source.
pub struct SpanRow {
    pub span_type: String,
    pub document_type: String,
    pub document_identifier: String,
    pub parent_identifier: String,
    pub ordinal: i64,
    pub byte_start: i64,
    pub byte_end: i64,
    pub content_fingerprint: String,
    pub segmenter_version: i64,
    pub active: bool,
}

#[verifier::ext_equal]
pub struct SpanView {
    pub span_type: Seq<char>,
    pub document_type: Seq<char>,
    pub document_identifier: Seq<char>,
    pub parent_identifier: Seq<char>,
    pub ordinal: i64,
    pub byte_start: i64,
    pub byte_end: i64,
    pub content_fingerprint: Seq<char>,
    pub segmenter_version: i64,
    pub active: bool,
}

impl View for SpanRow {
    type V = SpanView;

    open spec fn view(&self) -> SpanView {
        SpanView {
            span_type: self.span_type@,
            document_type: self.document_type@,
            document_identifier: self.document_identifier@,
            parent_identifier: self.parent_identifier@,
            ordinal: self.ordinal,
            byte_start: self.byte_start,
            byte_end: self.byte_end,
            content_fingerprint: self.content_fingerprint@,
            segmenter_version: self.segmenter_version,
            active: self.active,
        }
    }
}

impl Record for SpanRow {
    fn duplicate(&self) -> (r: Self) {
        SpanRow {
            span_type: owned(self.span_type.as_str()),
            document_type: owned(self.document_type.as_str()),
            document_identifier: owned(self.document_identifier.as_str()),
            parent_identifier: owned(self.parent_identifier.as_str()),
            ordinal: self.ordinal,
            byte_start: self.byte_start,
            byte_end: self.byte_end,
            content_fingerprint: owned(self.content_fingerprint.as_str()),
            segmenter_version: self.segmenter_version,
            active: self.active,
        }
    }

    fn same(&self, other: &Self) -> (r: bool) {
        same_text(self.span_type.as_str(), other.span_type.as_str())
            && same_text(self.document_type.as_str(), other.document_type.as_str())
            && same_text(self.document_identifier.as_str(), other.document_identifier.as_str())
            && same_text(self.parent_identifier.as_str(), other.parent_identifier.as_str())
            && self.ordinal == other.ordinal
            && self.byte_start == other.byte_start
            && self.byte_end == other.byte_end
            && same_text(self.content_fingerprint.as_str(), other.content_fingerprint.as_str())
            && self.segmenter_version == other.segmenter_version
            && self.active == other.active
    }
}


/// A set of staged changes, and what became of it.
pub struct ChangesetRow {
    pub name: String,
    pub status: String,
    pub base_revision: String,
    pub base_operation_id: i64,
    pub begin_operation_id: i64,
    pub pre_commit_checkpoint: Option<String>,
    pub post_revision: Option<String>,
    pub created_at: String,
    pub committed_at: Option<String>,
    pub rolled_back_at: Option<String>,
}

#[verifier::ext_equal]
pub struct ChangesetView {
    pub name: Seq<char>,
    pub status: Seq<char>,
    pub base_revision: Seq<char>,
    pub base_operation_id: i64,
    pub begin_operation_id: i64,
    pub pre_commit_checkpoint: Option<Seq<char>>,
    pub post_revision: Option<Seq<char>>,
    pub created_at: Seq<char>,
    pub committed_at: Option<Seq<char>>,
    pub rolled_back_at: Option<Seq<char>>,
}

impl View for ChangesetRow {
    type V = ChangesetView;

    open spec fn view(&self) -> ChangesetView {
        ChangesetView {
            name: self.name@,
            status: self.status@,
            base_revision: self.base_revision@,
            base_operation_id: self.base_operation_id,
            begin_operation_id: self.begin_operation_id,
            pre_commit_checkpoint: text::opt_text(self.pre_commit_checkpoint),
            post_revision: text::opt_text(self.post_revision),
            created_at: self.created_at@,
            committed_at: text::opt_text(self.committed_at),
            rolled_back_at: text::opt_text(self.rolled_back_at),
        }
    }
}

impl Record for ChangesetRow {
    fn duplicate(&self) -> (r: Self) {
        ChangesetRow {
            name: owned(self.name.as_str()),
            status: owned(self.status.as_str()),
            base_revision: owned(self.base_revision.as_str()),
            base_operation_id: self.base_operation_id,
            begin_operation_id: self.begin_operation_id,
            pre_commit_checkpoint: copy_opt(&self.pre_commit_checkpoint),
            post_revision: copy_opt(&self.post_revision),
            created_at: owned(self.created_at.as_str()),
            committed_at: copy_opt(&self.committed_at),
            rolled_back_at: copy_opt(&self.rolled_back_at),
        }
    }

    fn same(&self, other: &Self) -> (r: bool) {
        same_text(self.name.as_str(), other.name.as_str())
            && same_text(self.status.as_str(), other.status.as_str())
            && same_text(self.base_revision.as_str(), other.base_revision.as_str())
            && self.base_operation_id == other.base_operation_id
            && self.begin_operation_id == other.begin_operation_id
            && same_opt(&self.pre_commit_checkpoint, &other.pre_commit_checkpoint)
            && same_opt(&self.post_revision, &other.post_revision)
            && same_text(self.created_at.as_str(), other.created_at.as_str())
            && same_opt(&self.committed_at, &other.committed_at)
            && same_opt(&self.rolled_back_at, &other.rolled_back_at)
    }
}


} // verus!
