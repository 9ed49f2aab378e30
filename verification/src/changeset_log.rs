//! What the log says of committed changesets and of those that were taken back.
use crate::error;
use crate::error::{AppError, AppErrorView, ErrorCode};
use crate::json;
use crate::json::{Json, JsonView};
use crate::rows::{OperationRow, OperationView};
use crate::sparse_merge::{RemapView, SourceIdRemap};
use crate::store;
use crate::store::{Store, StoreView};
use crate::table;
use crate::table::{Pair, PairView, Record};
use crate::text;
use crate::text::{owned, parse_count, same_text};
use vstd::prelude::*;

verus! {

// ---------------------------------------------------------------------------
// Lists in the details of an operation
// ---------------------------------------------------------------------------

/// Where a source stands, as JSON.
pub open spec fn remap_json(remap: RemapView) -> JsonView {
    JsonView::Object(
        seq![
            json::entry("created"@, JsonView::Bool(remap.created)),
            json::entry("draft_id"@, JsonView::Int(remap.draft_id as int)),
            json::entry("live_id"@, JsonView::Int(remap.live_id as int)),
        ],
    )
}

/// Where sources stand, as JSON.
pub open spec fn remaps_json(remaps: Seq<RemapView>) -> JsonView {
    JsonView::Array(remaps.map_values(|remap: RemapView| remap_json(remap)))
}

/// A document as JSON.
pub open spec fn document_json(document: PairView) -> JsonView {
    JsonView::Array(seq![JsonView::Text(document.first), JsonView::Text(document.second)])
}

/// Documents as JSON.
pub open spec fn documents_json(documents: Seq<PairView>) -> JsonView {
    JsonView::Array(documents.map_values(|document: PairView| document_json(document)))
}

/// The value that JSON says of where a source stands.
pub open spec fn remap_in(value: JsonView) -> Option<RemapView> {
    match (value.int_at("draft_id"@), value.int_at("live_id"@), value.bool_at("created"@)) {
        (Some(draft_id), Some(live_id), Some(created)) => Some(
            RemapView { draft_id, live_id, created },
        ),
        _ => None,
    }
}

/// The values that JSON says of where the first `count` sources stand.
pub open spec fn remaps_in(items: Seq<JsonView>, count: nat) -> Option<Seq<RemapView>>
    decreases count,
{
    if count == 0 || count > items.len() {
        Some(Seq::empty())
    } else {
        match (remaps_in(items, (count - 1) as nat), remap_in(items[count - 1])) {
            (Some(head), Some(one)) => Some(head.push(one)),
            _ => None,
        }
    }
}

/// The document that JSON names.
pub open spec fn document_in(value: JsonView) -> Option<PairView> {
    match value {
        JsonView::Array(parts) => if parts.len() == 2 && parts[0] is Text && parts[1] is Text {
            Some(table::pair(parts[0]->Text_0, parts[1]->Text_0))
        } else {
            None
        },
        _ => None,
    }
}

/// The first `count` documents that JSON names.
pub open spec fn documents_in(items: Seq<JsonView>, count: nat) -> Option<Seq<PairView>>
    decreases count,
{
    if count == 0 || count > items.len() {
        Some(Seq::empty())
    } else {
        match (documents_in(items, (count - 1) as nat), document_in(items[count - 1])) {
            (Some(head), Some(one)) => Some(head.push(one)),
            _ => None,
        }
    }
}

/// Where sources stand, by the details of an operation; nothing said is none moved.
pub open spec fn remaps_of(detail: JsonView) -> Result<Seq<RemapView>, AppErrorView> {
    match detail.get("source_id_remap"@) {
        None => Ok(Seq::empty()),
        Some(JsonView::Array(items)) => match remaps_in(items, items.len()) {
            Some(remaps) => Ok(remaps),
            None => error::refused(
                ErrorCode::ChangesetCorrupt,
                "source_id_remap is malformed"@,
            ),
        },
        Some(_) => error::refused(ErrorCode::ChangesetCorrupt, "source_id_remap is malformed"@),
    }
}

/// The documents in the details of an operation; nothing said is none.
pub open spec fn documents_of(detail: JsonView) -> Result<Seq<PairView>, AppErrorView> {
    match detail.get("graph_documents"@) {
        None => Ok(Seq::empty()),
        Some(JsonView::Array(items)) => match documents_in(items, items.len()) {
            Some(documents) => Ok(documents),
            None => error::refused(ErrorCode::ChangesetCorrupt, "graph_documents is malformed"@),
        },
        Some(_) => error::refused(ErrorCode::ChangesetCorrupt, "graph_documents is malformed"@),
    }
}

/// Where sources stand, as JSON.
pub fn encode_remaps(remaps: &Vec<SourceIdRemap>) -> (r: Json)
    ensures
        r@ == remaps_json(text::views(remaps@)),
{
    let mut items: Vec<Json> = Vec::new();
    let mut i: usize = 0;
    while i < remaps.len()
        invariant
            i <= remaps@.len(),
            items@.len() == i,
            forall|j: int| 0 <= j < i ==> (#[trigger] items@[j])@ == remap_json(remaps@[j]@),
        decreases remaps@.len() - i,
    {
        let remap = &remaps[i];
        let mut entries: Vec<(String, Json)> = Vec::new();
        entries.push((owned("created"), Json::Bool(remap.created)));
        entries.push((owned("draft_id"), Json::Int(remap.draft_id)));
        entries.push((owned("live_id"), Json::Int(remap.live_id)));
        assert(json::entry_views(entries@) =~= remap_json(remap@)->Object_0);
        items.push(Json::object(entries));
        i += 1;
    }
    proof {
        json::lemma_array_view(items);
        assert(text::views(items@) =~= remaps_json(text::views(remaps@))->Array_0);
    }
    Json::Array(items)
}

/// Documents as JSON.
pub fn encode_documents(documents: &Vec<Pair>) -> (r: Json)
    ensures
        r@ == documents_json(text::views(documents@)),
{
    let mut items: Vec<Json> = Vec::new();
    let mut i: usize = 0;
    while i < documents.len()
        invariant
            i <= documents@.len(),
            items@.len() == i,
            forall|j: int| 0 <= j < i ==> (#[trigger] items@[j])@ == document_json(documents@[j]@),
        decreases documents@.len() - i,
    {
        let mut parts: Vec<Json> = Vec::new();
        parts.push(Json::text(documents[i].first.as_str()));
        parts.push(Json::text(documents[i].second.as_str()));
        proof {
            json::lemma_array_view(parts);
            assert(text::views(parts@) =~= document_json(documents@[i as int]@)->Array_0);
        }
        items.push(Json::Array(parts));
        i += 1;
    }
    proof {
        json::lemma_array_view(items);
        assert(text::views(items@) =~= documents_json(text::views(documents@))->Array_0);
    }
    Json::Array(items)
}

proof fn lemma_remaps_stop(items: Seq<JsonView>, count: nat, more: nat)
    requires
        count <= more <= items.len(),
        remaps_in(items, count) is None,
    ensures
        remaps_in(items, more) is None,
    decreases more,
{
    if count < more {
        lemma_remaps_stop(items, count, (more - 1) as nat);
    }
}

proof fn lemma_documents_stop(items: Seq<JsonView>, count: nat, more: nat)
    requires
        count <= more <= items.len(),
        documents_in(items, count) is None,
    ensures
        documents_in(items, more) is None,
    decreases more,
{
    if count < more {
        lemma_documents_stop(items, count, (more - 1) as nat);
    }
}

/// Where sources stand, by the details of an operation.
pub fn decode_remaps(detail: &Json) -> (r: Result<Vec<SourceIdRemap>, AppError>)
    ensures
        match remaps_of(detail@) {
            Ok(list) => r matches Ok(got) && text::views(got@) == list,
            Err(e) => r matches Err(got) && got@ == e,
        },
{
    let mut out: Vec<SourceIdRemap> = Vec::new();
    assert(text::views(out@) =~= Seq::empty());
    let items = match detail.get("source_id_remap") {
        None => {
            return Ok(out);
        },
        Some(Json::Array(items)) => items,
        Some(_) => {
            return Err(
                AppError::new(ErrorCode::ChangesetCorrupt, "source_id_remap is malformed"),
            );
        },
    };
    proof {
        json::lemma_array_view(*items);
    }
    let ghost all = text::views(items@);
    let mut i: usize = 0;
    while i < items.len()
        invariant
            i <= items@.len() == all.len(),
            all == text::views(items@),
            remaps_in(all, i as nat) == Some(text::views(out@)),
        decreases items@.len() - i,
    {
        let item = &items[i];
        assert(all[i as int] == item@);
        match (item.int_at("draft_id"), item.int_at("live_id"), item.bool_at("created")) {
            (Some(draft_id), Some(live_id), Some(created)) => {
                let one = SourceIdRemap { draft_id, live_id, created };
                proof {
                    text::lemma_views_push(out@, one);
                }
                out.push(one);
            },
            _ => {
                proof {
                    lemma_remaps_stop(all, (i + 1) as nat, all.len());
                }
                return Err(
                    AppError::new(ErrorCode::ChangesetCorrupt, "source_id_remap is malformed"),
                );
            },
        }
        i += 1;
    }
    Ok(out)
}

/// The documents in the details of an operation.
pub fn decode_documents(detail: &Json) -> (r: Result<Vec<Pair>, AppError>)
    ensures
        match documents_of(detail@) {
            Ok(list) => r matches Ok(got) && text::views(got@) == list,
            Err(e) => r matches Err(got) && got@ == e,
        },
{
    let mut out: Vec<Pair> = Vec::new();
    assert(text::views(out@) =~= Seq::empty());
    let items = match detail.get("graph_documents") {
        None => {
            return Ok(out);
        },
        Some(Json::Array(items)) => items,
        Some(_) => {
            return Err(
                AppError::new(ErrorCode::ChangesetCorrupt, "graph_documents is malformed"),
            );
        },
    };
    proof {
        json::lemma_array_view(*items);
    }
    let ghost all = text::views(items@);
    let mut i: usize = 0;
    while i < items.len()
        invariant
            i <= items@.len() == all.len(),
            all == text::views(items@),
            documents_in(all, i as nat) == Some(text::views(out@)),
        decreases items@.len() - i,
    {
        assert(all[i as int] == items@[i as int]@);
        match decode_document(&items[i]) {
            Some(one) => {
                proof {
                    text::lemma_views_push(out@, one);
                }
                out.push(one);
            },
            None => {
                proof {
                    lemma_documents_stop(all, (i + 1) as nat, all.len());
                }
                return Err(
                    AppError::new(ErrorCode::ChangesetCorrupt, "graph_documents is malformed"),
                );
            },
        }
        i += 1;
    }
    Ok(out)
}

fn decode_document(value: &Json) -> (r: Option<Pair>)
    ensures
        text::opt_view(r) == document_in(value@),
{
    match value {
        Json::Array(parts) => {
            proof {
                json::lemma_array_view(*parts);
                assert(text::views(parts@).len() == parts@.len());
            }
            if parts.len() != 2 {
                return None;
            }
            assert(text::views(parts@)[0] == parts@[0]@);
            assert(text::views(parts@)[1] == parts@[1]@);
            match (&parts[0], &parts[1]) {
                (Json::Text(first), Json::Text(second)) => Some(
                    Pair::new(first.as_str(), second.as_str()),
                ),
                _ => None,
            }
        },
        _ => None,
    }
}

proof fn lemma_remaps_encoded(remaps: Seq<RemapView>, count: nat)
    requires
        count <= remaps.len(),
    ensures
        remaps_in(remaps_json(remaps)->Array_0, count) == Some(remaps.take(count as int)),
    decreases count,
{
    let items = remaps_json(remaps)->Array_0;
    if count == 0 {
        assert(remaps.take(0) =~= Seq::empty());
    } else {
        lemma_remaps_encoded(remaps, (count - 1) as nat);
        let remap = remaps[count - 1];
        let value = remap_json(remap);
        assert(items[count - 1] == value);
        let entries = value->Object_0;
        reveal_strlit("created");
        reveal_strlit("draft_id");
        reveal_strlit("live_id");
        assert("created"@.len() == 7 && "draft_id"@.len() == 8 && "live_id"@.len() == 7);
        assert("created"@[0] == 'c' && "live_id"@[0] == 'l');
        assert(entries[0].key == "created"@);
        assert(entries.drop_first()[0].key == "draft_id"@);
        assert(entries.drop_first().drop_first()[0].key == "live_id"@);
        assert(json::lookup(entries, "created"@) == Some(JsonView::Bool(remap.created)));
        assert(json::lookup(entries.drop_first(), "draft_id"@) == Some(
            JsonView::Int(remap.draft_id as int),
        ));
        assert(json::lookup(entries, "draft_id"@) == Some(JsonView::Int(remap.draft_id as int)));
        assert(json::lookup(entries.drop_first().drop_first(), "live_id"@) == Some(
            JsonView::Int(remap.live_id as int),
        ));
        assert(json::lookup(entries.drop_first(), "live_id"@) == Some(
            JsonView::Int(remap.live_id as int),
        ));
        assert(json::lookup(entries, "live_id"@) == Some(JsonView::Int(remap.live_id as int)));
        assert(remap_in(value) == Some(remap));
        assert(remaps.take(count as int) =~= remaps.take(count - 1).push(remap));
    }
}

proof fn lemma_documents_encoded(documents: Seq<PairView>, count: nat)
    requires
        count <= documents.len(),
    ensures
        documents_in(documents_json(documents)->Array_0, count) == Some(
            documents.take(count as int),
        ),
    decreases count,
{
    let items = documents_json(documents)->Array_0;
    if count == 0 {
        assert(documents.take(0) =~= Seq::empty());
    } else {
        lemma_documents_encoded(documents, (count - 1) as nat);
        let document = documents[count - 1];
        assert(items[count - 1] == document_json(document));
        assert(document_in(document_json(document)) == Some(document));
        assert(documents.take(count as int) =~= documents.take(count - 1).push(document));
    }
}

/// What the details of an operation say of moved sources and of documents is read
/// back as it was written.
pub proof fn law_commit_details_read_back(
    entries: Seq<json::EntryView>,
    remaps: Seq<RemapView>,
    documents: Seq<PairView>,
)
    requires
        json::lookup(entries, "source_id_remap"@) == Some(remaps_json(remaps)),
        json::lookup(entries, "graph_documents"@) == Some(documents_json(documents)),
    ensures
        remaps_of(JsonView::Object(entries)) == Ok::<Seq<RemapView>, AppErrorView>(remaps),
        documents_of(JsonView::Object(entries)) == Ok::<Seq<PairView>, AppErrorView>(documents),
{
    lemma_remaps_encoded(remaps, remaps.len());
    lemma_documents_encoded(documents, documents.len());
    assert(remaps.take(remaps.len() as int) =~= remaps);
    assert(documents.take(documents.len() as int) =~= documents);
}

// ---------------------------------------------------------------------------
// Committed changesets
// ---------------------------------------------------------------------------

/// The newest operation with an action and a target.
pub open spec fn newest_with(
    operations: Seq<OperationView>,
    action: Seq<char>,
    target: Seq<char>,
) -> Option<OperationView>
    decreases operations.len(),
{
    if operations.len() == 0 {
        None
    } else if operations.last().action == action && operations.last().target == target {
        Some(operations.last())
    } else {
        newest_with(operations.drop_last(), action, target)
    }
}

/// A count in the details of an operation.
pub open spec fn count_at(detail: JsonView, key: Seq<char>) -> Option<usize> {
    match detail.get(key) {
        Some(JsonView::Int(n)) => if 0 <= n <= usize::MAX {
            Some(n as usize)
        } else {
            None
        },
        Some(JsonView::Number(said)) => text::reads_as_count(said),
        _ => None,
    }
}

/// A count is read back from where it was written.
pub proof fn lemma_count_back(detail: JsonView, key: Seq<char>, n: usize)
    requires
        detail.get(key) == Some(json::count_view(n as nat)),
    ensures
        count_at(detail, key) == Some(n),
{
    text::law_count_reads_back(n);
}

/// A committed changeset.
pub struct ChangesetCommitState {
    pub changeset_id: String,
    pub name: String,
    pub base_revision: String,
    pub post_revision: String,
    pub checkpoint: String,
    pub staged_operation_count: usize,
    pub lint_issues: usize,
    pub source_id_remap: Vec<SourceIdRemap>,
    pub graph_documents: Vec<Pair>,
}

#[verifier::ext_equal]
pub struct CommitView {
    pub changeset_id: Seq<char>,
    pub name: Seq<char>,
    pub base_revision: Seq<char>,
    pub post_revision: Seq<char>,
    pub checkpoint: Seq<char>,
    pub staged_operation_count: usize,
    pub lint_issues: usize,
    pub source_id_remap: Seq<RemapView>,
    pub graph_documents: Seq<PairView>,
}

impl View for ChangesetCommitState {
    type V = CommitView;

    open spec fn view(&self) -> CommitView {
        CommitView {
            changeset_id: self.changeset_id@,
            name: self.name@,
            base_revision: self.base_revision@,
            post_revision: self.post_revision@,
            checkpoint: self.checkpoint@,
            staged_operation_count: self.staged_operation_count,
            lint_issues: self.lint_issues,
            source_id_remap: text::views(self.source_id_remap@),
            graph_documents: text::views(self.graph_documents@),
        }
    }
}


/// A changeset that was taken back.
pub struct ChangesetRollbackState {
    pub changeset_id: String,
    pub name: String,
    pub rollback_revision: String,
    pub checkpoint: String,
    pub graph_documents: Vec<Pair>,
}

#[verifier::ext_equal]
pub struct RollbackView {
    pub changeset_id: Seq<char>,
    pub name: Seq<char>,
    pub rollback_revision: Seq<char>,
    pub checkpoint: Seq<char>,
    pub graph_documents: Seq<PairView>,
}

impl View for ChangesetRollbackState {
    type V = RollbackView;

    open spec fn view(&self) -> RollbackView {
        RollbackView {
            changeset_id: self.changeset_id@,
            name: self.name@,
            rollback_revision: self.rollback_revision@,
            checkpoint: self.checkpoint@,
            graph_documents: text::views(self.graph_documents@),
        }
    }
}


/// The error of a row whose value is absent.
pub open spec fn null_value() -> AppErrorView {
    error::app_error(ErrorCode::DatabaseError, "Invalid column type Null"@)
}

/// A committed changeset, where there is one with its operation.
pub open spec fn committed(store: StoreView, id: Seq<char>) -> Result<
    Option<CommitView>,
    AppErrorView,
> {
    let op = newest_with(store.operations, "changeset_commit"@, id);
    if !store.changesets.dom().contains(id) || store.changesets[id].status != "committed"@ || op
        is None {
        Ok(None)
    } else {
        let row = store.changesets[id];
        let detail = op->0.detail;
        match (row.post_revision, row.pre_commit_checkpoint) {
            (Some(post_revision), Some(checkpoint)) => match count_at(
                detail,
                "staged_operation_count"@,
            ) {
                None => error::refused(
                    ErrorCode::ChangesetCorrupt,
                    "changeset commit operation lacks staged_operation_count"@,
                ),
                Some(staged_operation_count) => match count_at(detail, "lint_issues"@) {
                    None => error::refused(
                        ErrorCode::ChangesetCorrupt,
                        "changeset commit operation lacks lint_issues"@,
                    ),
                    Some(lint_issues) => match remaps_of(detail) {
                        Err(e) => Err(e),
                        Ok(source_id_remap) => match documents_of(detail) {
                            Err(e) => Err(e),
                            Ok(graph_documents) => Ok(
                                Some(
                                    CommitView {
                                        changeset_id: id,
                                        name: row.name,
                                        base_revision: row.base_revision,
                                        post_revision,
                                        checkpoint,
                                        staged_operation_count,
                                        lint_issues,
                                        source_id_remap,
                                        graph_documents,
                                    },
                                ),
                            ),
                        },
                    },
                },
            },
            _ => Err(null_value()),
        }
    }
}

/// A changeset that was taken back, where there is one with its operation.
pub open spec fn rolled_back(store: StoreView, id: Seq<char>) -> Result<
    Option<RollbackView>,
    AppErrorView,
> {
    let op = newest_with(store.operations, "changeset_rollback"@, id);
    if !store.changesets.dom().contains(id) || store.changesets[id].status != "rolled_back"@ || op
        is None {
        Ok(None)
    } else {
        let detail = op->0.detail;
        match detail.text_at("pre_rollback_checkpoint"@) {
            None => error::refused(
                ErrorCode::ChangesetCorrupt,
                "rollback operation lacks pre_rollback_checkpoint"@,
            ),
            Some(checkpoint) => match detail.text_at("rollback_revision"@) {
                None => error::refused(
                    ErrorCode::ChangesetCorrupt,
                    "rollback operation lacks rollback_revision"@,
                ),
                Some(rollback_revision) => match documents_of(detail) {
                    Err(e) => Err(e),
                    Ok(graph_documents) => Ok(
                        Some(
                            RollbackView {
                                changeset_id: id,
                                name: store.changesets[id].name,
                                rollback_revision,
                                checkpoint,
                                graph_documents,
                            },
                        ),
                    ),
                },
            },
        }
    }
}

/// Where the sources of a committed changeset stand.
pub open spec fn committed_remaps(store: StoreView, id: Seq<char>) -> Result<
    Seq<RemapView>,
    AppErrorView,
> {
    match newest_with(store.operations, "changeset_commit"@, id) {
        None => Err(store::no_rows()),
        Some(op) => remaps_of(op.detail),
    }
}

fn count_in(detail: &Json, key: &str) -> (r: Option<usize>)
    ensures
        r == count_at(detail@, key@),
{
    match detail.get(key) {
        Some(Json::Int(n)) => if *n >= 0 && *n as u64 <= usize::MAX as u64 {
            Some(*n as usize)
        } else {
            None
        },
        Some(Json::Number(said)) => parse_count(said.as_str()),
        _ => None,
    }
}

impl Store {
    /// The newest operation with an action and a target.
    pub fn find_operation(&self, action: &str, target: &str) -> (r: Option<&OperationRow>)
        ensures
            match newest_with(self@.operations, action@, target@) {
                Some(op) => r matches Some(found) && found@ == op,
                None => r is None,
            },
    {
        let ghost all = self@.operations;
        let mut n: usize = self.operations.len();
        assert(all.len() == n);
        assert(all.take(n as int) =~= all);
        while n > 0
            invariant
                n <= self.operations@.len() == all.len(),
                all == text::views(self.operations@),
                newest_with(all, action@, target@) == newest_with(
                    all.take(n as int),
                    action@,
                    target@,
                ),
            decreases n,
        {
            let op = &self.operations[n - 1];
            assert(all.take(n as int).last() == op@);
            assert(all.take(n as int).drop_last() =~= all.take(n - 1));
            if same_text(op.action.as_str(), action) && same_text(op.target.as_str(), target) {
                return Some(op);
            }
            n -= 1;
        }
        None
    }

    /// A committed changeset.
    pub fn changeset_committed_by_id(&self, id: &str) -> (r: Result<
        Option<ChangesetCommitState>,
        AppError,
    >)
        ensures
            match committed(self@, id@) {
                Ok(found) => r matches Ok(got) && text::opt_view(got) == found,
                Err(e) => r matches Err(got) && got@ == e,
            },
    {
        let row = match self.changesets.get(&owned(id)) {
            Some(row) => row,
            None => {
                return Ok(None);
            },
        };
        let op = match self.find_operation("changeset_commit", id) {
            Some(op) => op,
            None => {
                return Ok(None);
            },
        };
        if !same_text(row.status.as_str(), "committed") {
            return Ok(None);
        }
        let (post_revision, checkpoint) = match (&row.post_revision, &row.pre_commit_checkpoint) {
            (Some(post_revision), Some(checkpoint)) => (post_revision, checkpoint),
            _ => {
                return Err(AppError::new(ErrorCode::DatabaseError, "Invalid column type Null"));
            },
        };
        let staged_operation_count = match count_in(&op.detail, "staged_operation_count") {
            Some(count) => count,
            None => {
                return Err(
                    AppError::new(
                        ErrorCode::ChangesetCorrupt,
                        "changeset commit operation lacks staged_operation_count",
                    ),
                );
            },
        };
        let lint_issues = match count_in(&op.detail, "lint_issues") {
            Some(count) => count,
            None => {
                return Err(
                    AppError::new(
                        ErrorCode::ChangesetCorrupt,
                        "changeset commit operation lacks lint_issues",
                    ),
                );
            },
        };
        let source_id_remap = match decode_remaps(&op.detail) {
            Ok(remaps) => remaps,
            Err(e) => {
                return Err(e);
            },
        };
        let graph_documents = match decode_documents(&op.detail) {
            Ok(documents) => documents,
            Err(e) => {
                return Err(e);
            },
        };
        Ok(
            Some(
                ChangesetCommitState {
                    changeset_id: owned(id),
                    name: owned(row.name.as_str()),
                    base_revision: owned(row.base_revision.as_str()),
                    post_revision: owned(post_revision.as_str()),
                    checkpoint: owned(checkpoint.as_str()),
                    staged_operation_count,
                    lint_issues,
                    source_id_remap,
                    graph_documents,
                },
            ),
        )
    }

    /// A changeset that was taken back.
    pub fn changeset_rollback_state_by_id(&self, id: &str) -> (r: Result<
        Option<ChangesetRollbackState>,
        AppError,
    >)
        ensures
            match rolled_back(self@, id@) {
                Ok(found) => r matches Ok(got) && text::opt_view(got) == found,
                Err(e) => r matches Err(got) && got@ == e,
            },
    {
        let row = match self.changesets.get(&owned(id)) {
            Some(row) => row,
            None => {
                return Ok(None);
            },
        };
        let op = match self.find_operation("changeset_rollback", id) {
            Some(op) => op,
            None => {
                return Ok(None);
            },
        };
        if !same_text(row.status.as_str(), "rolled_back") {
            return Ok(None);
        }
        let checkpoint = match op.detail.text_at("pre_rollback_checkpoint") {
            Some(checkpoint) => checkpoint,
            None => {
                return Err(
                    AppError::new(
                        ErrorCode::ChangesetCorrupt,
                        "rollback operation lacks pre_rollback_checkpoint",
                    ),
                );
            },
        };
        let rollback_revision = match op.detail.text_at("rollback_revision") {
            Some(revision) => revision,
            None => {
                return Err(
                    AppError::new(
                        ErrorCode::ChangesetCorrupt,
                        "rollback operation lacks rollback_revision",
                    ),
                );
            },
        };
        match decode_documents(&op.detail) {
            Ok(graph_documents) => Ok(
                Some(
                    ChangesetRollbackState {
                        changeset_id: owned(id),
                        name: owned(row.name.as_str()),
                        rollback_revision: owned(rollback_revision.as_str()),
                        checkpoint: owned(checkpoint.as_str()),
                        graph_documents,
                    },
                ),
            ),
            Err(e) => Err(e),
        }
    }

    /// Where the sources of a committed changeset stand.
    pub fn load_sparse_source_id_remap(&self, id: &str) -> (r: Result<
        Vec<SourceIdRemap>,
        AppError,
    >)
        ensures
            match committed_remaps(self@, id@) {
                Ok(list) => r matches Ok(got) && text::views(got@) == list,
                Err(e) => r matches Err(got) && got@ == e,
            },
    {
        match self.find_operation("changeset_commit", id) {
            Some(op) => decode_remaps(&op.detail),
            None => Err(store::no_rows_error()),
        }
    }
}

} // verus!
