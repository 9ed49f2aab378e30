//! The discussions of a store, with the batches that made them and the agent
//! contexts that work on them.
use crate::discussion;
use crate::discussion::{
    discussion_error, validate_discussion_body, BodyView, DiscussionBody, DiscussionItem, ItemView,
    Items,
};
use crate::discussion_apply;
use crate::discussion_apply::{apply_operation, DiscussionOperation, OperationView, StepView};
use crate::error;
use crate::error::{AppError, AppErrorView, ErrorCode};
use crate::json;
use crate::json::{canonical_sync_value, Json, JsonView};
use crate::table;
use crate::table::{Record, Table};
use crate::text;
use crate::text::{
    begins_with, blank, byte_len, chars_of, copy_opt, lower_hex, owned, same_opt, same_text,
    slice_text,
};
use vstd::prelude::*;

verus! {

/// The most operations that one batch may have.
pub const MAX_BATCH: usize = 64;

/// The most bytes that one batch may have.
pub const MAX_BATCH_BYTES: usize = 1048576;

/// The most bytes that a discussion may have.
pub const MAX_BODY_BYTES: usize = 16777216;

/// The longest text that is shown in an overview.
pub const HOOK_TEXT_LIMIT: usize = 500;

// ---------------------------------------------------------------------------
// Agent contexts and overview texts
// ---------------------------------------------------------------------------

/// A token that names an agent's context: a fixed prefix and a digest.
pub open spec fn is_agent_context(value: Seq<char>) -> bool {
    "lwcctx-v1-"@.is_prefix_of(value) && text::is_lower_hex(
        value.skip("lwcctx-v1-"@.len() as int),
        64,
    )
}

pub open spec fn bad_context() -> AppErrorView {
    error::app_error(ErrorCode::InvalidAgentContext, "context must be an lwcctx-v1 token"@)
}

/// The token, where it names an agent's context.
pub fn normalize_agent_context(value: &str) -> (r: Result<String, AppError>)
    ensures
        error::outcome(r) == (if is_agent_context(value@) {
            Ok::<Seq<char>, AppErrorView>(value@)
        } else {
            Err(bad_context())
        }),
{
    if begins_with(value, "lwcctx-v1-") {
        let chars = chars_of(value);
        let prefix = chars_of("lwcctx-v1-");
        let rest = slice_text(&chars, prefix.len(), chars.len());
        assert(rest@ =~= value@.skip("lwcctx-v1-"@.len() as int));
        if lower_hex(rest.as_str(), 64) {
            return Ok(owned(value));
        }
    }
    Err(AppError::new(ErrorCode::InvalidAgentContext, "context must be an lwcctx-v1 token"))
}

/// A text cut to what an overview shows.
pub open spec fn hook_text(value: Seq<char>) -> Seq<char> {
    if value.len() <= HOOK_TEXT_LIMIT {
        value
    } else {
        value.take(HOOK_TEXT_LIMIT - 1).push('…')
    }
}

/// A text cut to what an overview shows.
pub fn bounded_hook_text(value: &str) -> (r: String)
    ensures
        r@ == hook_text(value@),
{
    let chars = chars_of(value);
    if chars.len() <= HOOK_TEXT_LIMIT {
        return owned(value);
    }
    let mut out = slice_text(&chars, 0, HOOK_TEXT_LIMIT - 1);
    assert(out@ =~= value@.take(HOOK_TEXT_LIMIT - 1));
    out.push('…');
    out
}

/// A text in an overview has at most as many characters as an overview shows.
pub proof fn law_overview_text_is_bounded(value: Seq<char>)
    ensures
        hook_text(value).len() <= HOOK_TEXT_LIMIT,
        hook_text(hook_text(value)) == hook_text(value),
{
}

// ---------------------------------------------------------------------------
// Batches
// ---------------------------------------------------------------------------

/// A batch of operations for one discussion.
pub struct DiscussionInput {
    pub id: String,
    pub context: String,
    pub request_id: String,
    pub if_revision: i64,
    pub operations: Vec<DiscussionOperation>,
    pub from_context: Option<String>,
}

/// What a batch says.
#[verifier::ext_equal]
pub struct InputView {
    pub id: Seq<char>,
    pub context: Seq<char>,
    pub request_id: Seq<char>,
    pub if_revision: int,
    pub operations: Seq<OperationView>,
    pub from_context: Option<Seq<char>>,
}

impl View for DiscussionInput {
    type V = InputView;

    open spec fn view(&self) -> InputView {
        InputView {
            id: self.id@,
            context: self.context@,
            request_id: self.request_id@,
            if_revision: self.if_revision as int,
            operations: text::views(self.operations@),
            from_context: text::opt_text(self.from_context),
        }
    }
}

fn copy_operations(list: &Vec<DiscussionOperation>) -> (r: Vec<DiscussionOperation>)
    ensures
        text::views(r@) == text::views(list@),
{
    let mut out: Vec<DiscussionOperation> = Vec::new();
    let mut i: usize = 0;
    while i < list.len()
        invariant
            i <= list@.len(),
            out@.len() == i,
            forall|j: int| 0 <= j < i ==> #[trigger] out@[j]@ == list@[j]@,
        decreases list@.len() - i,
    {
        out.push(list[i].duplicate());
        i += 1;
    }
    assert(text::views(out@) =~= text::views(list@));
    out
}

fn same_operations(a: &Vec<DiscussionOperation>, b: &Vec<DiscussionOperation>) -> (r: bool)
    ensures
        r == (text::views(a@) == text::views(b@)),
{
    if a.len() != b.len() {
        assert(text::views(a@).len() != text::views(b@).len());
        return false;
    }
    let mut i: usize = 0;
    while i < a.len()
        invariant
            i <= a@.len(),
            a@.len() == b@.len(),
            forall|j: int| 0 <= j < i ==> #[trigger] a@[j]@ == b@[j]@,
        decreases a@.len() - i,
    {
        if !a[i].same(&b[i]) {
            assert(text::views(a@)[i as int] != text::views(b@)[i as int]);
            return false;
        }
        i += 1;
    }
    assert(text::views(a@) =~= text::views(b@));
    true
}

impl Record for DiscussionInput {
    fn duplicate(&self) -> (r: Self) {
        DiscussionInput {
            id: owned(self.id.as_str()),
            context: owned(self.context.as_str()),
            request_id: owned(self.request_id.as_str()),
            if_revision: self.if_revision,
            operations: copy_operations(&self.operations),
            from_context: copy_opt(&self.from_context),
        }
    }

    fn same(&self, other: &Self) -> (r: bool) {
        same_text(self.id.as_str(), other.id.as_str()) && same_text(
            self.context.as_str(),
            other.context.as_str(),
        ) && same_text(self.request_id.as_str(), other.request_id.as_str()) && self.if_revision
            == other.if_revision && same_operations(&self.operations, &other.operations)
            && same_opt(&self.from_context, &other.from_context)
    }
}

// ---------------------------------------------------------------------------
// JSON
// ---------------------------------------------------------------------------

pub open spec fn opt_json(value: Option<Seq<char>>) -> JsonView {
    match value {
        Some(t) => JsonView::Text(t),
        None => JsonView::Null,
    }
}

pub open spec fn list_json(list: Seq<Seq<char>>) -> JsonView {
    JsonView::Array(list.map_values(|t: Seq<char>| JsonView::Text(t)))
}

/// An operation as JSON.
pub open spec fn operation_json(op: OperationView) -> JsonView {
    JsonView::Object(
        seq![
            json::entry(
                "confirmed"@,
                match op.confirmed {
                    Some(b) => JsonView::Bool(b),
                    None => JsonView::Null,
                },
            ),
            json::entry("description"@, opt_json(op.description)),
            json::entry("id"@, opt_json(op.id)),
            json::entry("message_id"@, opt_json(op.message_id)),
            json::entry("op"@, JsonView::Text(op.op)),
            json::entry(
                "ordinal"@,
                match op.ordinal {
                    Some(n) => JsonView::Int(n as int),
                    None => JsonView::Null,
                },
            ),
            json::entry("parent"@, opt_json(op.parent)),
            json::entry("reason"@, opt_json(op.reason)),
            json::entry("refs"@, list_json(op.refs)),
            json::entry("text"@, opt_json(op.text)),
        ],
    )
}

/// Operations as JSON.
pub open spec fn operations_json(list: Seq<OperationView>) -> JsonView {
    JsonView::Array(list.map_values(|op: OperationView| operation_json(op)))
}

/// A batch as JSON.
pub open spec fn input_json(input: InputView) -> JsonView {
    JsonView::Object(
        seq![
            json::entry("context"@, JsonView::Text(input.context)),
            json::entry("from_context"@, opt_json(input.from_context)),
            json::entry("id"@, JsonView::Text(input.id)),
            json::entry("if_revision"@, JsonView::Int(input.if_revision)),
            json::entry("operations"@, operations_json(input.operations)),
            json::entry("request_id"@, JsonView::Text(input.request_id)),
        ],
    )
}

/// An item as JSON.
pub open spec fn item_json(item: ItemView) -> JsonView {
    JsonView::Object(
        seq![
            json::entry("confirmed"@, JsonView::Bool(item.confirmed)),
            json::entry("delivery"@, JsonView::Text(item.delivery)),
            json::entry("id"@, JsonView::Text(item.id)),
            json::entry("kind"@, JsonView::Text(item.kind)),
            json::entry("message_id"@, opt_json(item.message_id)),
            json::entry("ordinal"@, JsonView::Int(item.ordinal)),
            json::entry("original"@, JsonView::Text(item.original)),
            json::entry("parent"@, opt_json(item.parent)),
            json::entry("refs"@, list_json(item.refs)),
            json::entry("revision"@, JsonView::Int(item.revision)),
            json::entry("stale"@, JsonView::Bool(item.stale)),
            json::entry("text"@, JsonView::Text(item.text)),
            json::entry("withdrawn"@, JsonView::Bool(item.withdrawn)),
        ],
    )
}

/// The items of a discussion as JSON, by their identifiers.
pub open spec fn items_json(items: Items) -> JsonView {
    JsonView::Object(
        table::ordered::<String>(items.dom()).map_values(
            |id: Seq<char>| json::entry(id, item_json(items[id])),
        ),
    )
}

/// The document of a discussion as JSON.
pub open spec fn body_json(body: BodyView) -> JsonView {
    JsonView::Object(
        seq![
            json::entry("description"@, JsonView::Text(body.description)),
            json::entry("id"@, JsonView::Text(body.id)),
            json::entry("items"@, items_json(body.items)),
            json::entry("revision"@, JsonView::Int(body.revision)),
            json::entry("state"@, JsonView::Text(body.state)),
            json::entry("title"@, JsonView::Text(body.title)),
        ],
    )
}

pub fn encode_opt(value: &Option<String>) -> (r: Json)
    ensures
        r@ == opt_json(text::opt_text(*value)),
{
    match value {
        Some(t) => Json::text(t.as_str()),
        None => Json::Null,
    }
}

pub fn encode_list(list: &Vec<String>) -> (r: Json)
    ensures
        r@ == list_json(text::views(list@)),
{
    let mut items: Vec<Json> = Vec::new();
    let mut i: usize = 0;
    while i < list.len()
        invariant
            i <= list@.len(),
            items@.len() == i,
            forall|j: int| 0 <= j < i ==> (#[trigger] items@[j])@ == JsonView::Text(list@[j]@),
        decreases list@.len() - i,
    {
        items.push(Json::text(list[i].as_str()));
        i += 1;
    }
    proof {
        json::lemma_array_view(items);
        assert(text::views(items@) =~= text::views(list@).map_values(
            |t: Seq<char>| JsonView::Text(t),
        ));
    }
    Json::Array(items)
}

fn encode_operation(op: &DiscussionOperation) -> (r: Json)
    ensures
        r@ == operation_json(op@),
{
    let mut entries: Vec<(String, Json)> = Vec::new();
    entries.push(
        (
            owned("confirmed"),
            match op.confirmed {
                Some(b) => Json::Bool(b),
                None => Json::Null,
            },
        ),
    );
    entries.push((owned("description"), encode_opt(&op.description)));
    entries.push((owned("id"), encode_opt(&op.id)));
    entries.push((owned("message_id"), encode_opt(&op.message_id)));
    entries.push((owned("op"), Json::text(op.op.as_str())));
    entries.push(
        (
            owned("ordinal"),
            match op.ordinal {
                Some(n) => Json::Int(n),
                None => Json::Null,
            },
        ),
    );
    entries.push((owned("parent"), encode_opt(&op.parent)));
    entries.push((owned("reason"), encode_opt(&op.reason)));
    entries.push((owned("refs"), encode_list(&op.refs)));
    entries.push((owned("text"), encode_opt(&op.text)));
    proof {
        json::lemma_object_view(entries);
        assert(json::entry_views(entries@) =~= operation_json(op@)->Object_0);
    }
    Json::Object(entries)
}

/// Operations as JSON.
pub fn encode_operations(operations: &Vec<DiscussionOperation>) -> (r: Json)
    ensures
        r@ == operations_json(text::views(operations@)),
{
    let mut list: Vec<Json> = Vec::new();
    let mut i: usize = 0;
    while i < operations.len()
        invariant
            i <= operations@.len(),
            list@.len() == i,
            forall|j: int| 0 <= j < i ==> (#[trigger] list@[j])@ == operation_json(operations@[j]@),
        decreases operations@.len() - i,
    {
        list.push(encode_operation(&operations[i]));
        i += 1;
    }
    proof {
        json::lemma_array_view(list);
        assert(text::views(list@) =~= text::views(operations@).map_values(
            |op: OperationView| operation_json(op),
        ));
    }
    Json::Array(list)
}

/// A batch as JSON.
pub fn encode_input(input: &DiscussionInput) -> (r: Json)
    ensures
        r@ == input_json(input@),
{
    let mut entries: Vec<(String, Json)> = Vec::new();
    entries.push((owned("context"), Json::text(input.context.as_str())));
    entries.push((owned("from_context"), encode_opt(&input.from_context)));
    entries.push((owned("id"), Json::text(input.id.as_str())));
    entries.push((owned("if_revision"), Json::Int(input.if_revision)));
    entries.push((owned("operations"), encode_operations(&input.operations)));
    entries.push((owned("request_id"), Json::text(input.request_id.as_str())));
    proof {
        json::lemma_object_view(entries);
        assert(json::entry_views(entries@) =~= input_json(input@)->Object_0);
    }
    Json::Object(entries)
}

/// An item as JSON.
pub fn encode_item(item: &DiscussionItem) -> (r: Json)
    ensures
        r@ == item_json(item@),
{
    let mut entries: Vec<(String, Json)> = Vec::new();
    entries.push((owned("confirmed"), Json::Bool(item.confirmed)));
    entries.push((owned("delivery"), Json::text(item.delivery.as_str())));
    entries.push((owned("id"), Json::text(item.id.as_str())));
    entries.push((owned("kind"), Json::text(item.kind.as_str())));
    entries.push((owned("message_id"), encode_opt(&item.message_id)));
    entries.push((owned("ordinal"), Json::Int(item.ordinal)));
    entries.push((owned("original"), Json::text(item.original.as_str())));
    entries.push((owned("parent"), encode_opt(&item.parent)));
    entries.push((owned("refs"), encode_list(&item.refs)));
    entries.push((owned("revision"), Json::Int(item.revision)));
    entries.push((owned("stale"), Json::Bool(item.stale)));
    entries.push((owned("text"), Json::text(item.text.as_str())));
    entries.push((owned("withdrawn"), Json::Bool(item.withdrawn)));
    proof {
        json::lemma_object_view(entries);
        assert(json::entry_views(entries@) =~= item_json(item@)->Object_0);
    }
    Json::Object(entries)
}

/// The document of a discussion as JSON.
pub fn encode_body(body: &DiscussionBody) -> (r: Json)
    ensures
        r@ == body_json(body@),
{
    let n = body.items.len();
    let ghost keys = body.items.keys();
    let mut items: Vec<(String, Json)> = Vec::new();
    let mut i: usize = 0;
    while i < n
        invariant
            i <= n == keys.len(),
            keys == body.items.keys(),
            items@.len() == i,
            forall|j: int|
                0 <= j < i ==> json::entry_views(items@)[j] == json::entry(
                    #[trigger] keys[j],
                    item_json(body.items@[keys[j]]),
                ),
        decreases n - i,
    {
        let ghost so_far = items@;
        items.push(
            (owned(body.items.key_at(i).as_str()), encode_item(body.items.value_at(i))),
        );
        assert forall|j: int| 0 <= j < i + 1 implies json::entry_views(items@)[j] == json::entry(
            #[trigger] keys[j],
            item_json(body.items@[keys[j]]),
        ) by {
            if j < i {
                assert(json::entry_views(so_far)[j] == json::entry_views(items@)[j]);
            }
        }
        i += 1;
    }
    proof {
        table::lemma_ordered_is::<String>(keys, body.items@.dom());
        json::lemma_object_view(items);
        assert(json::entry_views(items@) =~= items_json(body.items@)->Object_0);
    }
    let mut entries: Vec<(String, Json)> = Vec::new();
    entries.push((owned("description"), Json::text(body.description.as_str())));
    entries.push((owned("id"), Json::text(body.id.as_str())));
    entries.push((owned("items"), Json::Object(items)));
    entries.push((owned("revision"), Json::Int(body.revision)));
    entries.push((owned("state"), Json::text(body.state.as_str())));
    entries.push((owned("title"), Json::text(body.title.as_str())));
    proof {
        json::lemma_object_view(entries);
        assert(json::entry_views(entries@) =~= body_json(body@)->Object_0);
    }
    Json::Object(entries)
}

// ---------------------------------------------------------------------------
// The book
// ---------------------------------------------------------------------------

/// A discussion, with the context that owns it.
pub struct Discussion {
    pub context: String,
    pub revision: i64,
    pub body: DiscussionBody,
}

#[verifier::ext_equal]
pub struct DiscussionView {
    pub context: Seq<char>,
    pub revision: int,
    pub body: BodyView,
}

impl View for Discussion {
    type V = DiscussionView;

    open spec fn view(&self) -> DiscussionView {
        DiscussionView {
            context: self.context@,
            revision: self.revision as int,
            body: self.body@,
        }
    }
}

impl Record for Discussion {
    fn duplicate(&self) -> (r: Self) {
        Discussion {
            context: owned(self.context.as_str()),
            revision: self.revision,
            body: self.body.duplicate(),
        }
    }

    fn same(&self, other: &Self) -> (r: bool) {
        same_text(self.context.as_str(), other.context.as_str()) && self.revision == other.revision
            && self.body.same(&other.body)
    }
}

/// A batch that was applied.
pub struct DiscussionRevision {
    pub revision: i64,
    pub request_id: String,
    pub input: DiscussionInput,
    pub created_at: String,
}

#[verifier::ext_equal]
pub struct RevisionView {
    pub revision: int,
    pub request_id: Seq<char>,
    pub input: InputView,
    pub created_at: Seq<char>,
}

impl View for DiscussionRevision {
    type V = RevisionView;

    open spec fn view(&self) -> RevisionView {
        RevisionView {
            revision: self.revision as int,
            request_id: self.request_id@,
            input: self.input@,
            created_at: self.created_at@,
        }
    }
}

impl Record for DiscussionRevision {
    fn duplicate(&self) -> (r: Self) {
        DiscussionRevision {
            revision: self.revision,
            request_id: owned(self.request_id.as_str()),
            input: self.input.duplicate(),
            created_at: owned(self.created_at.as_str()),
        }
    }

    fn same(&self, other: &Self) -> (r: bool) {
        self.revision == other.revision && same_text(
            self.request_id.as_str(),
            other.request_id.as_str(),
        ) && self.input.same(&other.input) && same_text(
            self.created_at.as_str(),
            other.created_at.as_str(),
        )
    }
}

/// The batches of one discussion, the oldest first.
pub struct RevisionLog {
    pub list: Vec<DiscussionRevision>,
}

impl View for RevisionLog {
    type V = Seq<RevisionView>;

    open spec fn view(&self) -> Seq<RevisionView> {
        text::views(self.list@)
    }
}

impl Record for RevisionLog {
    fn duplicate(&self) -> (r: Self) {
        let mut list: Vec<DiscussionRevision> = Vec::new();
        let mut i: usize = 0;
        while i < self.list.len()
            invariant
                i <= self.list@.len(),
                list@.len() == i,
                forall|j: int| 0 <= j < i ==> #[trigger] list@[j]@ == self.list@[j]@,
            decreases self.list@.len() - i,
        {
            list.push(self.list[i].duplicate());
            i += 1;
        }
        assert(text::views(list@) =~= text::views(self.list@));
        RevisionLog { list }
    }

    fn same(&self, other: &Self) -> (r: bool) {
        if self.list.len() != other.list.len() {
            assert(self@.len() != other@.len());
            return false;
        }
        let mut i: usize = 0;
        while i < self.list.len()
            invariant
                i <= self.list@.len(),
                self.list@.len() == other.list@.len(),
                forall|j: int| 0 <= j < i ==> #[trigger] self.list@[j]@ == other.list@[j]@,
            decreases self.list@.len() - i,
        {
            if !self.list[i].same(&other.list[i]) {
                assert(self@[i as int] != other@[i as int]);
                return false;
            }
            i += 1;
        }
        assert(self@ =~= other@);
        true
    }
}

/// The discussions of a store.
pub struct DiscussionBook {
    pub discussions: Table<String, Discussion>,
    pub revisions: Table<String, RevisionLog>,
    /// The discussion that each agent context works on.
    pub bindings: Table<String, String>,
}

#[verifier::ext_equal]
pub struct BookView {
    pub discussions: Map<Seq<char>, DiscussionView>,
    pub revisions: Map<Seq<char>, Seq<RevisionView>>,
    pub bindings: Map<Seq<char>, Seq<char>>,
}

impl View for DiscussionBook {
    type V = BookView;

    open spec fn view(&self) -> BookView {
        BookView {
            discussions: self.discussions@,
            revisions: self.revisions@,
            bindings: self.bindings@,
        }
    }
}

impl Record for DiscussionBook {
    fn duplicate(&self) -> (r: Self) {
        DiscussionBook {
            discussions: self.discussions.copy(),
            revisions: self.revisions.copy(),
            bindings: self.bindings.copy(),
        }
    }

    fn same(&self, other: &Self) -> (r: bool) {
        self.discussions.equals(&other.discussions) && self.revisions.equals(&other.revisions)
            && self.bindings.equals(&other.bindings)
    }
}

/// What applying a batch came to.
pub struct DiscussionApplied {
    pub id: String,
    pub revision: i64,
    pub replayed: bool,
}

#[verifier::ext_equal]
pub struct AppliedView {
    pub id: Seq<char>,
    pub revision: int,
    pub replayed: bool,
}

impl View for DiscussionApplied {
    type V = AppliedView;

    open spec fn view(&self) -> AppliedView {
        AppliedView { id: self.id@, revision: self.revision as int, replayed: self.replayed }
    }
}

// ---------------------------------------------------------------------------
// Applying a batch
// ---------------------------------------------------------------------------

pub open spec fn good_id(id: Seq<char>) -> bool {
    !text::is_blank(id) && text::byte_count(id) <= discussion::MAX_ID_BYTES
}

/// Why a batch is not looked at, if anything speaks against it. `secret` where
/// its text looks as if it held one, `frozen` where the store takes no more writes.
pub open spec fn admission(input: InputView, secret: bool, frozen: bool) -> Option<AppErrorView> {
    let no = |message: Seq<char>|
        Some(error::app_error(ErrorCode::InvalidDiscussion, message));
    if !is_agent_context(input.context) {
        Some(bad_context())
    } else if !good_id(input.id) || !good_id(input.context) || !good_id(input.request_id) {
        no("IDs must be 1..256 bytes"@)
    } else if input.operations.len() == 0 || input.operations.len() > MAX_BATCH {
        no("expected 1..64 operations"@)
    } else if input.if_revision < 0 || input.if_revision == i64::MAX {
        no("invalid revision"@)
    } else if text::byte_count(json::canonical_text(input_json(input))) > MAX_BATCH_BYTES {
        no("batch exceeds 1 MiB"@)
    } else if secret {
        no("possible secret excluded; submit a gap marker without sensitive text"@)
    } else if frozen {
        no("store is frozen for publication"@)
    } else {
        None
    }
}

/// The batch with this request identifier, where it was applied before.
pub open spec fn earlier_request(
    log: Seq<RevisionView>,
    request_id: Seq<char>,
) -> Option<RevisionView>
    decreases log.len(),
{
    if log.len() == 0 {
        None
    } else if log[0].request_id == request_id {
        Some(log[0])
    } else {
        earlier_request(log.drop_first(), request_id)
    }
}

/// The batches applied to a discussion so far.
pub open spec fn log_of(book: BookView, id: Seq<char>) -> Seq<RevisionView> {
    if book.revisions.dom().contains(id) {
        book.revisions[id]
    } else {
        Seq::empty()
    }
}

/// The first operation is to resume the discussion.
pub open spec fn resumes(input: InputView) -> bool {
    input.operations.len() > 0 && input.operations[0].op == "resume"@
}

/// What a batch comes to before the result is checked.
#[verifier::ext_equal]
pub struct PlanView {
    /// The revision that an earlier, equal batch made.
    pub replay: Option<int>,
    pub body: BodyView,
}

/// The document of a discussion that has not started.
pub open spec fn blank_body(id: Seq<char>) -> BodyView {
    BodyView {
        id,
        title: Seq::empty(),
        description: Seq::empty(),
        state: "active"@,
        items: Map::empty(),
        revision: 0,
    }
}

/// What a batch that is looked at comes to.
pub open spec fn plan(book: BookView, input: InputView) -> Result<PlanView, AppErrorView> {
    let known = book.discussions.dom().contains(input.id);
    let existing = book.discussions[input.id];
    let earlier = earlier_request(log_of(book, input.id), input.request_id);
    let revision = if known {
        existing.revision
    } else {
        0
    };
    let body = if known {
        existing.body
    } else {
        blank_body(input.id)
    };
    if known && existing.context != input.context && !(input.from_context == Some(existing.context)
        && resumes(input)) {
        discussion::discussion_refused("context mismatch"@)
    } else if earlier is Some {
        if earlier->0.input == input {
            Ok(PlanView { replay: Some(earlier->0.revision), body })
        } else {
            discussion::discussion_refused("request ID reused with different input"@)
        }
    } else if revision != input.if_revision {
        discussion::discussion_refused("revision conflict"@)
    } else if body.state != "active"@ && !resumes(input) {
        discussion::discussion_refused("resume the discussion explicitly before editing"@)
    } else if book.bindings.dom().contains(input.context) && book.bindings[input.context]
        != input.id {
        discussion::discussion_refused("pause current discussion before switching"@)
    } else {
        match discussion_apply::with_operations(
            StepView { body, started: revision > 0 },
            input.operations,
            revision,
            input.operations.len(),
        ) {
            Ok(step) => Ok(PlanView { replay: None, body: step.body }),
            Err(e) => Err(e),
        }
    }
}

/// A binding dropped, where it is to this discussion.
pub open spec fn unbound(
    bindings: Map<Seq<char>, Seq<char>>,
    context: Seq<char>,
    id: Seq<char>,
) -> Map<Seq<char>, Seq<char>> {
    if bindings.dom().contains(context) && bindings[context] == id {
        bindings.remove(context)
    } else {
        bindings
    }
}

/// The book with a batch and its result written down.
pub open spec fn recorded(
    book: BookView,
    input: InputView,
    body: BodyView,
    now: Seq<char>,
) -> BookView {
    let revision = input.if_revision + 1;
    let freed = match input.from_context {
        Some(previous) => unbound(book.bindings, previous, input.id),
        None => book.bindings,
    };
    BookView {
        discussions: book.discussions.insert(
            input.id,
            DiscussionView { context: input.context, revision, body },
        ),
        revisions: book.revisions.insert(
            input.id,
            log_of(book, input.id).push(
                RevisionView { revision, request_id: input.request_id, input, created_at: now },
            ),
        ),
        bindings: if body.state == "active"@ {
            freed.insert(input.context, input.id)
        } else {
            unbound(freed, input.context, input.id)
        },
    }
}

/// The document as it is kept after a batch.
pub open spec fn kept_body(body: BodyView, input: InputView) -> BodyView {
    BodyView { revision: input.if_revision + 1, ..body }
}

/// A document that is too large to keep.
pub open spec fn too_large(body: BodyView) -> bool {
    text::byte_count(json::canonical_text(body_json(body))) > MAX_BODY_BYTES
}

proof fn lemma_operations_stop(
    start: StepView,
    ops: Seq<OperationView>,
    revision: int,
    count: nat,
    more: nat,
)
    requires
        0 < count <= more <= ops.len(),
        discussion_apply::with_operations(start, ops, revision, count) is Err,
    ensures
        discussion_apply::with_operations(start, ops, revision, more)
            == discussion_apply::with_operations(start, ops, revision, count),
    decreases more - count,
{
    if count < more {
        lemma_operations_stop(start, ops, revision, count, (more - 1) as nat);
    }
}

fn is_good_id(id: &str) -> (r: bool)
    ensures
        r == good_id(id@),
{
    !blank(id) && byte_len(id) <= discussion::MAX_ID_BYTES
}

/// Why a batch is not looked at, if anything speaks against it.
pub fn check_batch(input: &DiscussionInput, secret: bool, frozen: bool) -> (r: Result<(), AppError>)
    ensures
        match admission(input@, secret, frozen) {
            Some(e) => r matches Err(got) && got@ == e,
            None => r is Ok,
        },
{
    if let Err(e) = normalize_agent_context(input.context.as_str()) {
        return Err(e);
    }
    if !is_good_id(input.id.as_str()) || !is_good_id(input.context.as_str()) || !is_good_id(
        input.request_id.as_str(),
    ) {
        return Err(discussion_error("IDs must be 1..256 bytes"));
    }
    assert(input@.operations.len() == input.operations@.len());
    if input.operations.len() == 0 || input.operations.len() > MAX_BATCH {
        return Err(discussion_error("expected 1..64 operations"));
    }
    if input.if_revision < 0 || input.if_revision == i64::MAX {
        return Err(discussion_error("invalid revision"));
    }
    let encoded = canonical_sync_value(&encode_input(input));
    if byte_len(encoded.as_str()) > MAX_BATCH_BYTES {
        return Err(discussion_error("batch exceeds 1 MiB"));
    }
    if secret {
        return Err(
            discussion_error(
                "possible secret excluded; submit a gap marker without sensitive text",
            ),
        );
    }
    if frozen {
        return Err(discussion_error("store is frozen for publication"));
    }
    Ok(())
}

fn find_request<'a>(log: &'a Vec<DiscussionRevision>, request_id: &str) -> (r: Option<
    &'a DiscussionRevision,
>)
    ensures
        text::opt_view(r) == earlier_request(text::views(log@), request_id@),
{
    let ghost all = text::views(log@);
    let mut i: usize = 0;
    assert(all.skip(0) =~= all);
    while i < log.len()
        invariant
            i <= log@.len(),
            earlier_request(all, request_id@) == earlier_request(all.skip(i as int), request_id@),
        decreases log@.len() - i,
    {
        assert(all.skip(i as int)[0] == log@[i as int]@);
        if same_text(log[i].request_id.as_str(), request_id) {
            return Some(&log[i]);
        }
        assert(all.skip(i as int).drop_first() =~= all.skip(i + 1));
        i += 1;
    }
    None
}

fn blank_document(id: &str) -> (r: DiscussionBody)
    ensures
        r@ == blank_body(id@),
{
    DiscussionBody {
        id: owned(id),
        title: String::new(),
        description: String::new(),
        state: owned("active"),
        items: Table::new(),
        revision: 0,
    }
}

fn unbind(bindings: &mut Table<String, String>, context: &String, id: &str)
    ensures
        final(bindings)@ == unbound(old(bindings)@, context@, id@),
{
    let bound = match bindings.get(context) {
        Some(found) => same_text(found.as_str(), id),
        None => false,
    };
    if bound {
        bindings.remove(context);
    }
}

/// What a batch plans: the revision of an earlier equal batch, or the next document.
pub enum DiscussionPlan {
    Replay(i64),
    Next(DiscussionBody),
}

impl DiscussionBook {
    /// Works out what a batch comes to, without writing anything down.
    pub fn plan_batch(&self, input: &DiscussionInput) -> (r: Result<DiscussionPlan, AppError>)
        requires
            0 <= input.if_revision < i64::MAX,
        ensures
            match plan(self@, input@) {
                Err(e) => r matches Err(got) && got@ == e,
                Ok(p) => match p.replay {
                    Some(revision) => r matches Ok(DiscussionPlan::Replay(n)) && n == revision,
                    None => r matches Ok(DiscussionPlan::Next(body)) && body@ == p.body,
                },
            },
    {
        let existing = self.discussions.get(&input.id);
        assert(input@.operations.len() == input.operations@.len());
        let resume = input.operations.len() > 0 && {
            assert(input@.operations[0] == input.operations@[0]@);
            same_text(input.operations[0].op.as_str(), "resume")
        };
        match existing {
            Some(found) => {
                let transfer = match &input.from_context {
                    Some(previous) => same_text(previous.as_str(), found.context.as_str())
                        && resume,
                    None => false,
                };
                if !same_text(found.context.as_str(), input.context.as_str()) && !transfer {
                    return Err(discussion_error("context mismatch"));
                }
            },
            None => {},
        }
        match self.revisions.get(&input.id) {
            Some(log) => {
                match find_request(&log.list, input.request_id.as_str()) {
                    Some(earlier) => {
                        if !earlier.input.same(input) {
                            return Err(
                                discussion_error("request ID reused with different input"),
                            );
                        }
                        return Ok(DiscussionPlan::Replay(earlier.revision));
                    },
                    None => {},
                }
            },
            None => {},
        }
        let revision: i64 = match existing {
            Some(found) => found.revision,
            None => 0,
        };
        if revision != input.if_revision {
            return Err(discussion_error("revision conflict"));
        }
        let mut body = match existing {
            Some(found) => found.body.duplicate(),
            None => blank_document(input.id.as_str()),
        };
        if !same_text(body.state.as_str(), "active") && !resume {
            return Err(
                discussion_error("resume the discussion explicitly before editing"),
            );
        }
        match self.bindings.get(&input.context) {
            Some(bound) => {
                if !same_text(bound.as_str(), input.id.as_str()) {
                    return Err(
                        discussion_error("pause current discussion before switching"),
                    );
                }
            },
            None => {},
        }
        let mut started: bool = revision > 0;
        let ghost start = StepView { body: body@, started };
        let ghost ops = input@.operations;
        let mut i: usize = 0;
        while i < input.operations.len()
            invariant
                i <= input.operations@.len(),
                discussion_apply::with_operations(start, ops, revision as int, i as nat) == Ok::<
                    StepView,
                    AppErrorView,
                >(StepView { body: body@, started }),
            decreases input.operations@.len() - i,
        {
            assert(ops[i as int] == input.operations@[i as int]@);
            let applied = apply_operation(&mut body, &mut started, &input.operations[i], revision);
            match applied {
                Ok(()) => {},
                Err(e) => {
                    proof {
                        lemma_operations_stop(
                            start,
                            ops,
                            revision as int,
                            (i + 1) as nat,
                            ops.len(),
                        );
                    }
                    return Err(e);
                },
            }
            i += 1;
        }
        Ok(DiscussionPlan::Next(body))
    }

    /// Applies a batch to a discussion. `now` is the time at which it is applied.
    pub fn apply(
        &mut self,
        input: DiscussionInput,
        secret: bool,
        frozen: bool,
        now: &str,
    ) -> (r: Result<DiscussionApplied, AppError>)
        ensures
            match admission(input@, secret, frozen) {
                Some(e) => (r matches Err(got) && got@ == e) && final(self)@ == old(self)@,
                None => match plan(old(self)@, input@) {
                    Err(e) => (r matches Err(got) && got@ == e) && final(self)@ == old(self)@,
                    Ok(p) => match p.replay {
                        Some(revision) => {
                            &&& r matches Ok(done)
                            &&& done@ == (AppliedView { id: input@.id, revision, replayed: true })
                            &&& final(self)@ == old(self)@
                        },
                        None => {
                            let body = kept_body(p.body, input@);
                            if discussion::body_fault(p.body) is Some {
                                &&& r matches Err(e)
                                &&& e@ == error::app_error(
                                    ErrorCode::InvalidDiscussion,
                                    discussion::body_fault(p.body)->0,
                                )
                                &&& final(self)@ == old(self)@
                            } else if too_large(body) {
                                &&& r matches Err(e)
                                &&& e@ == error::app_error(
                                    ErrorCode::InvalidDiscussion,
                                    "discussion exceeds 16 MiB; continue in a linked discussion"@,
                                )
                                &&& final(self)@ == old(self)@
                            } else {
                                &&& r matches Ok(done)
                                &&& done@ == (AppliedView {
                                    id: input@.id,
                                    revision: input@.if_revision + 1,
                                    replayed: false,
                                })
                                &&& final(self)@ == recorded(old(self)@, input@, body, now@)
                            }
                        },
                    },
                },
            },
            r matches Ok(done) ==> done.replayed || discussion::body_sound(
                final(self)@.discussions[input@.id].body,
            ),
    {
        if let Err(e) = check_batch(&input, secret, frozen) {
            return Err(e);
        }
        let mut body = match self.plan_batch(&input) {
            Err(e) => {
                return Err(e);
            },
            Ok(DiscussionPlan::Replay(revision)) => {
                return Ok(
                    DiscussionApplied { id: owned(input.id.as_str()), revision, replayed: true },
                );
            },
            Ok(DiscussionPlan::Next(body)) => body,
        };
        if let Err(e) = validate_discussion_body(&body) {
            return Err(e);
        }
        let revision: i64 = input.if_revision + 1;
        body.revision = revision;
        let raw = canonical_sync_value(&encode_body(&body));
        if byte_len(raw.as_str()) > MAX_BODY_BYTES {
            return Err(
                discussion_error("discussion exceeds 16 MiB; continue in a linked discussion"),
            );
        }
        let id = owned(input.id.as_str());
        match &input.from_context {
            Some(previous) => {
                unbind(&mut self.bindings, previous, id.as_str());
            },
            None => {},
        }
        if same_text(body.state.as_str(), "active") {
            self.bindings.put(owned(input.context.as_str()), owned(id.as_str()));
        } else {
            unbind(&mut self.bindings, &input.context, id.as_str());
        }
        let mut log = match self.revisions.get(&id) {
            Some(log) => log.duplicate(),
            None => RevisionLog { list: Vec::new() },
        };
        assert(log@ =~= log_of(old(self)@, id@));
        let row = DiscussionRevision {
            revision,
            request_id: owned(input.request_id.as_str()),
            input: input.duplicate(),
            created_at: owned(now),
        };
        proof {
            text::lemma_views_push(log.list@, row);
        }
        log.list.push(row);
        self.revisions.put(owned(id.as_str()), log);
        self.discussions.put(
            owned(id.as_str()),
            Discussion { context: owned(input.context.as_str()), revision, body },
        );
        Ok(DiscussionApplied { id, revision, replayed: false })
    }
}

} // verus!
