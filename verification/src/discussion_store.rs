//! The discussions of a store: batches with their place in the log, what is read, what a
//! host's reply comes to, and how discussions travel to another store.
use crate::discussion;
use crate::discussion::{
    discussion_error, discussion_text, validate_discussion_body, BodyView, DiscussionBody,
    DiscussionItem, ItemView,
};
use crate::discussion_book;
use crate::discussion_book::{
    encode_body, encode_operations, AppliedView, BookView, Discussion, DiscussionApplied,
    DiscussionBook, DiscussionInput, DiscussionRevision, DiscussionView, InputView, RevisionLog,
    RevisionView,
};
use crate::discussion_read;
use crate::discussion_read::{
    DiscussionList, DiscussionReading, ReadingView, ReplyPlan, ReplyPlanView,
};
use crate::error;
use crate::error::{AppError, AppErrorView, ErrorCode};
use crate::json;
use crate::json::{Json, JsonView};
use crate::paging;
use crate::rows::OperationRow;
use crate::store;
use crate::store::{Store, StoreView};
use crate::sync_state;
use crate::sync_state::{insert_sync_object, ObjectRow, ObjectRowView};
use crate::table;
use crate::table::{copy_records, same_records, Record, Table};
use crate::text;
use crate::text::{owned, same_text};
use vstd::prelude::*;

verus! {

// ---------------------------------------------------------------------------
// Batches
// ---------------------------------------------------------------------------

/// What the log says of a batch.
pub open spec fn batch_detail(input: InputView) -> JsonView {
    JsonView::Object(
        seq![
            json::entry("operation_count"@, json::count_view(input.operations.len())),
            json::entry("revision"@, JsonView::Int(input.if_revision + 1)),
        ],
    )
}

/// The store after a batch. The revision of the store stays as it is: discussions are no
/// part of the Wiki.
pub open spec fn with_batch(
    store: StoreView,
    input: InputView,
    body: BodyView,
    now: Seq<char>,
) -> StoreView {
    StoreView {
        discussions: discussion_book::recorded(store.discussions, input, body, now),
        operations: store.operations.push(
            store::next_operation(store, "discussion.apply"@, input.id, batch_detail(input), now),
        ),
        operation_sequence: (store.operation_sequence + 1) as i64,
        ..store
    }
}

/// Applying a batch to `before` came to `after` and `r`.
pub open spec fn batch_settled(
    before: StoreView,
    after: StoreView,
    input: InputView,
    secret: bool,
    now: Seq<char>,
    r: Result<DiscussionApplied, AppError>,
) -> bool {
    match discussion_book::admission(input, secret, store::is_frozen(before)) {
        Some(e) => (r matches Err(got) && got@ == e) && after == before,
        None => match discussion_book::plan(before.discussions, input) {
            Err(e) => (r matches Err(got) && got@ == e) && after == before,
            Ok(p) => match p.replay {
                Some(revision) => {
                    &&& r matches Ok(done)
                    &&& done@ == (AppliedView { id: input.id, revision, replayed: true })
                    &&& after == before
                },
                None => {
                    let body = discussion_book::kept_body(p.body, input);
                    if discussion::body_fault(p.body) is Some {
                                &&& r matches Err(e)
                                &&& e@ == error::app_error(
                                    ErrorCode::InvalidDiscussion,
                                    discussion::body_fault(p.body)->0,
                                )
                        &&& after == before
                    } else if discussion_book::too_large(body) {
                        &&& r matches Err(e)
                        &&& e@ == error::app_error(
                            ErrorCode::InvalidDiscussion,
                            "discussion exceeds 16 MiB; continue in a linked discussion"@,
                        )
                        &&& after == before
                    } else if before.operation_sequence >= i64::MAX {
                        &&& r matches Err(e)
                        &&& e@ == error::app_error(
                            ErrorCode::DatabaseError,
                            "operation identifiers are exhausted"@,
                        )
                        &&& after == before
                    } else {
                        &&& r matches Ok(done)
                        &&& done@ == (AppliedView {
                            id: input.id,
                            revision: input.if_revision + 1,
                            replayed: false,
                        })
                        &&& after == with_batch(before, input, body, now)
                    }
                },
            },
        },
    }
}

/// An item of a discussion, with the revision that it was read at.
pub struct ItemResponse {
    pub id: String,
    pub revision: i64,
    pub item: DiscussionItem,
}

#[verifier::ext_equal]
pub struct ItemResponseView {
    pub id: Seq<char>,
    pub revision: int,
    pub item: ItemView,
}

impl View for ItemResponse {
    type V = ItemResponseView;

    open spec fn view(&self) -> ItemResponseView {
        ItemResponseView { id: self.id@, revision: self.revision as int, item: self.item@ }
    }
}

/// What reading one item gives.
pub open spec fn item_read(
    book: BookView,
    id: Seq<char>,
    context: Seq<char>,
    item: Seq<char>,
) -> Result<ItemResponseView, AppErrorView> {
    match discussion_read::reading(book, id, context, "export"@, 0, 100) {
        Err(e) => Err(e),
        Ok(ReadingView::Export(body)) => if body.items.dom().contains(item) {
            Ok(ItemResponseView { id, revision: body.revision, item: body.items[item] })
        } else {
            discussion::discussion_refused("item missing"@)
        },
        Ok(_) => discussion::discussion_refused("item missing"@),
    }
}

/// What became of a reply of the host.
pub enum ReplyOutcome {
    /// The context works on no discussion.
    Nothing,
    /// The reply was recorded before.
    Known,
    Recorded(DiscussionApplied),
}

impl Store {
    /// Applies a batch to a discussion. `secret` where the text of the batch looks as if it
    /// held one; `now` is the time at which it is applied.
    pub fn discussion_apply(&mut self, input: DiscussionInput, secret: bool, now: &str) -> (r:
        Result<DiscussionApplied, AppError>)
        ensures
            batch_settled(old(self)@, final(self)@, input@, secret, now@, r),
            r matches Ok(done) ==> done.replayed || discussion::body_sound(
                final(self)@.discussions.discussions[input@.id].body,
            ),
    {
        let ghost before = self@;
        let ghost asked = input@;
        let frozen = self.frozen();
        let mut book = self.discussions.duplicate();
        let id = owned(input.id.as_str());
        let count = input.operations.len();
        assert(count == asked.operations.len());
        let done = match book.apply(input, secret, frozen, now) {
            Ok(done) => done,
            Err(e) => {
                return Err(e);
            },
        };
        if done.replayed {
            return Ok(done);
        }
        if self.operation_sequence >= i64::MAX {
            return Err(
                AppError::new(ErrorCode::DatabaseError, "operation identifiers are exhausted"),
            );
        }
        let detail = Json::object2(
            "operation_count",
            Json::count(count),
            "revision",
            Json::Int(done.revision),
        );
        let row = OperationRow {
            id: self.operation_sequence + 1,
            action: owned("discussion.apply"),
            target: id,
            detail,
            created_at: owned(now),
        };
        proof {
            text::lemma_views_push(self.operations@, row);
            assert(row@.detail == batch_detail(asked));
        }
        self.operations.push(row);
        self.operation_sequence = self.operation_sequence + 1;
        self.discussions = book;
        Ok(done)
    }

    /// Reads a discussion: the one named, or the one that the context works on.
    pub fn discussion_read(
        &self,
        id: &str,
        context: &str,
        mode: &str,
        offset: usize,
        limit: usize,
    ) -> (r: Result<DiscussionReading, AppError>)
        ensures
            error::outcome(r) == discussion_read::reading(
                self@.discussions,
                id@,
                context@,
                mode@,
                offset as nat,
                limit as nat,
            ),
    {
        self.discussions.read(id, context, mode, offset, limit)
    }

    /// A page of the discussions that a context can see.
    pub fn discussion_list(&self, context: &str, offset: usize, limit: usize) -> (r: Result<
        DiscussionList,
        AppError,
    >)
        ensures
            if !discussion_book::is_agent_context(context@) {
                r matches Err(e) && e@ == discussion_book::bad_context()
            } else if !discussion_read::good_page(offset as nat, limit as nat) {
                r matches Err(e) && e@ == error::app_error(
                    ErrorCode::InvalidDiscussion,
                    "invalid pagination"@,
                )
            } else {
                &&& r matches Ok(list)
                &&& list.total == discussion_read::visible(self@.discussions, context@).len()
                &&& text::views(list.discussions@) == paging::page_of(
                    discussion_read::visible(self@.discussions, context@),
                    offset as nat,
                    limit as nat,
                ).map_values(
                    |id: Seq<char>| discussion_read::listed(self@.discussions, id),
                )
            },
    {
        self.discussions.list(context, offset, limit)
    }

    /// Reads one item of a discussion.
    pub fn discussion_item(&self, id: &str, context: &str, item: &str) -> (r: Result<
        ItemResponse,
        AppError,
    >)
        ensures
            error::outcome(r) == item_read(self@.discussions, id@, context@, item@),
    {
        match self.discussions.read(id, context, "export", 0, 100) {
            Err(e) => Err(e),
            Ok(DiscussionReading::Export(body)) => match body.items.get(&owned(item)) {
                Some(found) => Ok(
                    ItemResponse {
                        id: owned(id),
                        revision: body.revision,
                        item: found.duplicate(),
                    },
                ),
                None => Err(discussion_error("item missing")),
            },
            Ok(_) => Err(discussion_error("item missing")),
        }
    }

    /// Records a reply that the host delivered, in the discussion that the context works on.
    pub fn capture_discussion_reply(
        &mut self,
        context: &str,
        message_id: &str,
        said: &str,
        secret: bool,
        now: &str,
    ) -> (r: Result<ReplyOutcome, AppError>)
        ensures
            match discussion_read::reply_plan(
                old(self)@.discussions,
                context@,
                message_id@,
                said@,
            ) {
                Err(e) => (r matches Err(got) && got@ == e) && final(self)@ == old(self)@,
                Ok(ReplyPlanView::Nothing) => r == Ok::<ReplyOutcome, AppError>(
                    ReplyOutcome::Nothing,
                ) && final(self)@ == old(self)@,
                Ok(ReplyPlanView::Known) => r == Ok::<ReplyOutcome, AppError>(
                    ReplyOutcome::Known,
                ) && final(self)@ == old(self)@,
                Ok(ReplyPlanView::Record(input)) => match r {
                    Ok(ReplyOutcome::Recorded(done)) => batch_settled(
                        old(self)@,
                        final(self)@,
                        input,
                        secret,
                        now@,
                        Ok::<DiscussionApplied, AppError>(done),
                    ),
                    Ok(_) => false,
                    Err(e) => batch_settled(
                        old(self)@,
                        final(self)@,
                        input,
                        secret,
                        now@,
                        Err::<DiscussionApplied, AppError>(e),
                    ),
                },
            },
    {
        match self.discussions.plan_reply(context, message_id, said) {
            Err(e) => Err(e),
            Ok(ReplyPlan::Nothing) => Ok(ReplyOutcome::Nothing),
            Ok(ReplyPlan::Known) => Ok(ReplyOutcome::Known),
            Ok(ReplyPlan::Record(input)) => match self.discussion_apply(input, secret, now) {
                Ok(done) => Ok(ReplyOutcome::Recorded(done)),
                Err(e) => Err(e),
            },
        }
    }
}

/// A batch that was applied once is answered the second time with the revision that it made,
/// and changes nothing.
pub proof fn law_batch_is_applied_once(
    store: StoreView,
    input: InputView,
    body: BodyView,
    now: Seq<char>,
)
    requires
        discussion_book::plan(store.discussions, input) matches Ok(p) && p.replay is None
            && body == discussion_book::kept_body(p.body, input),
    ensures
        discussion_book::plan(with_batch(store, input, body, now).discussions, input) matches Ok(
            again,
        ) && again.replay == Some(input.if_revision + 1),
{
    let log = discussion_book::log_of(store.discussions, input.id);
    let row = RevisionView {
        revision: input.if_revision + 1,
        request_id: input.request_id,
        input,
        created_at: now,
    };
    lemma_request_found(log, row, input.request_id);
}

/// A batch that was not in the log before is found once it is.
proof fn lemma_request_found(log: Seq<RevisionView>, row: RevisionView, request_id: Seq<char>)
    requires
        discussion_book::earlier_request(log, request_id) is None,
        row.request_id == request_id,
    ensures
        discussion_book::earlier_request(log.push(row), request_id) == Some(row),
    decreases log.len(),
{
    if log.len() == 0 {
        assert(log.push(row)[0] == row);
    } else {
        assert(log.push(row)[0] == log[0]);
        assert(log.push(row).drop_first() =~= log.drop_first().push(row));
        lemma_request_found(log.drop_first(), row, request_id);
    }
}

/// A batch leaves the pages, the sources and the revision of the store alone, and the other
/// discussions too.
pub proof fn law_batch_is_local(
    store: StoreView,
    input: InputView,
    body: BodyView,
    now: Seq<char>,
    other: Seq<char>,
)
    requires
        other != input.id,
    ensures
        ({
            let after = with_batch(store, input, body, now);
            &&& after.pages == store.pages
            &&& after.sources == store.sources
            &&& after.meta == store.meta
            &&& after.discussions.discussions.dom().contains(other)
                == store.discussions.discussions.dom().contains(other)
            &&& store.discussions.discussions.dom().contains(other)
                ==> after.discussions.discussions[other] == store.discussions.discussions[other]
            &&& discussion_book::log_of(after.discussions, other) == discussion_book::log_of(
                store.discussions,
                other,
            )
        }),
{
}

// ---------------------------------------------------------------------------
// Travelling to another store
// ---------------------------------------------------------------------------

/// A batch as it travels: without the contexts, which belong to one store.
pub open spec fn portable_input(input: InputView) -> JsonView {
    JsonView::Object(
        seq![
            json::entry("id"@, JsonView::Text(input.id)),
            json::entry("if_revision"@, JsonView::Int(input.if_revision)),
            json::entry("operations"@, discussion_book::operations_json(input.operations)),
            json::entry("request_id"@, JsonView::Text(input.request_id)),
        ],
    )
}

/// A batch of the history as it travels.
pub open spec fn portable_event(row: RevisionView) -> JsonView {
    JsonView::Object(
        seq![
            json::entry("created_at"@, JsonView::Text(row.created_at)),
            json::entry("input"@, portable_input(row.input)),
            json::entry("request_id"@, JsonView::Text(row.request_id)),
            json::entry("revision"@, JsonView::Int(row.revision)),
        ],
    )
}

/// The revision of the newest batch, or 0.
pub open spec fn last_revision(log: Seq<RevisionView>) -> int {
    if log.len() == 0 {
        0
    } else {
        log.last().revision
    }
}

/// A discussion as it travels. Its revision is that of its newest batch.
pub open spec fn portable_discussion(book: BookView, id: Seq<char>) -> JsonView {
    let log = discussion_book::log_of(book, id);
    let body = BodyView { revision: last_revision(log), ..book.discussions[id].body };
    JsonView::Object(
        seq![
            json::entry("body"@, discussion_book::body_json(body)),
            json::entry(
                "history"@,
                JsonView::Array(log.map_values(|row: RevisionView| portable_event(row))),
            ),
            json::entry("id"@, JsonView::Text(id)),
        ],
    )
}

/// The discussions of a store as objects that travel.
pub open spec fn portable_discussions(book: BookView) -> Seq<ObjectRowView> {
    table::ordered::<String>(book.discussions.dom()).map_values(
        |id: Seq<char>| sync_state::object_row("discussion"@, id, portable_discussion(book, id)),
    )
}

fn encode_event(row: &DiscussionRevision) -> (r: Json)
    ensures
        r@ == portable_event(row@),
{
    let mut batch: Vec<(String, Json)> = Vec::new();
    batch.push((owned("id"), Json::text(row.input.id.as_str())));
    batch.push((owned("if_revision"), Json::Int(row.input.if_revision)));
    batch.push((owned("operations"), encode_operations(&row.input.operations)));
    batch.push((owned("request_id"), Json::text(row.input.request_id.as_str())));
    assert(json::entry_views(batch@) =~= portable_input(row.input@)->Object_0);
    let mut entries: Vec<(String, Json)> = Vec::new();
    entries.push((owned("created_at"), Json::text(row.created_at.as_str())));
    entries.push((owned("input"), Json::object(batch)));
    entries.push((owned("request_id"), Json::text(row.request_id.as_str())));
    entries.push((owned("revision"), Json::Int(row.revision)));
    assert(json::entry_views(entries@) =~= portable_event(row@)->Object_0);
    Json::object(entries)
}

fn encode_history(log: &Vec<DiscussionRevision>) -> (r: Json)
    ensures
        r@ == JsonView::Array(
            text::views(log@).map_values(|row: RevisionView| portable_event(row)),
        ),
{
    let mut list: Vec<Json> = Vec::new();
    let mut i: usize = 0;
    while i < log.len()
        invariant
            i <= log@.len(),
            list@.len() == i,
            forall|j: int| 0 <= j < i ==> (#[trigger] list@[j])@ == portable_event(log@[j]@),
        decreases log@.len() - i,
    {
        list.push(encode_event(&log[i]));
        i += 1;
    }
    proof {
        json::lemma_array_view(list);
        assert(text::views(list@) =~= text::views(log@).map_values(
            |row: RevisionView| portable_event(row),
        ));
    }
    Json::Array(list)
}

fn encode_discussion(book: &DiscussionBook, id: &String, found: &Discussion) -> (r: Json)
    requires
        book@.discussions.dom().contains(id@),
        found@ == book@.discussions[id@],
    ensures
        r@ == portable_discussion(book@, id@),
{
    let none: Vec<DiscussionRevision> = Vec::new();
    assert(text::views(none@) =~= Seq::empty());
    let log = match book.revisions.get(id) {
        Some(log) => &log.list,
        None => &none,
    };
    assert(text::views(log@) == discussion_book::log_of(book@, id@));
    assert(text::views(log@).len() == log@.len());
    let mut body = found.body.duplicate();
    body.revision = if log.len() == 0 {
        0
    } else {
        log[log.len() - 1].revision
    };
    let mut entries: Vec<(String, Json)> = Vec::new();
    entries.push((owned("body"), encode_body(&body)));
    entries.push((owned("history"), encode_history(log)));
    entries.push((owned("id"), Json::text(id.as_str())));
    assert(json::entry_views(entries@) =~= portable_discussion(book@, id@)->Object_0);
    Json::object(entries)
}

impl Store {
    /// The discussions as objects that travel to another store.
    pub fn export_sync_discussions(&self) -> (r: Vec<ObjectRow>)
        ensures
            text::views(r@) == portable_discussions(self@.discussions),
    {
        let book = &self.discussions;
        let n = book.discussions.len();
        let ghost keys = book.discussions.keys();
        proof {
            table::lemma_ordered_is::<String>(keys, book@.discussions.dom());
        }
        let mut out: Vec<ObjectRow> = Vec::new();
        let mut i: usize = 0;
        while i < n
            invariant
                i <= n == keys.len(),
                keys == book.discussions.keys(),
                out@.len() == i,
                forall|j: int|
                    0 <= j < i ==> (#[trigger] out@[j])@ == sync_state::object_row(
                        "discussion"@,
                        keys[j],
                        portable_discussion(book@, keys[j]),
                    ),
            decreases n - i,
        {
            let id = book.discussions.key_at(i);
            let found = book.discussions.value_at(i);
            assert(keys.to_set().contains(id@));
            let payload = encode_discussion(book, id, found);
            out.push(insert_sync_object("discussion", id.as_str(), &payload));
            i += 1;
        }
        assert(text::views(out@) =~= portable_discussions(self@.discussions));
        out
    }
}

/// A batch of a history that came from another store. The contexts of its input do not count.
pub struct ImportedEvent {
    pub revision: i64,
    pub request_id: String,
    pub created_at: String,
    pub input: DiscussionInput,
}

#[verifier::ext_equal]
pub struct ImportedEventView {
    pub revision: i64,
    pub request_id: Seq<char>,
    pub created_at: Seq<char>,
    pub input: InputView,
}

impl View for ImportedEvent {
    type V = ImportedEventView;

    open spec fn view(&self) -> ImportedEventView {
        ImportedEventView {
            revision: self.revision,
            request_id: self.request_id@,
            created_at: self.created_at@,
            input: self.input@,
        }
    }
}

impl Record for ImportedEvent {
    fn duplicate(&self) -> (r: Self) {
        ImportedEvent {
            revision: self.revision,
            request_id: owned(self.request_id.as_str()),
            created_at: owned(self.created_at.as_str()),
            input: self.input.duplicate(),
        }
    }

    fn same(&self, other: &Self) -> (r: bool) {
        self.revision == other.revision
            && same_text(self.request_id.as_str(), other.request_id.as_str())
            && same_text(self.created_at.as_str(), other.created_at.as_str())
            && self.input.same(&other.input)
    }
}

/// A discussion that came from another store.
pub struct ImportedDiscussion {
    pub body: DiscussionBody,
    pub history: Vec<ImportedEvent>,
}

#[verifier::ext_equal]
pub struct ImportedDiscussionView {
    pub body: BodyView,
    pub history: Seq<ImportedEventView>,
}

impl View for ImportedDiscussion {
    type V = ImportedDiscussionView;

    open spec fn view(&self) -> ImportedDiscussionView {
        ImportedDiscussionView {
            body: self.body@,
            history: text::views(self.history@),
        }
    }
}

impl Record for ImportedDiscussion {
    fn duplicate(&self) -> (r: Self) {
        ImportedDiscussion {
            body: self.body.duplicate(),
            history: copy_records(&self.history),
        }
    }

    fn same(&self, other: &Self) -> (r: bool) {
        self.body.same(&other.body)
            && same_records(&self.history, &other.history)
    }
}

/// An imported discussion as this store keeps it: what its history came to, and its batches.
#[verifier::ext_equal]
pub struct AdoptedView {
    pub found: DiscussionView,
    pub log: Seq<RevisionView>,
}

pub open spec fn import_refused<T>(message: Seq<char>) -> Result<T, AppErrorView> {
    Err(error::app_error(ErrorCode::InvalidDiscussion, message))
}

/// The batches of an imported history, as the owner of the discussion in this store keeps
/// them. They are in the order of their revisions, none of which is above `newest`.
pub open spec fn adopted_log(
    history: Seq<ImportedEventView>,
    owner: Seq<char>,
    newest: int,
    count: nat,
) -> Result<Seq<RevisionView>, AppErrorView>
    decreases count,
{
    if count == 0 || count > history.len() {
        Ok(Seq::empty())
    } else {
        match adopted_log(history, owner, newest, (count - 1) as nat) {
            Err(e) => Err(e),
            Ok(log) => {
                let event = history[count - 1];
                if event.revision <= last_revision(log) || event.revision > newest {
                    import_refused("invalid history order"@)
                } else if !discussion::good_text(event.request_id) || !discussion::good_text(
                    event.created_at,
                ) {
                    import_refused("nonempty text up to 65536 bytes required"@)
                } else if discussion_book::earlier_request(log, event.request_id) is Some {
                    Err(
                        error::app_error(ErrorCode::DatabaseError, "UNIQUE constraint failed"@),
                    )
                } else {
                    Ok(
                        log.push(
                            RevisionView {
                                revision: event.revision as int,
                                request_id: event.request_id,
                                input: InputView { context: owner, from_context: None, ..event.input },
                                created_at: event.created_at,
                            },
                        ),
                    )
                }
            },
        }
    }
}

/// A discussion as this store adopts it. It keeps the owner that it had here, and its
/// revision is above that of both sides.
pub open spec fn adopted(
    book: BookView,
    id: Seq<char>,
    given: ImportedDiscussionView,
) -> Result<AdoptedView, AppErrorView> {
    let known = book.discussions.dom().contains(id);
    let owner = if known {
        book.discussions[id].context
    } else {
        Seq::empty()
    };
    let local = if known {
        book.discussions[id].revision
    } else {
        0
    };
    let remote = given.body.revision;
    let highest = if local > remote {
        local
    } else {
        remote
    };
    if given.body.id != id {
        import_refused("imported discussion ID mismatch"@)
    } else if discussion::body_fault(given.body) is Some {
        import_refused(discussion::body_fault(given.body)->0)
    } else if remote <= 0 || remote >= i64::MAX - 1 {
        import_refused("invalid imported revision"@)
    } else if highest >= i64::MAX {
        import_refused("revision overflow"@)
    } else {
        match adopted_log(given.history, owner, remote, given.history.len()) {
            Err(e) => Err(e),
            Ok(log) => if last_revision(log) != remote {
                import_refused("incomplete imported history"@)
            } else {
                Ok(
                    AdoptedView {
                        found: DiscussionView {
                            context: owner,
                            revision: highest + 1,
                            body: BodyView { revision: highest + 1, ..given.body },
                        },
                        log,
                    },
                )
            },
        }
    }
}

/// The discussions that the first identifiers bring.
pub open spec fn all_adopted(
    book: BookView,
    given: Map<Seq<char>, ImportedDiscussionView>,
    keys: Seq<Seq<char>>,
    count: nat,
) -> Result<BookView, AppErrorView>
    decreases count,
{
    if count == 0 || count > keys.len() {
        Ok(
            BookView {
                discussions: Map::empty(),
                revisions: Map::empty(),
                bindings: Map::empty(),
            },
        )
    } else {
        match all_adopted(book, given, keys, (count - 1) as nat) {
            Err(e) => Err(e),
            Ok(so_far) => {
                let id = keys[count - 1];
                match adopted(book, id, given[id]) {
                    Err(e) => Err(e),
                    Ok(one) => Ok(
                        BookView {
                            discussions: so_far.discussions.insert(id, one.found),
                            revisions: so_far.revisions.insert(id, one.log),
                            ..so_far
                        },
                    ),
                }
            },
        }
    }
}

/// The bindings that stay: those to a discussion that is still there, owned by the context
/// and active.
pub open spec fn kept_bindings(
    bindings: Map<Seq<char>, Seq<char>>,
    discussions: Map<Seq<char>, DiscussionView>,
) -> Map<Seq<char>, Seq<char>> {
    bindings.restrict(
        Set::new(
            |context: Seq<char>|
                discussions.dom().contains(bindings[context]) && discussions[bindings[context]].context
                    == context && discussions[bindings[context]].body.state == "active"@,
        ),
    )
}

/// The discussions of a store once those of another have taken their place.
pub open spec fn imported(
    book: BookView,
    given: Map<Seq<char>, ImportedDiscussionView>,
) -> Result<BookView, AppErrorView> {
    let keys = table::ordered::<String>(given.dom());
    match all_adopted(book, given, keys, keys.len()) {
        Err(e) => Err(e),
        Ok(next) => Ok(
            BookView { bindings: kept_bindings(book.bindings, next.discussions), ..next },
        ),
    }
}

proof fn lemma_log_stop(
    history: Seq<ImportedEventView>,
    owner: Seq<char>,
    newest: int,
    count: nat,
    more: nat,
)
    requires
        0 < count <= more <= history.len(),
        adopted_log(history, owner, newest, count) is Err,
    ensures
        adopted_log(history, owner, newest, more) == adopted_log(history, owner, newest, count),
    decreases more - count,
{
    if count < more {
        lemma_log_stop(history, owner, newest, count, (more - 1) as nat);
    }
}

proof fn lemma_adopted_stop(
    book: BookView,
    given: Map<Seq<char>, ImportedDiscussionView>,
    keys: Seq<Seq<char>>,
    count: nat,
    more: nat,
)
    requires
        0 < count <= more <= keys.len(),
        all_adopted(book, given, keys, count) is Err,
    ensures
        all_adopted(book, given, keys, more) == all_adopted(book, given, keys, count),
    decreases more - count,
{
    if count < more {
        lemma_adopted_stop(book, given, keys, count, (more - 1) as nat);
    }
}

fn known_request(log: &Vec<DiscussionRevision>, request_id: &str) -> (r: bool)
    ensures
        r == (discussion_book::earlier_request(text::views(log@), request_id@) is Some),
{
    let ghost all = text::views(log@);
    assert(all.skip(0) =~= all);
    let mut i: usize = 0;
    while i < log.len()
        invariant
            i <= log@.len() == all.len(),
            all == text::views(log@),
            discussion_book::earlier_request(all, request_id@)
                == discussion_book::earlier_request(all.skip(i as int), request_id@),
        decreases log@.len() - i,
    {
        assert(all.skip(i as int)[0] == log@[i as int]@);
        assert(all.skip(i as int).drop_first() =~= all.skip(i + 1));
        if same_text(log[i].request_id.as_str(), request_id) {
            return true;
        }
        i += 1;
    }
    false
}

fn adopt_log(history: &Vec<ImportedEvent>, owner: &str, newest: i64) -> (r: Result<
    Vec<DiscussionRevision>,
    AppError,
>)
    ensures
        match adopted_log(text::views(history@), owner@, newest as int, history@.len()) {
            Ok(log) => r matches Ok(list) && text::views(list@) == log,
            Err(fault) => r matches Err(e) && e@ == fault,
        },
{
    let ghost all = text::views(history@);
    let mut log: Vec<DiscussionRevision> = Vec::new();
    assert(text::views(log@) =~= Seq::empty());
    let mut previous: i64 = 0;
    let mut i: usize = 0;
    while i < history.len()
        invariant
            i <= history@.len() == all.len(),
            all == text::views(history@),
            adopted_log(all, owner@, newest as int, i as nat) == Ok::<
                Seq<RevisionView>,
                AppErrorView,
            >(text::views(log@)),
            previous == last_revision(text::views(log@)),
        decreases history@.len() - i,
    {
        let event = &history[i];
        assert(all[i as int] == event@);
        let ghost at = adopted_log(all, owner@, newest as int, (i + 1) as nat);
        proof {
            if at is Err {
                lemma_log_stop(all, owner@, newest as int, (i + 1) as nat, all.len());
            }
        }
        if event.revision <= previous || event.revision > newest {
            return Err(discussion_error("invalid history order"));
        }
        if let Err(e) = discussion_text(Some(event.request_id.as_str())) {
            return Err(e);
        }
        if let Err(e) = discussion_text(Some(event.created_at.as_str())) {
            return Err(e);
        }
        if known_request(&log, event.request_id.as_str()) {
            return Err(AppError::new(ErrorCode::DatabaseError, "UNIQUE constraint failed"));
        }
        let mut input = event.input.duplicate();
        input.context = owned(owner);
        input.from_context = None;
        let row = DiscussionRevision {
            revision: event.revision,
            request_id: owned(event.request_id.as_str()),
            input,
            created_at: owned(event.created_at.as_str()),
        };
        proof {
            text::lemma_views_push(log@, row);
        }
        log.push(row);
        previous = event.revision;
        i += 1;
    }
    Ok(log)
}

fn adopt(book: &DiscussionBook, id: &String, given: &ImportedDiscussion) -> (r: Result<
    (Discussion, RevisionLog),
    AppError,
>)
    ensures
        match adopted(book@, id@, given@) {
            Ok(one) => r matches Ok(pair) && pair.0@ == one.found && pair.1@ == one.log,
            Err(fault) => r matches Err(e) && e@ == fault,
        },
{
    let (owner, local): (String, i64) = match book.discussions.get(id) {
        Some(found) => (owned(found.context.as_str()), found.revision),
        None => (String::new(), 0),
    };
    proof {
        if !book@.discussions.dom().contains(id@) {
            assert(owner@ =~= Seq::<char>::empty());
        }
    }
    if !same_text(given.body.id.as_str(), id.as_str()) {
        return Err(discussion_error("imported discussion ID mismatch"));
    }
    if let Err(e) = validate_discussion_body(&given.body) {
        return Err(e);
    }
    let remote = given.body.revision;
    if remote <= 0 || remote >= i64::MAX - 1 {
        return Err(discussion_error("invalid imported revision"));
    }
    let highest: i64 = if local > remote {
        local
    } else {
        remote
    };
    if highest >= i64::MAX {
        return Err(discussion_error("revision overflow"));
    }
    let list = match adopt_log(&given.history, owner.as_str(), remote) {
        Ok(list) => list,
        Err(e) => {
            return Err(e);
        },
    };
    assert(text::views(list@).len() == list@.len());
    let newest: i64 = if list.len() == 0 {
        0
    } else {
        list[list.len() - 1].revision
    };
    if newest != remote {
        return Err(discussion_error("incomplete imported history"));
    }
    let mut body = given.body.duplicate();
    body.revision = highest + 1;
    Ok((Discussion { context: owner, revision: highest + 1, body }, RevisionLog { list }))
}

/// The bindings that stay.
fn keep_bindings(
    bindings: &Table<String, String>,
    discussions: &Table<String, Discussion>,
) -> (r: Table<String, String>)
    ensures
        r@ == kept_bindings(bindings@, discussions@),
{
    let n = bindings.len();
    let ghost keys = bindings.keys();
    let ghost goal = kept_bindings(bindings@, discussions@);
    let mut out: Table<String, String> = Table::new();
    let mut i: usize = 0;
    while i < n
        invariant
            i <= n == keys.len(),
            keys == bindings.keys(),
            goal == kept_bindings(bindings@, discussions@),
            forall|c: Seq<char>|
                #[trigger] out@.dom().contains(c) == (keys.take(i as int).contains(c)
                    && goal.dom().contains(c)),
            forall|c: Seq<char>| #[trigger] out@.dom().contains(c) ==> out@[c] == goal[c],
        decreases n - i,
    {
        let context = bindings.key_at(i);
        let id = bindings.value_at(i);
        proof {
            table::lemma_take_more(keys, i as int);
            assert(keys.to_set().contains(context@));
        }
        let stays = match discussions.get(id) {
            Some(found) => same_text(found.context.as_str(), context.as_str()) && same_text(
                found.body.state.as_str(),
                "active",
            ),
            None => false,
        };
        if stays {
            out.put(owned(context.as_str()), owned(id.as_str()));
        }
        i += 1;
    }
    proof {
        assert(keys.take(n as int) =~= keys);
        assert forall|c: Seq<char>| out@.dom().contains(c) == goal.dom().contains(c) by {
            assert(keys.to_set().contains(c) == bindings@.dom().contains(c));
        }
        assert(out@ =~= goal);
    }
    out
}

impl Store {
    /// Puts the discussions of another store in the place of this store's own. The agent
    /// contexts stay local: what was not owned here has to be resumed explicitly.
    pub fn import_sync_discussions(&mut self, given: &Table<String, ImportedDiscussion>) -> (r:
        Result<(), AppError>)
        ensures
            match imported(old(self)@.discussions, given@) {
                Ok(next) => r is Ok && final(self)@ == (StoreView {
                    discussions: next,
                    ..old(self)@
                }),
                Err(fault) => (r matches Err(e) && e@ == fault) && final(self)@ == old(
                    self,
                )@,
            },
    {
        let n = given.len();
        let ghost keys = given.keys();
        let ghost book = self.discussions@;
        proof {
            table::lemma_ordered_is::<String>(keys, given@.dom());
        }
        let mut discussions: Table<String, Discussion> = Table::new();
        let mut revisions: Table<String, RevisionLog> = Table::new();
        let mut i: usize = 0;
        while i < n
            invariant
                i <= n == keys.len(),
                keys == given.keys(),
                all_adopted(book, given@, keys, i as nat) == Ok::<BookView, AppErrorView>(
                    BookView {
                        discussions: discussions@,
                        revisions: revisions@,
                        bindings: Map::empty(),
                    },
                ),
            decreases n - i,
        {
            let id = given.key_at(i);
            let one = given.value_at(i);
            proof {
                if all_adopted(book, given@, keys, (i + 1) as nat) is Err {
                    lemma_adopted_stop(book, given@, keys, (i + 1) as nat, keys.len());
                }
            }
            match adopt(&self.discussions, id, one) {
                Ok((found, log)) => {
                    discussions.put(owned(id.as_str()), found);
                    revisions.put(owned(id.as_str()), log);
                },
                Err(e) => {
                    return Err(e);
                },
            }
            i += 1;
        }
        let bindings = keep_bindings(&self.discussions.bindings, &discussions);
        self.discussions = DiscussionBook { discussions, revisions, bindings };
        Ok(())
    }
}

/// What was imported is still to be claimed where this store did not own it, and has a
/// revision above the one that it had on either side.
pub proof fn law_import_moves_ahead(
    book: BookView,
    id: Seq<char>,
    given: ImportedDiscussionView,
)
    requires
        adopted(book, id, given) is Ok,
    ensures
        adopted(book, id, given)->Ok_0.found.revision > given.body.revision,
        book.discussions.dom().contains(id) ==> adopted(book, id, given)->Ok_0.found.revision
            > book.discussions[id].revision && adopted(book, id, given)->Ok_0.found.context
            == book.discussions[id].context,
        !book.discussions.dom().contains(id) ==> adopted(book, id, given)->Ok_0.found.context.len()
            == 0,
{
}

} // verus!
