//! How batches reach a discussion, how it is read, and how it travels.
use crate::discussion;
use crate::discussion::{BodyView, Items};
use crate::discussion_book;
use crate::discussion_book::{BookView, InputView, RevisionView};
use crate::discussion_read;
use crate::discussion_read::{ReadingView, ReplyPlanView};
use crate::discussion_store;
use crate::discussion_store::{ImportedDiscussionView, ImportedEventView};
use crate::json;
use crate::table;
use crate::text;
use vstd::prelude::*;

verus! {

// ---------------------------------------------------------------------------
// Batches
// ---------------------------------------------------------------------------

/// An identifier that is not blank and not longer than 256 bytes.
pub open spec fn is_short(s: Seq<char>) -> bool {
    !text::is_blank(s) && text::byte_count(s) <= 256
}

/// A batch is looked at exactly where its context is a token of this form, its identifiers are
/// short, it has one to sixty-four operations, a revision that can be followed, no more than a
/// mebibyte and no secret, and where the store is not frozen.
pub proof fn law_batches_are_admitted(input: InputView, secret: bool, frozen: bool)
    ensures
        discussion_book::admission(input, secret, frozen) is None <==> {
            &&& discussion_book::is_agent_context(input.context)
            &&& is_short(input.id)
            &&& is_short(input.context)
            &&& is_short(input.request_id)
            &&& 1 <= input.operations.len() <= 64
            &&& 0 <= input.if_revision
            &&& input.if_revision != i64::MAX
            &&& text::byte_count(json::canonical_text(discussion_book::input_json(input)))
                <= 1048576
            &&& !secret
            &&& !frozen
        },
{
}

/// A context is a fixed word and sixty-four digits of a digest.
pub proof fn law_contexts_are_tokens(digits: Seq<char>, value: Seq<char>)
    ensures
        discussion_book::is_agent_context("lwcctx-v1-"@ + digits) <==> text::is_lower_hex(
            digits,
            64,
        ),
        discussion_book::is_agent_context(value) ==> value.len() == 74,
{
    reveal_strlit("lwcctx-v1-");
    let prefix = "lwcctx-v1-"@;
    assert(prefix.len() == 10);
    assert((prefix + digits).skip(10) =~= digits);
    assert(prefix.is_prefix_of(prefix + digits));
    if discussion_book::is_agent_context(value) {
        assert(value.skip(10).len() == value.len() - 10);
    }
}

proof fn lemma_earlier(log: Seq<RevisionView>, request_id: Seq<char>)
    ensures
        discussion_book::earlier_request(log, request_id) is None <==> forall|k: int|
            0 <= k < log.len() ==> (#[trigger] log[k]).request_id != request_id,
        discussion_book::earlier_request(log, request_id) matches Some(row) ==> log.contains(row)
            && row.request_id == request_id,
    decreases log.len(),
{
    if log.len() > 0 && log[0].request_id != request_id {
        let rest = log.drop_first();
        lemma_earlier(rest, request_id);
        match discussion_book::earlier_request(rest, request_id) {
            Some(row) => {
                let k = rest.index_of(row);
                assert(log[k + 1] == row);
            },
            None => {
                assert forall|k: int| 0 <= k < log.len() implies (#[trigger] log[k]).request_id
                    != request_id by {
                    if k > 0 {
                        assert(rest[k - 1] == log[k]);
                    }
                }
            },
        }
    } else if log.len() > 0 {
        assert(log.contains(log[0]));
    }
}

/// What a batch comes to: one that was applied before is answered as before, whatever happened
/// since; a new one is applied only to the revision that it names, by the context that the
/// discussion belongs to or that takes it over by resuming it, while it is active or is
/// resumed, and while the context is not busy with another discussion.
pub proof fn law_batches_are_planned(book: BookView, input: InputView)
    ensures
        discussion_book::plan(book, input) matches Ok(plan) ==> {
            let known = book.discussions.dom().contains(input.id);
            let found = book.discussions[input.id];
            let log = discussion_book::log_of(book, input.id);
            let resumed = input.operations.len() > 0 && input.operations[0].op == "resume"@;
            &&& known ==> found.context == input.context || (input.from_context == Some(
                found.context,
            ) && resumed)
            &&& plan.replay matches Some(revision) ==> exists|k: int|
                0 <= k < log.len() && (#[trigger] log[k]).input == input && log[k].revision
                    == revision
            &&& plan.replay is None ==> {
                &&& forall|k: int|
                    0 <= k < log.len() ==> (#[trigger] log[k]).request_id != input.request_id
                &&& known ==> input.if_revision == found.revision
                &&& !known ==> input.if_revision == 0
                &&& known ==> found.body.state == "active"@ || resumed
                &&& book.bindings.dom().contains(input.context)
                    ==> book.bindings[input.context] == input.id
                &&& plan.body.id == (if known {
                    found.body.id
                } else {
                    input.id
                })
            }
        },
{
    let log = discussion_book::log_of(book, input.id);
    lemma_earlier(log, input.request_id);
    if let Ok(plan) = discussion_book::plan(book, input) {
        match discussion_book::earlier_request(log, input.request_id) {
            Some(row) => {
                let k = log.index_of(row);
                assert(log[k] == row);
            },
            None => {
                let known = book.discussions.dom().contains(input.id);
                let revision = if known {
                    book.discussions[input.id].revision
                } else {
                    0
                };
                let body = if known {
                    book.discussions[input.id].body
                } else {
                    discussion_book::blank_body(input.id)
                };
                lemma_same_id(
                    crate::discussion_apply::StepView { body, started: revision > 0 },
                    input.operations,
                    revision,
                    input.operations.len(),
                );
            },
        }
    }
}

proof fn lemma_same_id(
    start: crate::discussion_apply::StepView,
    ops: Seq<crate::discussion_apply::OperationView>,
    revision: int,
    count: nat,
)
    ensures
        crate::discussion_apply::with_operations(start, ops, revision, count) matches Ok(step)
            ==> step.body.id == start.body.id,
    decreases count,
{
    if count > 0 && count <= ops.len() {
        lemma_same_id(start, ops, revision, (count - 1) as nat);
    }
}

/// What is written down of a batch: the discussion with its new revision, owned by the context;
/// the batch behind those before it; and that the context works on the discussion while it is
/// active, and no longer once it is not. A context that gave it up is free of it. Other
/// discussions and other contexts stay.
pub proof fn law_batch_is_written_down(
    book: BookView,
    input: InputView,
    body: BodyView,
    now: Seq<char>,
    other: Seq<char>,
)
    ensures
        ({
            let next = discussion_book::recorded(book, input, body, now);
            let log = next.revisions[input.id];
            let last = log.last();
            &&& next.discussions.dom() == book.discussions.dom().insert(input.id)
            &&& next.discussions[input.id].context == input.context
            &&& next.discussions[input.id].revision == input.if_revision + 1
            &&& next.discussions[input.id].body == body
            &&& log.len() > 0
            &&& last.revision == input.if_revision + 1
            &&& last.request_id == input.request_id
            &&& last.input == input
            &&& last.created_at == now
            &&& log.drop_last() == (if book.revisions.dom().contains(input.id) {
                book.revisions[input.id]
            } else {
                Seq::empty()
            })
            &&& other != input.id && book.discussions.dom().contains(other)
                ==> next.discussions[other] == book.discussions[other]
            &&& body.state == "active"@ ==> next.bindings.dom().contains(input.context)
                && next.bindings[input.context] == input.id
            &&& body.state != "active"@ ==> !(next.bindings.dom().contains(input.context)
                && next.bindings[input.context] == input.id)
            &&& input.from_context matches Some(previous) ==> (previous != input.context ==> !(
            next.bindings.dom().contains(previous) && next.bindings[previous] == input.id))
            &&& other != input.context && input.from_context != Some(other) ==> {
                &&& next.bindings.dom().contains(other) == book.bindings.dom().contains(other)
                &&& book.bindings.dom().contains(other) ==> next.bindings[other]
                    == book.bindings[other]
            }
        }),
{
    let next = discussion_book::recorded(book, input, body, now);
    assert(next.discussions.dom() =~= book.discussions.dom().insert(input.id));
    let before = discussion_book::log_of(book, input.id);
    assert(next.revisions[input.id].drop_last() =~= before);
}

// ---------------------------------------------------------------------------
// Reading
// ---------------------------------------------------------------------------

/// What waits for an answer: the questions that were not withdrawn and have no answer that
/// stands, in ascending order.
pub proof fn law_pending_questions(items: Items, id: Seq<char>)
    requires
        items.dom().finite(),
    ensures
        discussion_read::pending(items).contains(id) <==> {
            &&& items.dom().contains(id)
            &&& items[id].kind == "question"@
            &&& !items[id].withdrawn
            &&& forall|answer: Seq<char>| #[trigger]
                items.dom().contains(answer) && items[answer].kind == "answer"@
                    && items[answer].parent == Some(id) ==> items[answer].withdrawn
        },
        discussion_read::pending(items).no_duplicates(),
{
    let set = Set::new(
        |id: Seq<char>|
            discussion::is_open_question(items, id) && !discussion::is_answered(items, id),
    );
    assert(set.subset_of(items.dom()));
    vstd::set_lib::lemma_set_subset_finite(items.dom(), set);
    table::lemma_texts_sorted(set);
    assert(discussion_read::pending(items) == text::sorted(set));
    assert(text::sorted(set).contains(id) == text::sorted(set).to_set().contains(id));
    if items.dom().contains(id) && items[id].kind == "question"@ && !items[id].withdrawn {
        if forall|answer: Seq<char>| #[trigger]
            items.dom().contains(answer) && items[answer].kind == "answer"@ && items[answer].parent
                == Some(id) ==> items[answer].withdrawn {
            assert(!discussion::is_answered(items, id));
        }
        if !discussion::is_answered(items, id) {
            assert forall|answer: Seq<char>| #[trigger]
                items.dom().contains(answer) && items[answer].kind == "answer"@
                    && items[answer].parent == Some(id) implies items[answer].withdrawn by {
                if !items[answer].withdrawn {
                    assert(discussion::is_active(items[answer]));
                }
            }
        }
    }
}

proof fn lemma_latest(items: Items, keys: Seq<Seq<char>>, count: nat)
    requires
        count <= keys.len(),
    ensures
        discussion_read::latest(items, keys, count) is None <==> count == 0,
        discussion_read::latest(items, keys, count) matches Some(best) ==> {
            &&& keys.take(count as int).contains(best)
            &&& forall|k: int|
                0 <= k < count ==> items[#[trigger] keys[k]].revision <= items[best].revision
        },
    decreases count,
{
    if count > 0 {
        lemma_latest(items, keys, (count - 1) as nat);
        table::lemma_take_more(keys, count - 1);
        assert(keys.take(count as int)[count - 1] == keys[count - 1]);
    }
}

proof fn lemma_loose(items: Items, keys: Seq<Seq<char>>, count: nat)
    requires
        count <= keys.len(),
    ensures
        discussion_read::loose_replies(items, keys, count) == keys.take(count as int).filter(
            |id: Seq<char>| items[id].kind == "reply"@ && !items[id].withdrawn,
        ).len(),
    decreases count,
{
    reveal(Seq::filter);
    let part = keys.take(count as int);
    if count > 0 {
        lemma_loose(items, keys, (count - 1) as nat);
        assert(part.drop_last() =~= keys.take(count - 1));
        assert(part.last() == keys[count - 1]);
    } else {
        assert(part =~= Seq::empty());
    }
}

/// The overview of a discussion: how it stands, what waits for an answer, the item that was
/// changed last, and how many replies belong to no question.
pub proof fn law_overview_of_a_discussion(body: BodyView, id: Seq<char>)
    requires
        body.items.dom().finite(),
    ensures
        ({
            let seen = discussion_read::overview(body, id);
            let waiting = discussion_read::pending(body.items);
            let keys = table::ordered::<String>(body.items.dom());
            &&& seen.id == id
            &&& seen.revision == body.revision
            &&& seen.state == body.state
            &&& seen.pending_total == waiting.len()
            &&& seen.pending.len() <= 20
            &&& seen.pending.len() == 20 || seen.pending.len() == waiting.len()
            &&& forall|k: int|
                0 <= k < seen.pending.len() ==> #[trigger] seen.pending[k] == waiting[k]
            &&& seen.pending_questions.len() <= 3
            &&& seen.pending_questions.len() == 3 || seen.pending_questions.len() == waiting.len()
            &&& forall|k: int|
                0 <= k < seen.pending_questions.len() ==> (
                #[trigger] seen.pending_questions[k]).first == waiting[k]
            &&& seen.last_item is None <==> body.items.dom().len() == 0
            &&& seen.last_item matches Some(item) ==> exists|last: Seq<char>| #[trigger]
                body.items.dom().contains(last) && item.id == body.items[last].id && item.kind
                    == body.items[last].kind && forall|other: Seq<char>| #[trigger]
                    body.items.dom().contains(other) ==> body.items[other].revision
                        <= body.items[last].revision
            &&& seen.unassigned == keys.filter(
                |one: Seq<char>| body.items[one].kind == "reply"@ && !body.items[one].withdrawn,
            ).len()
        }),
{
    let keys = table::ordered::<String>(body.items.dom());
    table::lemma_has_order::<String>(body.items.dom());
    table::lemma_in_order_distinct::<String>(keys);
    keys.unique_seq_to_set();
    lemma_latest(body.items, keys, keys.len());
    lemma_loose(body.items, keys, keys.len());
    assert(keys.take(keys.len() as int) =~= keys);
    if let Some(last) = discussion_read::latest(body.items, keys, keys.len()) {
        assert(keys.to_set().contains(last));
        assert(body.items.dom().contains(last));
        assert forall|other: Seq<char>| #[trigger] body.items.dom().contains(other) implies
            body.items[other].revision <= body.items[last].revision by {
            assert(keys.to_set().contains(other));
            let k = keys.index_of(other);
            assert(keys[k] == other);
        }
    }
}

/// A discussion is read by the context that it belongs to, or by any where it belongs to none.
/// Without a name the one that the context works on is read.
pub proof fn law_discussion_is_read(
    book: BookView,
    id: Seq<char>,
    context: Seq<char>,
    mode: Seq<char>,
    offset: nat,
    limit: nat,
)
    ensures
        discussion_read::reading(book, id, context, mode, offset, limit) matches Ok(got) ==> {
            let bound = book.bindings.dom().contains(context);
            let named = if id.len() > 0 {
                id
            } else {
                book.bindings[context]
            };
            &&& discussion_book::is_agent_context(context)
            &&& 1 <= limit <= 100
            &&& got is Nothing <==> id.len() == 0 && !bound
            &&& !(got is Nothing) ==> {
                &&& book.discussions.dom().contains(named)
                &&& book.discussions[named].context == context
                    || book.discussions[named].context.len() == 0
                &&& got matches ReadingView::Export(body) ==> body
                    == book.discussions[named].body
                &&& got matches ReadingView::History { id: which, revisions, total } ==> {
                    &&& which == named
                    &&& revisions.len() <= limit
                    &&& forall|k: int|
                        0 <= k < revisions.len() ==> #[trigger] revisions[k]
                            == book.revisions[named][offset + k]
                    &&& total == discussion_book::log_of(book, named).len()
                }
                &&& got matches ReadingView::Page { body, total } ==> {
                    &&& body.title == book.discussions[named].body.title
                    &&& body.state == book.discussions[named].body.state
                    &&& total == book.discussions[named].body.items.dom().len()
                    &&& forall|item: Seq<char>| #[trigger]
                        body.items.dom().contains(item)
                            ==> book.discussions[named].body.items.dom().contains(item)
                            && body.items[item] == book.discussions[named].body.items[item]
                }
                &&& mode == "export"@ ==> got is Export
                &&& mode == "history"@ ==> got is History
                &&& mode == "current"@ ==> got is Current
            }
        },
{
    reveal_strlit("current");
    reveal_strlit("history");
    reveal_strlit("export");
    assert("current"@.len() == 7 && "current"@[0] == 'c' && "history"@.len() == 7 && "history"@[0]
        == 'h' && "export"@.len() == 6);
}

/// A context sees its own discussions and those that belong to none, and no others.
pub proof fn law_contexts_see_their_own(book: BookView, context: Seq<char>, id: Seq<char>)
    requires
        book.discussions.dom().finite(),
    ensures
        discussion_read::visible(book, context).contains(id) <==> book.discussions.dom().contains(
            id,
        ) && (book.discussions[id].context == context || book.discussions[id].context.len() == 0),
{
    let set = Set::new(
        |one: Seq<char>|
            book.discussions.dom().contains(one) && (book.discussions[one].context == context
                || book.discussions[one].context.len() == 0),
    );
    assert(set.subset_of(book.discussions.dom()));
    vstd::set_lib::lemma_set_subset_finite(book.discussions.dom(), set);
    table::lemma_texts_sorted(set);
    assert(discussion_read::visible(book, context) == text::sorted(set));
    assert(text::sorted(set).contains(id) == text::sorted(set).to_set().contains(id));
}

proof fn lemma_with_message(items: Items, keys: Seq<Seq<char>>, message: Seq<char>)
    ensures
        discussion_read::item_with_message(items, keys, message) is None <==> forall|k: int|
            0 <= k < keys.len() ==> items[#[trigger] keys[k]].message_id != Some(message),
        discussion_read::item_with_message(items, keys, message) matches Some(found)
            ==> keys.contains(found) && items[found].message_id == Some(message),
    decreases keys.len(),
{
    if keys.len() > 0 && items[keys[0]].message_id != Some(message) {
        let rest = keys.drop_first();
        lemma_with_message(items, rest, message);
        match discussion_read::item_with_message(items, rest, message) {
            Some(found) => {
                let k = rest.index_of(found);
                assert(keys[k + 1] == found);
            },
            None => {
                assert forall|k: int| 0 <= k < keys.len() implies items[
                #[trigger] keys[k]].message_id != Some(message) by {
                    if k > 0 {
                        assert(rest[k - 1] == keys[k]);
                    }
                }
            },
        }
    } else if keys.len() > 0 {
        assert(keys.contains(keys[0]));
    }
}

/// A reply of the host is recorded where no item has its message: as one reply with that text
/// and message, to the discussion that the context works on. A reply that is known is not
/// recorded twice, and one that says something else now is refused.
pub proof fn law_replies_are_recorded_once(
    book: BookView,
    context: Seq<char>,
    message: Seq<char>,
    said: Seq<char>,
)
    requires
        book.bindings.dom().contains(context) ==> book.discussions[book.bindings[
            context
        ]].body.items.dom().finite(),
    ensures
        discussion_read::reply_plan(book, context, message, said) matches Ok(plan) ==> {
            let id = book.bindings[context];
            let body = book.discussions[id].body;
            &&& plan is Nothing <==> !book.bindings.dom().contains(context)
            &&& plan is Known ==> exists|item: Seq<char>| #[trigger]
                body.items.dom().contains(item) && body.items[item].message_id == Some(message)
                    && body.items[item].original == said
            &&& plan matches ReplyPlanView::Record(input) ==> {
                &&& forall|item: Seq<char>| #[trigger]
                    body.items.dom().contains(item) ==> body.items[item].message_id != Some(
                        message,
                    )
                &&& input.id == id
                &&& input.context == context
                &&& input.if_revision == body.revision
                &&& input.operations.len() == 1
                &&& input.operations[0].op == "reply"@
                &&& input.operations[0].text == Some(said)
                &&& input.operations[0].message_id == Some(message)
                &&& input.operations[0].id == Some(input.request_id)
                &&& input.operations[0].parent is None
            }
        },
{
    reveal_strlit("current");
    reveal_strlit("history");
    reveal_strlit("export");
    assert("current"@.len() == 7 && "history"@.len() == 7 && "export"@.len() == 6);
    if let Ok(plan) = discussion_read::reply_plan(book, context, message, said) {
        if book.bindings.dom().contains(context) {
            let items = book.discussions[book.bindings[context]].body.items;
            let keys = table::ordered::<String>(items.dom());
            table::lemma_has_order::<String>(items.dom());
            lemma_with_message(items, keys, message);
            if let Some(found) = discussion_read::item_with_message(items, keys, message) {
                assert(keys.to_set().contains(found));
                assert(items.dom().contains(found));
            } else {
                assert forall|item: Seq<char>| #[trigger] items.dom().contains(item) implies
                    items[item].message_id != Some(message) by {
                    assert(keys.to_set().contains(item));
                    let k = keys.index_of(item);
                    assert(keys[k] == item);
                }
            }
        }
    }
}

// ---------------------------------------------------------------------------
// Travelling
// ---------------------------------------------------------------------------

proof fn lemma_adopted_log(
    history: Seq<ImportedEventView>,
    owner: Seq<char>,
    newest: int,
    count: nat,
)
    requires
        count <= history.len(),
    ensures
        discussion_store::adopted_log(history, owner, newest, count) matches Ok(log) ==> {
            &&& log.len() == count
            &&& forall|k: int|
                0 <= k < count ==> {
                    let row = #[trigger] log[k];
                    &&& row.revision == history[k].revision
                    &&& row.request_id == history[k].request_id
                    &&& row.created_at == history[k].created_at
                    &&& row.input.operations == history[k].input.operations
                    &&& row.input.context == owner
                    &&& row.input.from_context is None
                    &&& 0 < row.revision <= newest
                }
            &&& forall|i: int, j: int|
                0 <= i < j < count ==> log[i].revision < log[j].revision
        },
    decreases count,
{
    if count > 0 {
        lemma_adopted_log(history, owner, newest, (count - 1) as nat);
        if let Ok(log) = discussion_store::adopted_log(history, owner, newest, count) {
            let head = discussion_store::adopted_log(
                history,
                owner,
                newest,
                (count - 1) as nat,
            )->Ok_0;
            assert forall|k: int| 0 <= k < count - 1 implies #[trigger] log[k] == head[k] by {}
            assert forall|i: int, j: int| 0 <= i < j < count implies log[i].revision
                < log[j].revision by {
                if j == count - 1 {
                    assert(log[i] == head[i]);
                    if i < count - 2 {
                        assert(head[i].revision < head[count - 2].revision);
                    }
                } else {
                    assert(log[i] == head[i] && log[j] == head[j]);
                }
            }
            if count == 1 {
                assert(head.len() == 0);
            } else {
                assert(head.last() == head[count - 2]);
            }
        }
    }
}

/// A discussion that is adopted from another store is the one that was given, with its history
/// in order, and belongs to whom it belonged here. Its history must lead to it.
pub proof fn law_discussion_is_adopted(
    book: BookView,
    id: Seq<char>,
    given: ImportedDiscussionView,
)
    ensures
        discussion_store::adopted(book, id, given) matches Ok(one) ==> {
            let here = book.discussions.dom().contains(id);
            &&& given.body.id == id
            &&& one.found.body.title == given.body.title
            &&& one.found.body.description == given.body.description
            &&& one.found.body.state == given.body.state
            &&& one.found.body.items == given.body.items
            &&& one.found.body.revision == one.found.revision
            &&& one.found.revision > given.body.revision
            &&& here ==> one.found.revision > book.discussions[id].revision
            &&& here ==> one.found.context == book.discussions[id].context
            &&& !here ==> one.found.context.len() == 0
            &&& one.found.revision == given.body.revision + 1 || here && one.found.revision
                == book.discussions[id].revision + 1
            &&& one.log.len() == given.history.len()
            &&& one.log.len() > 0
            &&& one.log.last().revision == given.body.revision
            &&& forall|k: int|
                0 <= k < one.log.len() ==> {
                    let row = #[trigger] one.log[k];
                    &&& row.revision == given.history[k].revision
                    &&& row.request_id == given.history[k].request_id
                    &&& row.created_at == given.history[k].created_at
                    &&& row.input.operations == given.history[k].input.operations
                    &&& row.input.context == one.found.context
                }
            &&& forall|i: int, j: int|
                0 <= i < j < one.log.len() ==> one.log[i].revision < one.log[j].revision
        },
{
    let owner = if book.discussions.dom().contains(id) {
        book.discussions[id].context
    } else {
        Seq::empty()
    };
    lemma_adopted_log(given.history, owner, given.body.revision, given.history.len());
}

/// A binding stays exactly where its discussion is still there, belongs to the context, and is
/// active.
pub proof fn law_bindings_that_stay(
    bindings: Map<Seq<char>, Seq<char>>,
    discussions: Map<Seq<char>, discussion_book::DiscussionView>,
    context: Seq<char>,
)
    ensures
        ({
            let kept = discussion_store::kept_bindings(bindings, discussions);
            let id = bindings[context];
            &&& kept.dom().contains(context) <==> {
                &&& bindings.dom().contains(context)
                &&& discussions.dom().contains(id)
                &&& discussions[id].context == context
                &&& discussions[id].body.state == "active"@
            }
            &&& kept.dom().contains(context) ==> kept[context] == id
        }),
{
}

proof fn lemma_all_adopted(
    book: BookView,
    given: Map<Seq<char>, ImportedDiscussionView>,
    keys: Seq<Seq<char>>,
    count: nat,
    id: Seq<char>,
)
    requires
        count <= keys.len(),
        keys.no_duplicates(),
    ensures
        discussion_store::all_adopted(book, given, keys, count) matches Ok(next) ==> {
            &&& next.discussions.dom().contains(id) <==> keys.take(count as int).contains(id)
            &&& keys.take(count as int).contains(id) ==> {
                &&& discussion_store::adopted(book, id, given[id]) matches Ok(one)
                &&& next.discussions[id] == one.found
                &&& next.revisions[id] == one.log
            }
        },
    decreases count,
{
    if count > 0 {
        lemma_all_adopted(book, given, keys, (count - 1) as nat, id);
        table::lemma_take_more(keys, count - 1);
        if keys[count - 1] == id && keys.take(count - 1).contains(id) {
            let i = keys.take(count - 1).index_of(id);
            assert(keys[i] == keys[count - 1]);
        }
    } else {
        assert(keys.take(0) =~= Seq::empty());
    }
}

/// An import leaves the discussions that were given, each as it is adopted, and no others.
pub proof fn law_import_takes_over(
    book: BookView,
    given: Map<Seq<char>, ImportedDiscussionView>,
    id: Seq<char>,
)
    requires
        given.dom().finite(),
    ensures
        discussion_store::imported(book, given) matches Ok(next) ==> {
            &&& next.discussions.dom().contains(id) <==> given.dom().contains(id)
            &&& given.dom().contains(id) ==> {
                &&& discussion_store::adopted(book, id, given[id]) matches Ok(one)
                &&& next.discussions[id] == one.found
                &&& next.revisions[id] == one.log
            }
        },
{
    let keys = table::ordered::<String>(given.dom());
    table::lemma_has_order::<String>(given.dom());
    table::lemma_in_order_distinct::<String>(keys);
    lemma_all_adopted(book, given, keys, keys.len(), id);
    assert(keys.take(keys.len() as int) =~= keys);
    assert(keys.contains(id) == keys.to_set().contains(id));
}

/// The last item of a discussion is one of the highest revision, and of these the one whose
/// name comes last.
pub proof fn law_latest_item(items: Items, keys: Seq<Seq<char>>, count: nat)
    requires
        count <= keys.len(),
    ensures
        discussion_read::latest(items, keys, count) matches Some(best) ==> exists|n: int| {
            &&& 0 <= n < count
            &&& #[trigger] keys[n] == best
            &&& forall|k: int|
                n < k < count ==> items[#[trigger] keys[k]].revision < items[best].revision
            &&& forall|k: int|
                0 <= k < count ==> items[#[trigger] keys[k]].revision <= items[best].revision
        },
    decreases count,
{
    if count > 0 {
        law_latest_item(items, keys, (count - 1) as nat);
        assert(keys[count - 1] == keys[count - 1]);
        if let Some(best) = discussion_read::latest(items, keys, (count - 1) as nat) {
            let n = choose|n: int| {
                &&& 0 <= n < count - 1
                &&& #[trigger] keys[n] == best
                &&& forall|k: int|
                    n < k < count - 1 ==> items[#[trigger] keys[k]].revision < items[best].revision
                &&& forall|k: int|
                    0 <= k < count - 1 ==> items[#[trigger] keys[k]].revision
                        <= items[best].revision
            };
            assert(keys[n] == best);
        }
    }
}

} // verus!
