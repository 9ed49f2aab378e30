//! What an operation on a discussion does, in terms of the items before and after it.
use crate::discussion;
use crate::discussion::{BodyView, ItemView, Items};
use crate::discussion_apply;
use crate::discussion_apply::{OperationView, StepView};
use crate::error::ErrorCode;
use crate::table;
use crate::text;
use vstd::prelude::*;

verus! {

/// A text that is there, is not blank, and is not longer than 65536 bytes.
pub open spec fn is_said(s: Option<Seq<char>>) -> bool {
    s is Some && !text::is_blank(s->0) && text::byte_count(s->0) <= 65536
}

/// An item that no operation was about: only a summary can have become stale, and is then not
/// confirmed.
pub open spec fn stands_by(before: ItemView, after: ItemView) -> bool {
    &&& after.id == before.id
    &&& after.kind == before.kind
    &&& after.original == before.original
    &&& after.text == before.text
    &&& after.parent == before.parent
    &&& after.refs == before.refs
    &&& after.ordinal == before.ordinal
    &&& after.revision == before.revision
    &&& after.withdrawn == before.withdrawn
    &&& after.message_id == before.message_id
    &&& after.delivery == before.delivery
    &&& after == before || (before.kind == "summary"@ && after.stale && !after.confirmed)
}

/// Two discussions that differ in their items at most.
pub open spec fn same_frame(before: StepView, after: StepView) -> bool {
    &&& after.started == before.started
    &&& after.body.id == before.body.id
    &&& after.body.title == before.body.title
    &&& after.body.description == before.body.description
    &&& after.body.state == before.body.state
    &&& after.body.revision == before.body.revision
}

/// All items but one stand by.
pub open spec fn others_stand_by(before: Items, after: Items, id: Seq<char>) -> bool {
    &&& after.dom() == before.dom()
    &&& forall|other: Seq<char>|
        other != id && #[trigger] before.dom().contains(other) ==> stands_by(
            before[other],
            after[other],
        )
}

/// The discussion takes operations on its items.
pub open spec fn is_under_way(step: StepView) -> bool {
    step.started && step.body.state == "active"@
}

/// An item is a question that has not been withdrawn.
pub open spec fn asks(items: Items, id: Seq<char>) -> bool {
    items.dom().contains(id) && items[id].kind == "question"@ && !items[id].withdrawn
}

proof fn lemma_names()
    ensures
        "start"@.len() == 5 && "start"@[0] == 's',
        "pause"@.len() == 5 && "pause"@[0] == 'p',
        "close"@.len() == 5 && "close"@[0] == 'c',
        "reply"@.len() == 5 && "reply"@[0] == 'r',
        "resume"@.len() == 6 && "resume"@[0] == 'r' && "resume"@[2] == 's',
        "revise"@.len() == 6 && "revise"@[0] == 'r' && "revise"@[2] == 'v',
        "answer"@.len() == 6 && "answer"@[0] == 'a' && "answer"@[2] == 's',
        "option"@.len() == 6 && "option"@[0] == 'o',
        "active"@.len() == 6 && "active"@[0] == 'a' && "active"@[2] == 't',
        "paused"@.len() == 6 && "paused"@[0] == 'p',
        "closed"@.len() == 6 && "closed"@[0] == 'c',
        "metadata"@.len() == 8 && "metadata"@[0] == 'm',
        "withdraw"@.len() == 8 && "withdraw"@[0] == 'w',
        "delivery"@.len() == 8 && "delivery"@[0] == 'd',
        "question"@.len() == 8 && "question"@[0] == 'q',
        "restore"@.len() == 7 && "restore"@[0] == 'r',
        "confirm"@.len() == 7 && "confirm"@[0] == 'c',
        "summary"@.len() == 7 && "summary"@[0] == 's',
        "move"@.len() == 4,
        "gap"@.len() == 3,
{
    reveal_strlit("start");
    reveal_strlit("pause");
    reveal_strlit("close");
    reveal_strlit("reply");
    reveal_strlit("resume");
    reveal_strlit("revise");
    reveal_strlit("answer");
    reveal_strlit("option");
    reveal_strlit("active");
    reveal_strlit("paused");
    reveal_strlit("closed");
    reveal_strlit("metadata");
    reveal_strlit("withdraw");
    reveal_strlit("delivery");
    reveal_strlit("question");
    reveal_strlit("restore");
    reveal_strlit("confirm");
    reveal_strlit("summary");
    reveal_strlit("move");
    reveal_strlit("gap");
}

proof fn lemma_left_alone(items: Items, seeds: Set<Seq<char>>)
    ensures
        discussion::invalidated(items, seeds).dom() == items.dom(),
        forall|id: Seq<char>| #[trigger]
            items.dom().contains(id) ==> stands_by(
                items[id],
                discussion::invalidated(items, seeds)[id],
            ),
        forall|id: Seq<char>| #[trigger]
            items.dom().contains(id) && seeds.contains(id) ==> discussion::invalidated(
                items,
                seeds,
            )[id] == items[id],
{
    assert(discussion::invalidated(items, seeds).dom() =~= items.dom());
}

// ---------------------------------------------------------------------------
// Operations on one item
// ---------------------------------------------------------------------------

/// What a withdrawal and its opposite do: the item is withdrawn afterwards, or is not, and that
/// is all that changes of it but its revision. They are taken for any item that is there.
pub proof fn law_withdrawn_is_withdrawn(step: StepView, op: OperationView, revision: int)
    requires
        op.op == "withdraw"@ || op.op == "restore"@,
    ensures
        discussion_apply::with_operation(step, op, revision) is Ok <==> (is_under_way(step)
            && is_said(op.id) && is_said(op.reason) && (op.parent is Some ==> asks(
            step.body.items,
            op.parent->0,
        )) && step.body.items.dom().contains(op.id->0)),
        discussion_apply::with_operation(step, op, revision) matches Ok(next) ==> {
            let before = step.body.items[op.id->0];
            let after = next.body.items[op.id->0];
            &&& same_frame(step, next)
            &&& others_stand_by(step.body.items, next.body.items, op.id->0)
            &&& op.op == "withdraw"@ ==> after.withdrawn
            &&& op.op == "restore"@ ==> !after.withdrawn
            &&& after.revision == revision + 1
            &&& after.id == before.id
            &&& after.kind == before.kind
            &&& after.original == before.original
            &&& after.text == before.text
            &&& after.parent == before.parent
            &&& after.refs == before.refs
            &&& after.ordinal == before.ordinal
            &&& after.stale == before.stale
            &&& after.confirmed == before.confirmed
            &&& after.message_id == before.message_id
            &&& after.delivery == before.delivery
        },
{
    lemma_names();
    let items = step.body.items;
    let id = op.id->0;
    let item = discussion_apply::changed_item(items[id], op)->Ok_0;
    let next = items.insert(id, ItemView { revision: revision + 1, ..item });
    let seeds = discussion_apply::seeds_of(Some(id), items[id].parent, op.parent);
    lemma_left_alone(next, seeds);
    if items.dom().contains(id) {
        assert(next.dom() =~= items.dom());
        assert(seeds.contains(id));
        assert(next.dom().contains(id));
        let after = discussion::invalidated(next, seeds);
        assert forall|other: Seq<char>|
            other != id && #[trigger] items.dom().contains(other) implies stands_by(
            items[other],
            after[other],
        ) by {
            assert(next.dom().contains(other));
            assert(next[other] == items[other]);
        }
    }
}

/// A question whose every answer is withdrawn is not answered, and a question with an answer
/// that is not withdrawn is.
pub proof fn law_withdrawn_answers_do_not_count(items: Items, question: Seq<char>)
    ensures
        discussion::is_answered(items, question) <==> exists|id: Seq<char>| #[trigger]
            items.dom().contains(id) && items[id].kind == "answer"@ && items[id].parent == Some(
                question,
            ) && !items[id].withdrawn,
{
}

/// Once its only answer is withdrawn, a question keeps its discussion from being closed.
pub proof fn law_last_answer_withdrawn_keeps_open(
    step: StepView,
    op: OperationView,
    close: OperationView,
    revision: int,
    question: Seq<char>,
)
    requires
        op.op == "withdraw"@,
        close.op == "close"@,
        op.id is Some,
        op.id->0 != question,
        asks(step.body.items, question),
        forall|id: Seq<char>| #[trigger]
            step.body.items.dom().contains(id) && step.body.items[id].kind == "answer"@
                && step.body.items[id].parent == Some(question) && !step.body.items[id].withdrawn
                ==> id == op.id->0,
    ensures
        discussion_apply::with_operation(step, op, revision) matches Ok(next) ==> {
            &&& !discussion::is_answered(next.body.items, question)
            &&& discussion_apply::with_operation(next, close, revision) is Err
        },
{
    lemma_names();
    law_withdrawn_is_withdrawn(step, op, revision);
    if let Ok(next) = discussion_apply::with_operation(step, op, revision) {
        let before = step.body.items;
        let after = next.body.items;
        assert(before.dom().contains(question));
        assert(stands_by(before[question], after[question]));
        assert(!discussion::is_answered(after, question)) by {
            if discussion::is_answered(after, question) {
                let id = choose|id: Seq<char>| #[trigger]
                    after.dom().contains(id) && discussion::is_active(after[id]) && after[id].kind
                        == "answer"@ && after[id].parent == Some(question);
                assert(before.dom().contains(id));
                if id != op.id->0 {
                    assert(stands_by(before[id], after[id]));
                }
            }
        }
        assert(discussion::is_open_question(after, question));
        assert(after.dom().contains(question));
        assert(discussion_apply::has_unanswered(after));
    }
}

/// What a move does: the item has the parent and the place that were given, and keeps those
/// that were not. A reply that is given a question becomes an answer.
pub proof fn law_moved_item(step: StepView, op: OperationView, revision: int)
    requires
        op.op == "move"@,
    ensures
        discussion_apply::with_operation(step, op, revision) is Ok <==> (is_under_way(step)
            && is_said(op.id) && is_said(op.reason) && step.body.items.dom().contains(op.id->0) && (
        op.parent is Some ==> asks(step.body.items, op.parent->0) && (step.body.items[op.id->0].kind
            == "answer"@ || step.body.items[op.id->0].kind == "option"@
            || step.body.items[op.id->0].kind == "reply"@)) && (op.ordinal is Some ==> op.ordinal->0
            >= 0)),
        discussion_apply::with_operation(step, op, revision) matches Ok(next) ==> {
            let before = step.body.items[op.id->0];
            let after = next.body.items[op.id->0];
            &&& same_frame(step, next)
            &&& others_stand_by(step.body.items, next.body.items, op.id->0)
            &&& op.parent is Some ==> after.parent == op.parent
            &&& op.parent is None ==> after.parent == before.parent
            &&& op.ordinal is Some ==> after.ordinal == op.ordinal->0
            &&& op.ordinal is None ==> after.ordinal == before.ordinal
            &&& op.parent is Some && before.kind == "reply"@ ==> after.kind == "answer"@
            &&& op.parent is None || before.kind != "reply"@ ==> after.kind == before.kind
            &&& after.revision == revision + 1
            &&& after.id == before.id
            &&& after.original == before.original
            &&& after.text == before.text
            &&& after.refs == before.refs
            &&& after.stale == before.stale
            &&& after.confirmed == before.confirmed
            &&& after.withdrawn == before.withdrawn
            &&& after.message_id == before.message_id
            &&& after.delivery == before.delivery
        },
{
    lemma_names();
    let items = step.body.items;
    let id = op.id->0;
    let item = discussion_apply::changed_item(items[id], op)->Ok_0;
    let next = items.insert(id, ItemView { revision: revision + 1, ..item });
    let seeds = discussion_apply::seeds_of(Some(id), items[id].parent, op.parent);
    lemma_left_alone(next, seeds);
    if items.dom().contains(id) {
        assert(next.dom() =~= items.dom());
        assert(seeds.contains(id));
        assert(next.dom().contains(id));
        let after = discussion::invalidated(next, seeds);
        assert forall|other: Seq<char>|
            other != id && #[trigger] items.dom().contains(other) implies stands_by(
            items[other],
            after[other],
        ) by {
            assert(next.dom().contains(other));
            assert(next[other] == items[other]);
        }
    }
}

/// What a confirmation and a report of delivery do. Only a summary that is not stale is
/// confirmed, or no longer is, as the operation says; only a question is reported as delivered,
/// with the message that shows it. Nothing becomes stale.
pub proof fn law_confirmed_and_delivered(step: StepView, op: OperationView, revision: int)
    requires
        op.op == "confirm"@ || op.op == "delivery"@,
    ensures
        discussion_apply::with_operation(step, op, revision) is Ok <==> (is_under_way(step)
            && is_said(op.id) && is_said(op.reason) && (op.parent is Some ==> asks(
            step.body.items,
            op.parent->0,
        )) && step.body.items.dom().contains(op.id->0) && (op.op == "confirm"@
            ==> step.body.items[op.id->0].kind == "summary"@ && !step.body.items[op.id->0].stale
            && op.confirmed is Some) && (op.op == "delivery"@ ==> step.body.items[op.id->0].kind
            == "question"@ && op.message_id is Some)),
        discussion_apply::with_operation(step, op, revision) matches Ok(next) ==> {
            let before = step.body.items[op.id->0];
            let after = next.body.items[op.id->0];
            &&& same_frame(step, next)
            &&& next.body.items.dom() == step.body.items.dom()
            &&& forall|other: Seq<char>|
                other != op.id->0 && #[trigger] step.body.items.dom().contains(other)
                    ==> next.body.items[other] == step.body.items[other]
            &&& op.op == "confirm"@ ==> after == (ItemView {
                confirmed: op.confirmed->0,
                revision: revision + 1,
                ..before
            })
            &&& op.op == "delivery"@ ==> after == (ItemView {
                delivery: "reported_delivered"@,
                message_id: op.message_id,
                revision: revision + 1,
                ..before
            })
        },
{
    lemma_names();
    if step.body.items.dom().contains(op.id->0) {
        let items = step.body.items;
        let item = discussion_apply::changed_item(items[op.id->0], op)->Ok_0;
        assert(items.insert(op.id->0, ItemView { revision: revision + 1, ..item }).dom()
            =~= items.dom());
    }
}

/// What a new wording does: the item says it and still remembers what it said first, and is no
/// longer confirmed. A summary takes the references that are given and is current again.
pub proof fn law_revised_item(step: StepView, op: OperationView, revision: int)
    requires
        op.op == "revise"@,
    ensures
        discussion_apply::with_operation(step, op, revision) matches Ok(next) ==> {
            let before = step.body.items[op.id->0];
            let after = next.body.items[op.id->0];
            &&& is_under_way(step)
            &&& is_said(op.id)
            &&& is_said(op.reason)
            &&& is_said(op.text)
            &&& step.body.items.dom().contains(op.id->0)
            &&& same_frame(step, next)
            &&& others_stand_by(step.body.items, next.body.items, op.id->0)
            &&& after.text == op.text->0
            &&& after.original == before.original
            &&& !after.confirmed
            &&& after.revision == revision + 1
            &&& before.kind == "summary"@ ==> op.refs.len() > 0 && after.refs == op.refs
                && !after.stale
            &&& before.kind != "summary"@ ==> after.refs == before.refs && after.stale
                == before.stale
            &&& after.id == before.id
            &&& after.kind == before.kind
            &&& after.parent == before.parent
            &&& after.ordinal == before.ordinal
            &&& after.withdrawn == before.withdrawn
            &&& after.message_id == before.message_id
            &&& after.delivery == before.delivery
            &&& forall|k: int|
                0 <= k < op.refs.len() ==> step.body.items.dom().contains(#[trigger] op.refs[k])
                    && !step.body.items[op.refs[k]].withdrawn
        },
        is_under_way(step) && is_said(op.id) && is_said(op.reason) && is_said(op.text)
            && step.body.items.dom().contains(op.id->0) && op.refs.len() == 0
            && step.body.items[op.id->0].kind != "summary"@ ==> discussion_apply::with_operation(
            step,
            op,
            revision,
        ) is Ok,
        is_under_way(step) && is_said(op.id) && is_said(op.reason) && is_said(op.text)
            && step.body.items.dom().contains(op.id->0) && op.refs.len() > 0 && (forall|k: int|
            0 <= k < op.refs.len() ==> step.body.items.dom().contains(#[trigger] op.refs[k])
                && !step.body.items[op.refs[k]].withdrawn && !step.body.items[op.refs[k]].stale)
            ==> discussion_apply::with_operation(step, op, revision) is Ok,
{
    lemma_names();
    let items = step.body.items;
    let id = op.id->0;
    if items.dom().contains(id) {
        let item = items[id];
        let summary = item.kind == "summary"@;
        let next = items.insert(
            id,
            ItemView {
                text: op.text->0,
                confirmed: false,
                revision: revision + 1,
                refs: if summary {
                    op.refs
                } else {
                    item.refs
                },
                stale: if summary {
                    false
                } else {
                    item.stale
                },
                ..item
            },
        );
        let seeds = discussion_apply::seeds_of(Some(id), item.parent, None);
        lemma_left_alone(next, seeds);
        assert(next.dom() =~= items.dom());
        assert(seeds.contains(id));
        assert(next.dom().contains(id));
        let after = discussion::invalidated(next, seeds);
        assert forall|other: Seq<char>|
            other != id && #[trigger] items.dom().contains(other) implies stands_by(
            items[other],
            after[other],
        ) by {
            assert(next.dom().contains(other));
            assert(next[other] == items[other]);
        }
        if discussion_apply::with_operation(step, op, revision) is Ok {
            assert(!discussion_apply::has_bad_reference(next, op.refs));
            assert forall|k: int| 0 <= k < op.refs.len() implies items.dom().contains(
                #[trigger] op.refs[k],
            ) && !items[op.refs[k]].withdrawn by {
                assert(discussion::is_current(next, op.refs[k]));
            }
        }
        if forall|k: int|
            0 <= k < op.refs.len() ==> items.dom().contains(#[trigger] op.refs[k])
                && !items[op.refs[k]].withdrawn && !items[op.refs[k]].stale {
            assert(!discussion_apply::has_bad_reference(next, op.refs));
        }
    }
}

/// The kinds of items.
pub open spec fn adds(op: OperationView) -> bool {
    op.op == "question"@ || op.op == "answer"@ || op.op == "option"@ || op.op == "summary"@
        || op.op == "gap"@ || op.op == "reply"@
}

/// What a new item is: what the operation says, active, neither stale nor confirmed, and placed
/// behind the others. It is taken only where its identifier and its message are new, where an
/// answer or an option has a question, and where a summary refers to items that stand.
pub proof fn law_added_item(step: StepView, op: OperationView, revision: int)
    requires
        adds(op),
    ensures
        discussion_apply::with_operation(step, op, revision) matches Ok(next) ==> {
            let before = step.body.items;
            let after = next.body.items;
            let id = op.id->0;
            &&& is_under_way(step)
            &&& is_said(op.id)
            &&& is_said(op.text)
            &&& text::byte_count(id) <= 256
            &&& same_frame(step, next)
            &&& !before.dom().contains(id)
            &&& after.dom() == before.dom().insert(id)
            &&& forall|other: Seq<char>| #[trigger]
                before.dom().contains(other) ==> stands_by(before[other], after[other])
            &&& after[id].id == id
            &&& after[id].kind == op.op
            &&& after[id].original == op.text->0
            &&& after[id].text == op.text->0
            &&& after[id].parent == op.parent
            &&& after[id].refs == op.refs
            &&& after[id].ordinal == before.dom().len()
            &&& after[id].revision == revision + 1
            &&& !after[id].stale
            &&& !after[id].confirmed
            &&& !after[id].withdrawn
            &&& after[id].message_id == op.message_id
            &&& after[id].delivery == "prepared"@
            &&& op.op == "answer"@ || op.op == "option"@ ==> op.parent is Some
                && before.dom().contains(op.parent->0) && before[op.parent->0].kind == "question"@
            &&& op.op == "summary"@ ==> op.refs.len() > 0 && after.remove(id) == before
            &&& op.op == "summary"@ ==> forall|k: int|
                0 <= k < op.refs.len() ==> before.dom().contains(#[trigger] op.refs[k])
                    && !before[op.refs[k]].withdrawn && !before[op.refs[k]].stale
            &&& op.message_id is Some ==> forall|other: Seq<char>| #[trigger]
                before.dom().contains(other) ==> before[other].message_id != op.message_id
        },
        is_under_way(step) && is_said(op.id) && is_said(op.text) && text::byte_count(op.id->0)
            <= 256 && !step.body.items.dom().contains(op.id->0) && op.message_id is None
            && step.body.items.dom().len() <= i64::MAX && (op.op == "question"@ || op.op == "gap"@
            || op.op == "reply"@ || (op.op == "answer"@ || op.op == "option"@) && op.parent is Some
            && step.body.items.dom().contains(op.parent->0) && step.body.items[op.parent->0].kind
            == "question"@) ==> discussion_apply::with_operation(step, op, revision) is Ok,
{
    lemma_names();
    let items = step.body.items;
    let id = op.id->0;
    let seeds = discussion_apply::seeds_of(op.parent, None, None);
    lemma_left_alone(items, seeds);
    if let Ok(next) = discussion_apply::with_operation(step, op, revision) {
        let settled = if op.op == "summary"@ {
            items
        } else {
            discussion::invalidated(items, seeds)
        };
        assert(settled.dom() == items.dom());
        assert(next.body.items.dom() =~= items.dom().insert(id));
        assert(!settled.dom().contains(id));
        assert(next.body.items.remove(id) =~= settled);
        if op.op == "summary"@ {
            assert(!discussion_apply::has_bad_reference(items, op.refs));
            assert forall|k: int| 0 <= k < op.refs.len() implies items.dom().contains(
                #[trigger] op.refs[k],
            ) && !items[op.refs[k]].withdrawn && !items[op.refs[k]].stale by {
                assert(discussion::is_current(items, op.refs[k]));
            }
        }
    }
}

// ---------------------------------------------------------------------------
// What becomes stale
// ---------------------------------------------------------------------------

/// The items that an operation is about: one, its question before, and its question after.
pub open spec fn is_about(op: OperationView, before: Option<Seq<char>>, id: Seq<char>) -> bool {
    op.id == Some(id) || before == Some(id) || op.parent == Some(id)
}

proof fn lemma_seeds_touched(
    items: Items,
    keys: Seq<Seq<char>>,
    seeds: Set<Seq<char>>,
    count: nat,
    id: Seq<char>,
)
    requires
        count <= keys.len(),
    ensures
        seeds.contains(id) ==> discussion::touched(items, keys, seeds, count).contains(id),
        keys.take(count as int).contains(id) && items[id].parent is Some && seeds.contains(
            items[id].parent->0,
        ) ==> discussion::touched(items, keys, seeds, count).contains(id),
    decreases count,
{
    if count > 0 {
        lemma_seeds_touched(items, keys, seeds, (count - 1) as nat, id);
        table::lemma_take_more(keys, count - 1);
        if items[id].parent is Some {
            lemma_seeds_touched(items, keys, seeds, (count - 1) as nat, items[id].parent->0);
        }
    } else {
        assert(keys.take(0) =~= Seq::empty());
    }
}

/// A summary that refers to what an operation is about, or to an answer to the question that it
/// is about, is stale afterwards and no longer confirmed. So is one that refers to a summary
/// that became stale.
pub proof fn law_summaries_go_stale(
    items: Items,
    seeds: Set<Seq<char>>,
    id: Seq<char>,
    k: int,
)
    requires
        items.dom().finite(),
        items.dom().contains(id),
        items[id].kind == "summary"@,
        !seeds.contains(id),
        0 <= k < items[id].refs.len(),
    ensures
        ({
            let after = discussion::invalidated(items, seeds);
            let about = items[id].refs[k];
            seeds.contains(about) || (items.dom().contains(about) && items[about].parent is Some
                && seeds.contains(items[about].parent->0)) || (items.dom().contains(about)
                && !items[about].stale && after[about].stale) ==> after[id].stale
                && !after[id].confirmed
        }),
{
    let after = discussion::invalidated(items, seeds);
    let about = items[id].refs[k];
    let keys = table::ordered::<String>(items.dom());
    let start = discussion::first_touched(items, seeds);
    table::lemma_has_order::<String>(items.dom());
    lemma_seeds_touched(items, keys, seeds, keys.len(), about);
    assert(keys.take(keys.len() as int) =~= keys);
    if items.dom().contains(about) {
        assert(keys.to_set().contains(about));
    }
    let all = discussion::all_changed(items, seeds);
    if start.contains(about) {
        assert(discussion::spread(items, seeds, start, 0).contains(about));
        assert(all.contains(about));
    }
    if items.dom().contains(about) && !items[about].stale && after[about].stale {
        assert(discussion::relies_on(items, seeds, all, about));
        discussion::lemma_changed_closed(items, seeds, about);
    }
    if all.contains(about) {
        assert(discussion::relies_on(items, seeds, all, id));
    }
}

/// A set of items that holds what an operation is about, every item whose question it holds,
/// and every summary that refers to one of its members.
pub open spec fn is_closed(items: Items, seeds: Set<Seq<char>>, whole: Set<Seq<char>>) -> bool {
    &&& seeds.subset_of(whole)
    &&& forall|id: Seq<char>| #[trigger]
        items.dom().contains(id) && items[id].parent is Some && whole.contains(items[id].parent->0)
            ==> whole.contains(id)
    &&& forall|id: Seq<char>, k: int|
        items.dom().contains(id) && items[id].kind == "summary"@ && 0 <= k < items[id].refs.len()
            && whole.contains(#[trigger] items[id].refs[k]) ==> whole.contains(id)
}

/// Nothing goes stale without a reason: an item outside of such a set stays as it is.
pub proof fn law_nothing_else_goes_stale(
    items: Items,
    seeds: Set<Seq<char>>,
    whole: Set<Seq<char>>,
    id: Seq<char>,
)
    requires
        items.dom().finite(),
        is_closed(items, seeds, whole),
        items.dom().contains(id),
        !whole.contains(id),
    ensures
        discussion::invalidated(items, seeds)[id] == items[id],
{
    let keys = table::ordered::<String>(items.dom());
    table::lemma_has_order::<String>(items.dom());
    lemma_touched_within(items, keys, seeds, whole, keys.len());
    let start = discussion::first_touched(items, seeds);
    let all = discussion::all_changed(items, seeds);
    if discussion::relies_on(items, seeds, all, id) {
        let k = choose|k: int|
            0 <= k < items[id].refs.len() && all.contains(#[trigger] items[id].refs[k]);
        let rounds = choose|rounds: nat| #[trigger]
            discussion::spread(items, seeds, start, rounds).contains(items[id].refs[k]);
        lemma_spread_inside(items, seeds, start, whole, rounds);
    }
}

proof fn lemma_touched_within(
    items: Items,
    keys: Seq<Seq<char>>,
    seeds: Set<Seq<char>>,
    whole: Set<Seq<char>>,
    count: nat,
)
    requires
        is_closed(items, seeds, whole),
        keys.to_set() == items.dom(),
        count <= keys.len(),
    ensures
        discussion::touched(items, keys, seeds, count).subset_of(whole),
    decreases count,
{
    if count > 0 {
        lemma_touched_within(items, keys, seeds, whole, (count - 1) as nat);
        assert(keys.to_set().contains(keys[count - 1]));
        assert(items.dom().contains(keys[count - 1]));
    }
}

proof fn lemma_spread_inside(
    items: Items,
    seeds: Set<Seq<char>>,
    start: Set<Seq<char>>,
    whole: Set<Seq<char>>,
    rounds: nat,
)
    requires
        is_closed(items, seeds, whole),
        start.subset_of(whole),
    ensures
        discussion::spread(items, seeds, start, rounds).subset_of(whole),
    decreases rounds,
{
    if rounds > 0 {
        lemma_spread_inside(items, seeds, start, whole, (rounds - 1) as nat);
        let before = discussion::spread(items, seeds, start, (rounds - 1) as nat);
        assert forall|id: Seq<char>|
            discussion::spread(items, seeds, start, rounds).contains(id) implies whole.contains(
            id,
        ) by {
            if !before.contains(id) {
                assert(discussion::relies_on(items, seeds, before, id));
                let k = choose|k: int|
                    0 <= k < items[id].refs.len() && before.contains(#[trigger] items[id].refs[k]);
                assert(whole.contains(items[id].refs[k]));
            }
        }
    }
}

/// What an operation that moves, withdraws, restores or rewords an item is about: the item, the
/// question that it belonged to, and the question that is named. A summary that refers to one
/// of them is stale afterwards.
pub proof fn law_operation_is_noticed(
    step: StepView,
    op: OperationView,
    revision: int,
    id: Seq<char>,
    k: int,
)
    requires
        step.body.items.dom().finite(),
        op.op == "withdraw"@ || op.op == "restore"@ || op.op == "move"@ || op.op == "revise"@
            && op.parent is None,
        step.body.items.dom().contains(id),
        step.body.items[id].kind == "summary"@,
        !is_about(op, step.body.items[op.id->0].parent, id),
        0 <= k < step.body.items[id].refs.len(),
        is_about(op, step.body.items[op.id->0].parent, step.body.items[id].refs[k]),
    ensures
        discussion_apply::with_operation(step, op, revision) matches Ok(next)
            ==> next.body.items[id].stale && !next.body.items[id].confirmed,
{
    lemma_names();
    if let Ok(next) = discussion_apply::with_operation(step, op, revision) {
        let items = step.body.items;
        let one = op.id->0;
        let item = if op.op == "revise"@ {
            ItemView {
                text: op.text->0,
                confirmed: false,
                refs: if items[one].kind == "summary"@ {
                    op.refs
                } else {
                    items[one].refs
                },
                stale: if items[one].kind == "summary"@ {
                    false
                } else {
                    items[one].stale
                },
                ..items[one]
            }
        } else {
            discussion_apply::changed_item(items[one], op)->Ok_0
        };
        let changed = items.insert(one, ItemView { revision: revision + 1, ..item });
        let seeds = discussion_apply::seeds_of(Some(one), items[one].parent, op.parent);
        assert(next.body.items == discussion::invalidated(changed, seeds));
        assert(changed[id] == items[id]);
        assert(changed.dom() =~= items.dom());
        law_summaries_go_stale(changed, seeds, id, k);
    }
}

// ---------------------------------------------------------------------------
// The discussion as a whole
// ---------------------------------------------------------------------------

/// A summary that stands refers to an item, or to one whose question it is.
pub open spec fn sums_up(items: Items, summary: Seq<char>, id: Seq<char>) -> bool {
    &&& items.dom().contains(summary)
    &&& items[summary].kind == "summary"@
    &&& !items[summary].withdrawn
    &&& exists|k: int|
        0 <= k < items[summary].refs.len() && (#[trigger] items[summary].refs[k] == id || (
        items.dom().contains(items[summary].refs[k]) && items[items[summary].refs[k]].parent
            == Some(id)))
}

/// A discussion is finished: there is a summary and none of them is stale, every question is
/// answered, every reply belongs to a question, and the summaries cover every question and
/// every gap. What was withdrawn does not count.
pub open spec fn is_finished(items: Items) -> bool {
    &&& exists|id: Seq<char>| #[trigger]
        items.dom().contains(id) && items[id].kind == "summary"@ && !items[id].withdrawn
    &&& forall|id: Seq<char>| #[trigger]
        items.dom().contains(id) && !items[id].withdrawn ==> {
            &&& items[id].kind == "summary"@ ==> !items[id].stale
            &&& items[id].kind != "reply"@
            &&& items[id].kind == "question"@ ==> exists|answer: Seq<char>| #[trigger]
                items.dom().contains(answer) && items[answer].kind == "answer"@
                    && items[answer].parent == Some(id) && !items[answer].withdrawn
            &&& items[id].kind == "question"@ || items[id].kind == "gap"@ ==> exists|
                summary: Seq<char>,
            | #[trigger]
                sums_up(items, summary, id)
        }
}

proof fn lemma_covered(items: Items, id: Seq<char>)
    ensures
        discussion_apply::is_covered(items, id) <==> exists|summary: Seq<char>| #[trigger]
            sums_up(items, summary, id),
{
    assert forall|summary: Seq<char>| #[trigger]
        discussion_apply::is_covered_by(items, summary, id) implies sums_up(
        items,
        summary,
        id,
    ) by {
        let refs = items[summary].refs;
        let k = choose|k: int|
            0 <= k < refs.len() && (#[trigger] refs[k] == id || discussion_apply::parent_of(
                items,
                refs[k],
            ) == Some(id));
        assert(items[summary].refs[k] == refs[k]);
    }
    assert forall|summary: Seq<char>| #[trigger]
        sums_up(items, summary, id) implies discussion_apply::is_covered_by(
        items,
        summary,
        id,
    ) by {
        let refs = items[summary].refs;
        let k = choose|k: int|
            0 <= k < refs.len() && (#[trigger] refs[k] == id || (items.dom().contains(refs[k])
                && items[refs[k]].parent == Some(id)));
        assert(items[summary].refs[k] == refs[k]);
    }
}

/// A discussion is closed exactly where it is under way and finished; its items stay.
pub proof fn law_finished_discussions_close(step: StepView, op: OperationView, revision: int)
    requires
        op.op == "close"@,
    ensures
        discussion_apply::with_operation(step, op, revision) is Ok <==> (is_under_way(step)
            && is_finished(step.body.items)),
        discussion_apply::with_operation(step, op, revision) matches Ok(next) ==> {
            &&& next.body.state == "closed"@
            &&& next.body.items == step.body.items
            &&& next.body.title == step.body.title
            &&& next.body.description == step.body.description
            &&& next.started
        },
{
    lemma_names();
    let items = step.body.items;
    if discussion_apply::closing_obstacle(items) is None {
        let some = choose|id: Seq<char>| #[trigger]
            items.dom().contains(id) && items[id].kind == "summary"@ && discussion::is_active(
                items[id],
            );
        assert(items.dom().contains(some) && items[some].kind == "summary"@
            && !items[some].withdrawn);
        assert forall|id: Seq<char>| #[trigger]
            items.dom().contains(id) && !items[id].withdrawn implies {
            &&& items[id].kind == "summary"@ ==> !items[id].stale
            &&& items[id].kind != "reply"@
            &&& items[id].kind == "question"@ ==> exists|answer: Seq<char>| #[trigger]
                items.dom().contains(answer) && items[answer].kind == "answer"@
                    && items[answer].parent == Some(id) && !items[answer].withdrawn
            &&& items[id].kind == "question"@ || items[id].kind == "gap"@ ==> exists|
                summary: Seq<char>,
            | #[trigger]
                sums_up(items, summary, id)
        } by {
            lemma_covered(items, id);
            assert(discussion::is_active(items[id]));
            if items[id].kind == "question"@ {
                assert(discussion::is_open_question(items, id));
                assert(discussion::is_answered(items, id));
            }
        }
        assert(is_finished(items));
    }
    if is_finished(items) {
        let some = choose|id: Seq<char>| #[trigger]
            items.dom().contains(id) && items[id].kind == "summary"@ && !items[id].withdrawn;
        assert(discussion::is_active(items[some]));
        assert(discussion_apply::has_summary(items));
        assert(!discussion_apply::has_stale_summary(items));
        assert(!discussion_apply::has_unanswered(items)) by {
            if discussion_apply::has_unanswered(items) {
                let id = choose|id: Seq<char>| #[trigger]
                    items.dom().contains(id) && discussion::is_open_question(items, id)
                        && !discussion::is_answered(items, id);
                let answer = choose|answer: Seq<char>| #[trigger]
                    items.dom().contains(answer) && items[answer].kind == "answer"@
                        && items[answer].parent == Some(id) && !items[answer].withdrawn;
                assert(discussion::is_active(items[answer]));
            }
        }
        assert(!discussion_apply::has_loose_reply(items));
        assert(!discussion_apply::has_uncovered(items)) by {
            if discussion_apply::has_uncovered(items) {
                let id = choose|id: Seq<char>| #[trigger]
                    items.dom().contains(id) && discussion::is_active(items[id]) && (items[id].kind
                        == "question"@ || items[id].kind == "gap"@)
                        && !discussion_apply::is_covered(items, id);
                lemma_covered(items, id);
            }
        }
    }
}

/// The life of a discussion: it is started once, is paused and resumed with a reason, and takes
/// nothing but a resumption while it is not active. Its items stay through all of this.
pub proof fn law_life_of_a_discussion(step: StepView, op: OperationView, revision: int)
    ensures
        !step.started && op.op != "start"@ ==> discussion_apply::with_operation(
            step,
            op,
            revision,
        ) is Err,
        step.started && step.body.state != "active"@ && op.op != "resume"@
            ==> discussion_apply::with_operation(step, op, revision) is Err,
        op.op == "start"@ ==> (discussion_apply::with_operation(step, op, revision) is Ok <==> (
        !step.started && is_said(op.text))),
        op.op == "resume"@ ==> (discussion_apply::with_operation(step, op, revision) is Ok <==> (
        step.started && is_said(op.reason))),
        op.op == "pause"@ ==> (discussion_apply::with_operation(step, op, revision) is Ok <==> (
        is_under_way(step) && is_said(op.reason))),
        op.op == "metadata"@ ==> (discussion_apply::with_operation(step, op, revision) is Ok <==> (
        is_under_way(step) && is_said(op.reason) && (op.text is Some ==> is_said(op.text)))),
        discussion_apply::with_operation(step, op, revision) matches Ok(next) ==> {
            let was = step.body;
            let is = next.body;
            &&& next.started
            &&& is.id == was.id
            &&& is.revision == was.revision
            &&& op.op == "start"@ ==> is.title == op.text->0 && is.state == was.state && is.items
                == was.items && (op.description is Some ==> is.description == op.description->0)
                && (op.description is None ==> is.description.len() == 0)
            &&& op.op == "resume"@ ==> is == (BodyView { state: "active"@, ..was })
            &&& op.op == "pause"@ ==> is == (BodyView { state: "paused"@, ..was })
            &&& op.op == "metadata"@ ==> {
                &&& is.state == was.state
                &&& is.items == was.items
                &&& op.text is Some ==> is.title == op.text->0
                &&& op.text is None ==> is.title == was.title
                &&& op.description is Some ==> is.description == op.description->0
                &&& op.description is None ==> is.description == was.description
            }
        },
        discussion_apply::with_operation(step, op, revision) matches Err(e) ==> e.code
            == ErrorCode::InvalidDiscussion,
{
    lemma_names();
}

/// A batch is its operations one after the other, and fails as a whole where one of them does.
pub proof fn law_batch_is_its_operations(
    start: StepView,
    ops: Seq<OperationView>,
    more: Seq<OperationView>,
    revision: int,
)
    ensures
        discussion_apply::with_operations(start, ops + more, revision, (ops + more).len()) == (
        match discussion_apply::with_operations(start, ops, revision, ops.len()) {
            Err(e) => Err(e),
            Ok(step) => discussion_apply::with_operations(step, more, revision, more.len()),
        }),
        more.len() == 1 ==> discussion_apply::with_operations(start, more, revision, 1)
            == discussion_apply::with_operation(start, more[0], revision),
{
    lemma_batch_prefix(start, ops, more, revision, ops.len());
    lemma_batch_parts(start, ops, more, revision, more.len());
    reveal_with_fuel(discussion_apply::with_operations, 2);
}

proof fn lemma_batch_prefix(
    start: StepView,
    ops: Seq<OperationView>,
    more: Seq<OperationView>,
    revision: int,
    count: nat,
)
    requires
        count <= ops.len(),
    ensures
        discussion_apply::with_operations(start, ops + more, revision, count)
            == discussion_apply::with_operations(start, ops, revision, count),
    decreases count,
{
    if count > 0 {
        lemma_batch_prefix(start, ops, more, revision, (count - 1) as nat);
        assert((ops + more)[count - 1] == ops[count - 1]);
    }
}

proof fn lemma_batch_parts(
    start: StepView,
    ops: Seq<OperationView>,
    more: Seq<OperationView>,
    revision: int,
    count: nat,
)
    requires
        count <= more.len(),
    ensures
        discussion_apply::with_operations(start, ops + more, revision, ops.len() + count) == (
        match discussion_apply::with_operations(start, ops, revision, ops.len()) {
            Err(e) => Err(e),
            Ok(step) => discussion_apply::with_operations(step, more, revision, count),
        }),
    decreases count,
{
    if count > 0 {
        lemma_batch_parts(start, ops, more, revision, (count - 1) as nat);
        assert((ops + more)[ops.len() + count - 1] == more[count - 1]);
        assert((ops.len() + count - 1) as nat == ops.len() + (count - 1) as nat);
    } else {
        lemma_batch_prefix(start, ops, more, revision, ops.len());
    }
}

/// A summary leads to what it refers to, and through a summary that it leads to, to what that
/// one refers to; to nothing else.
pub proof fn law_summaries_lead_on(
    items: Items,
    id: Seq<char>,
    via: Seq<char>,
    target: Seq<char>,
    closed_set: Set<Seq<char>>,
)
    ensures
        items[id].refs.contains(target) ==> discussion::leads_to(items, id, target),
        discussion::leads_to(items, id, via) && items.dom().contains(via) && items[via].kind
            == "summary"@ && items[via].refs.contains(target) ==> discussion::leads_to(
            items,
            id,
            target,
        ),
        (forall|one: Seq<char>| #[trigger]
            items[id].refs.contains(one) ==> closed_set.contains(one)) && (forall|
            from: Seq<char>,
            one: Seq<char>,
        |
            closed_set.contains(from) && items.dom().contains(from) && items[from].kind
                == "summary"@ && #[trigger] items[from].refs.contains(one) ==> closed_set.contains(
                one,
            )) && discussion::leads_to(items, id, target) ==> closed_set.contains(target),
{
    if items[id].refs.contains(target) {
        assert(discussion::reached(items, id, 0).contains(target));
    }
    if discussion::leads_to(items, id, via) && items.dom().contains(via) && items[via].kind
        == "summary"@ && items[via].refs.contains(target) {
        let steps = choose|steps: nat| #[trigger]
            discussion::reached(items, id, steps).contains(via);
        assert(discussion::links(items, via).contains(target));
        assert(discussion::reached(items, id, (steps + 1) as nat).contains(target));
    }
    if discussion::leads_to(items, id, target) {
        let steps = choose|steps: nat| #[trigger]
            discussion::reached(items, id, steps).contains(target);
        lemma_reached_stays(items, id, steps, closed_set);
    }
}

proof fn lemma_reached_stays(
    items: Items,
    id: Seq<char>,
    steps: nat,
    closed_set: Set<Seq<char>>,
)
    ensures
        (forall|one: Seq<char>| #[trigger]
            items[id].refs.contains(one) ==> closed_set.contains(one)) && (forall|
            from: Seq<char>,
            one: Seq<char>,
        |
            closed_set.contains(from) && items.dom().contains(from) && items[from].kind
                == "summary"@ && #[trigger] items[from].refs.contains(one) ==> closed_set.contains(
                one,
            )) ==> discussion::reached(items, id, steps).subset_of(closed_set),
    decreases steps,
{
    if steps > 0 {
        lemma_reached_stays(items, id, (steps - 1) as nat, closed_set);
        let before = discussion::reached(items, id, (steps - 1) as nat);
        if before.subset_of(closed_set) && (forall|from: Seq<char>, one: Seq<char>|
            closed_set.contains(from) && items.dom().contains(from) && items[from].kind
                == "summary"@ && #[trigger] items[from].refs.contains(one) ==> closed_set.contains(
                one,
            )) {
            assert forall|t: Seq<char>|
                discussion::reached(items, id, steps).contains(t) implies closed_set.contains(
                t,
            ) by {
                if !before.contains(t) {
                    let via = choose|via: Seq<char>| #[trigger]
                        before.contains(via) && discussion::links(items, via).contains(t);
                    assert(items[via].refs.contains(t));
                }
            }
        }
    }
}

} // verus!
