//! Merging two edited copies of a JSON value, each against the value it was
//! edited from.
use crate::digest;
use crate::digest::hash_content;
use crate::json;
use crate::json::{canonical_sync_value, EntryView, Json, JsonView};
use crate::text;
use crate::text::{byte_len, comes_before, ends_with, join3, join4, owned};
use vstd::prelude::*;

verus! {

/// The size above which a conflict shows the digest of a value in its place.
pub const MAX_CANDIDATE_BYTES: usize = 16384;

// ---------------------------------------------------------------------------
// What a merge comes to
// ---------------------------------------------------------------------------

/// A merged value and the conflicts that merging it met.
#[verifier::ext_equal]
pub struct Merged {
    pub value: JsonView,
    pub conflicts: Seq<JsonView>,
}

/// The members of a merged object, or the items of a merged list, with the
/// conflicts that merging them met.
#[verifier::ext_equal]
pub struct MergedEntries {
    pub entries: Seq<EntryView>,
    pub conflicts: Seq<JsonView>,
}

/// The items of a merged list, with the conflicts that merging them met.
#[verifier::ext_equal]
pub struct MergedItems {
    pub items: Seq<JsonView>,
    pub conflicts: Seq<JsonView>,
}

/// What becomes of one member or item.
#[verifier::ext_equal]
pub struct MergedPart {
    pub value: Option<JsonView>,
    pub conflicts: Seq<JsonView>,
}

/// A value merged without a conflict.
pub open spec fn settled(value: JsonView) -> Merged {
    Merged { value, conflicts: Seq::empty() }
}

pub open spec fn settled_part(value: Option<JsonView>) -> MergedPart {
    MergedPart { value, conflicts: Seq::empty() }
}

/// The value itself, or its digest where it is too large to show.
pub open spec fn bounded(value: JsonView) -> JsonView {
    let encoded = json::canonical_text(value);
    if text::byte_count(encoded) <= MAX_CANDIDATE_BYTES {
        value
    } else {
        JsonView::Object(
            seq![
                json::entry("bytes"@, json::count_view(text::byte_count(encoded))),
                json::entry("sha256"@, JsonView::Text(digest::text_digest(encoded))),
                json::entry("truncated"@, JsonView::Bool(true)),
            ],
        )
    }
}

/// The one of two values whose text comes first.
pub open spec fn preferred(left: JsonView, right: JsonView) -> JsonView {
    if text::at_most(json::canonical_text(left), json::canonical_text(right)) {
        left
    } else {
        right
    }
}

/// What both sides were edited from, where that is the same.
pub open spec fn common(left: Option<JsonView>, right: Option<JsonView>) -> Option<JsonView> {
    if json::opt_alike(left, right) {
        left
    } else {
        None
    }
}

/// The candidates of a conflict, in the order of their texts, each once.
pub open spec fn candidates(left: JsonView, right: JsonView) -> Seq<JsonView> {
    let a = bounded(left);
    let b = bounded(right);
    if json::alike(a, b) {
        seq![preferred(a, b)]
    } else if text::at_most(json::canonical_text(a), json::canonical_text(b)) {
        seq![a, b]
    } else {
        seq![b, a]
    }
}

/// The record of a conflict at `path`.
pub open spec fn field_conflict(
    path: Seq<char>,
    base: Option<JsonView>,
    left: JsonView,
    right: JsonView,
) -> JsonView {
    JsonView::Object(
        seq![
            json::entry(
                "base"@,
                match base {
                    Some(value) => bounded(value),
                    None => JsonView::Null,
                },
            ),
            json::entry("candidates"@, JsonView::Array(candidates(left, right))),
            json::entry("path"@, JsonView::Text(path)),
        ],
    )
}

/// The place of the first entry with this key, or -1.
pub open spec fn key_place(entries: Seq<EntryView>, key: Seq<char>) -> int
    decreases entries.len(),
{
    if entries.len() == 0 {
        -1
    } else if entries[0].key == key {
        0
    } else {
        let rest = key_place(entries.drop_first(), key);
        if rest < 0 {
            -1
        } else {
            rest + 1
        }
    }
}

/// The value under `key` in an optional value.
pub open spec fn part_of(base: Option<JsonView>, key: Seq<char>) -> Option<JsonView> {
    match base {
        Some(value) => value.get(key),
        None => None,
    }
}

/// The keys of either of two objects, in ascending order.
pub open spec fn either_keys(left: JsonView, right: JsonView) -> Seq<Seq<char>> {
    text::sorted(
        json::entry_keys(left->Object_0).to_set() + json::entry_keys(right->Object_0).to_set(),
    )
}

/// The path of a member of the object at `path`.
pub open spec fn member_path(path: Seq<char>, key: Seq<char>) -> Seq<char> {
    if path.len() == 0 {
        key
    } else {
        path + "."@ + key
    }
}

/// The path of an item of the list at `path`.
pub open spec fn item_path(path: Seq<char>, identity: Seq<char>) -> Seq<char> {
    path + "["@ + identity + "]"@
}

/// What a list item is recognised by: its `id`, `revision` or `slug`, else all of it.
pub open spec fn identity(value: JsonView) -> Seq<char> {
    if value.get("id"@) is Some {
        json::canonical_text(value.at("id"@))
    } else if value.get("revision"@) is Some {
        json::canonical_text(value.at("revision"@))
    } else if value.get("slug"@) is Some {
        json::canonical_text(value.at("slug"@))
    } else {
        json::canonical_text(value)
    }
}

/// The place of the last item with this identity, or -1.
pub open spec fn item_place(items: Seq<JsonView>, wanted: Seq<char>) -> int
    decreases items.len(),
{
    if items.len() == 0 {
        -1
    } else if identity(items.last()) == wanted {
        items.len() - 1
    } else {
        item_place(items.drop_last(), wanted)
    }
}

/// The last item with this identity.
pub open spec fn item_with(items: Seq<JsonView>, wanted: Seq<char>) -> Option<JsonView> {
    if item_place(items, wanted) >= 0 {
        Some(items[item_place(items, wanted)])
    } else {
        None
    }
}

/// The items of an optional value that is a list.
pub open spec fn items_of(base: Option<JsonView>) -> Seq<JsonView> {
    match base {
        Some(JsonView::Array(items)) => items,
        _ => Seq::empty(),
    }
}

/// The texts among the items of a list.
pub open spec fn texts_of(items: Seq<JsonView>) -> Set<Seq<char>> {
    Set::new(|t: Seq<char>| items.contains(JsonView::Text(t)))
}

/// Every item is a text.
pub open spec fn all_texts(items: Seq<JsonView>) -> bool {
    forall|i: int| 0 <= i < items.len() ==> (#[trigger] items[i]) is Text
}

/// Whether a text that the sides hold or lack stays a member of the list.
pub open spec fn stays(was_left: bool, left: bool, was_right: bool, right: bool) -> bool {
    if left == right || left != was_left && right == was_right {
        left
    } else if left == was_left && right != was_right {
        right
    } else if left == was_left {
        left
    } else {
        left || right
    }
}

/// Whether the sides disagree about a text that both of them moved.
pub open spec fn disputed(was_left: bool, left: bool, was_right: bool, right: bool) -> bool {
    left != right && left != was_left && right != was_right
}

/// The list of these texts, in ascending order.
pub open spec fn text_list(members: Set<Seq<char>>) -> JsonView {
    JsonView::Array(text::sorted(members).map_values(|t: Seq<char>| JsonView::Text(t)))
}

/// The merge of two lists of texts: membership is decided text by text.
pub open spec fn merged_text_lists(
    base_left: Option<JsonView>,
    left: Seq<JsonView>,
    base_right: Option<JsonView>,
    right: Seq<JsonView>,
    path: Seq<char>,
) -> Merged {
    let was_left = texts_of(items_of(base_left));
    let was_right = texts_of(items_of(base_right));
    let l = texts_of(left);
    let r = texts_of(right);
    let kept = Set::new(
        |t: Seq<char>|
            stays(was_left.contains(t), l.contains(t), was_right.contains(t), r.contains(t)),
    );
    Merged {
        value: text_list(kept),
        conflicts: if exists|t: Seq<char>| #[trigger]
            l.contains(t) != r.contains(t) && disputed(
                was_left.contains(t),
                l.contains(t),
                was_right.contains(t),
                r.contains(t),
            ) {
            seq![
                field_conflict(path, common(base_left, base_right), text_list(l), text_list(r)),
            ]
        } else {
            Seq::empty()
        },
    }
}

/// The merge of two edited values, each with the value it was edited from.
pub open spec fn merged_value(
    base_left: Option<JsonView>,
    left: JsonView,
    base_right: Option<JsonView>,
    right: JsonView,
    path: Seq<char>,
) -> Merged
    decreases left, 3int, 0int,
{
    let left_changed = !json::opt_alike(base_left, Some(left));
    let right_changed = !json::opt_alike(base_right, Some(right));
    let same_base = json::opt_alike(base_left, base_right);
    if json::alike(left, right) || !left_changed && !right_changed {
        settled(left)
    } else if same_base && !left_changed {
        settled(right)
    } else if same_base && !right_changed {
        settled(left)
    } else if left is Object && right is Object {
        let keys = either_keys(left, right);
        let members = merged_members(
            base_left,
            left,
            base_right,
            right,
            path,
            keys,
            keys.len(),
        );
        Merged { value: JsonView::Object(members.entries), conflicts: members.conflicts }
    } else if left is Array && right is Array {
        let lists = merged_lists(base_left, left, base_right, right, path);
        Merged {
            value: lists.value,
            conflicts: if lists.conflicts.len() == 0 {
                Seq::empty()
            } else {
                seq![field_conflict(path, common(base_left, base_right), left, right)]
            },
        }
    } else if "updated_at"@.is_suffix_of(path) || "recorded_at"@.is_suffix_of(path) {
        settled(
            if text::at_most(json::canonical_text(right), json::canonical_text(left)) {
                left
            } else {
                right
            },
        )
    } else if "created_at"@.is_suffix_of(path) {
        settled(preferred(left, right))
    } else if "revision"@.is_suffix_of(path) && left.is_number() && right.is_number() {
        settled(
            if whole_number(left) >= whole_number(right) {
                left
            } else {
                right
            },
        )
    } else if !left_changed {
        settled(right)
    } else if !right_changed {
        settled(left)
    } else {
        Merged {
            value: preferred(left, right),
            conflicts: seq![field_conflict(path, common(base_left, base_right), left, right)],
        }
    }
}

/// The integer of a number, or zero.
pub open spec fn whole_number(value: JsonView) -> int {
    match value {
        JsonView::Int(n) => n,
        _ => 0,
    }
}

/// The merge of the members under the first `count` of `keys`.
pub open spec fn merged_members(
    base_left: Option<JsonView>,
    left: JsonView,
    base_right: Option<JsonView>,
    right: JsonView,
    path: Seq<char>,
    keys: Seq<Seq<char>>,
    count: nat,
) -> MergedEntries
    decreases left, 1int, count,
{
    if count == 0 || count > keys.len() {
        MergedEntries { entries: Seq::empty(), conflicts: Seq::empty() }
    } else {
        let rest = merged_members(
            base_left,
            left,
            base_right,
            right,
            path,
            keys,
            (count - 1) as nat,
        );
        let key = keys[count - 1];
        let part = merged_member(base_left, left, base_right, right, path, key);
        MergedEntries {
            entries: match part.value {
                Some(value) => rest.entries.push(json::entry(key, value)),
                None => rest.entries,
            },
            conflicts: rest.conflicts + part.conflicts,
        }
    }
}

/// What becomes of the member under `key` of two objects.
pub open spec fn merged_member(
    base_left: Option<JsonView>,
    left: JsonView,
    base_right: Option<JsonView>,
    right: JsonView,
    path: Seq<char>,
    key: Seq<char>,
) -> MergedPart
    decreases left, 0int, 0int,
{
    let entries = left->Object_0;
    let place = key_place(entries, key);
    let l = left.get(key);
    let r = right.get(key);
    let was_left = part_of(base_left, key);
    let was_right = part_of(base_right, key);
    if left is Object && 0 <= place < entries.len() && r is Some {
        let merged = merged_value(
            was_left,
            entries[place].value,
            was_right,
            r->0,
            member_path(path, key),
        );
        MergedPart { value: Some(merged.value), conflicts: merged.conflicts }
    } else {
        let value = if l is Some {
            l
        } else {
            r
        };
        let left_changed = !json::opt_alike(l, was_left);
        let right_changed = !json::opt_alike(r, was_right);
        if left_changed && !right_changed {
            settled_part(l)
        } else if !left_changed && right_changed {
            settled_part(r)
        } else if !left_changed || value is None {
            settled_part(value)
        } else {
            MergedPart {
                value,
                conflicts: seq![
                    field_conflict(
                        member_path(path, key),
                        common(was_left, was_right),
                        value->0,
                        JsonView::Null,
                    ),
                ],
            }
        }
    }
}

/// The merge of two lists.
pub open spec fn merged_lists(
    base_left: Option<JsonView>,
    left: JsonView,
    base_right: Option<JsonView>,
    right: JsonView,
    path: Seq<char>,
) -> Merged
    decreases left, 2int, 0int,
{
    if all_texts(left->Array_0) && all_texts(right->Array_0) {
        merged_text_lists(base_left, left->Array_0, base_right, right->Array_0, path)
    } else {
        let keys = text::sorted(
            identities(left->Array_0).to_set() + identities(right->Array_0).to_set(),
        );
        let merged = merged_items(base_left, left, base_right, right, path, keys, keys.len());
        Merged { value: JsonView::Array(merged.items), conflicts: merged.conflicts }
    }
}

/// The identities of the items of a list.
pub open spec fn identities(items: Seq<JsonView>) -> Seq<Seq<char>> {
    items.map_values(|item: JsonView| identity(item))
}

/// The merge of the items with the first `count` identities of `keys`.
pub open spec fn merged_items(
    base_left: Option<JsonView>,
    left: JsonView,
    base_right: Option<JsonView>,
    right: JsonView,
    path: Seq<char>,
    keys: Seq<Seq<char>>,
    count: nat,
) -> MergedItems
    decreases left, 1int, count,
{
    if count == 0 || count > keys.len() {
        MergedItems { items: Seq::empty(), conflicts: Seq::empty() }
    } else {
        let rest = merged_items(
            base_left,
            left,
            base_right,
            right,
            path,
            keys,
            (count - 1) as nat,
        );
        let part = merged_item(base_left, left, base_right, right, path, keys[count - 1]);
        MergedItems {
            items: match part.value {
                Some(value) => rest.items.push(value),
                None => rest.items,
            },
            conflicts: rest.conflicts + part.conflicts,
        }
    }
}

/// What becomes of the items with this identity of two lists.
pub open spec fn merged_item(
    base_left: Option<JsonView>,
    left: JsonView,
    base_right: Option<JsonView>,
    right: JsonView,
    path: Seq<char>,
    key: Seq<char>,
) -> MergedPart
    decreases left, 0int, 0int,
{
    let items = left->Array_0;
    let place = item_place(items, key);
    let l = item_with(items, key);
    let r = item_with(right->Array_0, key);
    let was_left = item_with(items_of(base_left), key);
    let was_right = item_with(items_of(base_right), key);
    let either = if l is Some {
        l
    } else {
        r
    };
    let left_changed = !json::opt_alike(l, was_left);
    let right_changed = !json::opt_alike(r, was_right);
    if json::opt_alike(l, r) {
        settled_part(l)
    } else if left_changed && !right_changed {
        settled_part(l)
    } else if !left_changed && right_changed {
        settled_part(r)
    } else if !left_changed {
        settled_part(either)
    } else if left is Array && 0 <= place < items.len() && r is Some {
        let merged = merged_value(was_left, items[place], was_right, r->0, item_path(path, key));
        MergedPart { value: Some(merged.value), conflicts: merged.conflicts }
    } else {
        MergedPart {
            value: either,
            conflicts: seq![
                field_conflict(
                    item_path(path, key),
                    common(was_left, was_right),
                    match l {
                        Some(value) => value,
                        None => JsonView::Null,
                    },
                    match r {
                        Some(value) => value,
                        None => JsonView::Null,
                    },
                ),
            ],
        }
    }
}

// ---------------------------------------------------------------------------
// Which side is which
// ---------------------------------------------------------------------------

/// Two values and what both were edited from hold no fractions.
pub open spec fn all_integral(base: Option<JsonView>, left: JsonView, right: JsonView) -> bool {
    json::opt_integral(base) && json::integral(left) && json::integral(right)
}

/// Two values that were edited from the same one merge to the same, with the same conflicts,
/// whichever of them is called the left one.
pub open spec fn sides_do_not_matter(
    base: Option<JsonView>,
    left: JsonView,
    right: JsonView,
    path: Seq<char>,
) -> bool {
    all_integral(base, left, right) ==> merged_value(base, left, base, right, path)
        == merged_value(base, right, base, left, path)
}

/// The same of the members under the first `count` of some keys.
pub open spec fn members_turn(
    base: Option<JsonView>,
    left: JsonView,
    right: JsonView,
    path: Seq<char>,
    keys: Seq<Seq<char>>,
    count: nat,
) -> bool {
    all_integral(base, left, right) ==> merged_members(base, left, base, right, path, keys, count)
        == merged_members(base, right, base, left, path, keys, count)
}

/// The same of one member.
pub open spec fn member_turns(
    base: Option<JsonView>,
    left: JsonView,
    right: JsonView,
    path: Seq<char>,
    key: Seq<char>,
) -> bool {
    all_integral(base, left, right) ==> merged_member(base, left, base, right, path, key)
        == merged_member(base, right, base, left, path, key)
}

/// The same of two lists.
pub open spec fn lists_turn(
    base: Option<JsonView>,
    left: JsonView,
    right: JsonView,
    path: Seq<char>,
) -> bool {
    all_integral(base, left, right) ==> merged_lists(base, left, base, right, path)
        == merged_lists(base, right, base, left, path)
}

/// The same of the items with the first `count` of some identities.
pub open spec fn items_turn(
    base: Option<JsonView>,
    left: JsonView,
    right: JsonView,
    path: Seq<char>,
    keys: Seq<Seq<char>>,
    count: nat,
) -> bool {
    all_integral(base, left, right) ==> merged_items(base, left, base, right, path, keys, count)
        == merged_items(base, right, base, left, path, keys, count)
}

/// The same of the record of a conflict.
pub open spec fn conflict_turns(
    path: Seq<char>,
    base: Option<JsonView>,
    left: JsonView,
    right: JsonView,
) -> bool {
    json::integral(left) && json::integral(right) ==> field_conflict(path, base, left, right)
        == field_conflict(path, base, right, left)
}

proof fn lemma_preferred_turned(a: JsonView, b: JsonView)
    requires
        json::canonical_text(a) == json::canonical_text(b) ==> a == b,
    ensures
        preferred(a, b) == preferred(b, a),
        a != b ==> text::at_most(json::canonical_text(a), json::canonical_text(b))
            != text::at_most(json::canonical_text(b), json::canonical_text(a)),
{
    let x = json::canonical_text(a);
    let y = json::canonical_text(b);
    text::lemma_before_total(x, y);
    if text::before(x, y) {
        text::lemma_before_asymmetric(x, y);
    }
    if text::before(y, x) {
        text::lemma_before_asymmetric(y, x);
    }
}

proof fn lemma_conflict_turned(path: Seq<char>, base: Option<JsonView>, a: JsonView, b: JsonView)
    requires
        json::canonical_text(bounded(a)) == json::canonical_text(bounded(b)) ==> bounded(a)
            == bounded(b),
    ensures
        field_conflict(path, base, a, b) == field_conflict(path, base, b, a),
{
    let x = bounded(a);
    let y = bounded(b);
    json::lemma_alike_turned(x, y);
    json::lemma_alike_itself(x);
    lemma_preferred_turned(x, y);
    assert(candidates(a, b) == candidates(b, a));
}

proof fn lemma_part_integral(value: JsonView, key: Seq<char>)
    requires
        json::integral(value),
    ensures
        json::opt_integral(value.get(key)),
{
    if value is Object {
        lemma_key_place(value->Object_0, key);
    }
}

proof fn lemma_item_integral(items: Seq<JsonView>, key: Seq<char>)
    requires
        forall|i: int| 0 <= i < items.len() ==> json::integral(#[trigger] items[i]),
    ensures
        json::opt_integral(item_with(items, key)),
{
    lemma_item_place(items, key);
}

proof fn lemma_member_turned(
    base: Option<JsonView>,
    left: JsonView,
    right: JsonView,
    path: Seq<char>,
    key: Seq<char>,
)
    requires
        left is Object,
        right is Object,
        left.get(key) is Some && right.get(key) is Some ==> sides_do_not_matter(
            part_of(base, key),
            left.get(key)->0,
            right.get(key)->0,
            member_path(path, key),
        ),
    ensures
        member_turns(base, left, right, path, key),
{
    if all_integral(base, left, right) {
        lemma_part_integral(left, key);
        lemma_part_integral(right, key);
        lemma_key_place(left->Object_0, key);
        lemma_key_place(right->Object_0, key);
        if base is Some {
            lemma_part_integral(base->0, key);
        }
        json::lemma_opt_alike(left.get(key), part_of(base, key));
        json::lemma_opt_alike(right.get(key), part_of(base, key));
    }
}

proof fn lemma_text_lists_turned(
    base: Option<JsonView>,
    left: Seq<JsonView>,
    right: Seq<JsonView>,
    path: Seq<char>,
)
    requires
        merged_text_lists(base, left, base, right, path).conflicts.len() == 0 || conflict_turns(
            path,
            common(base, base),
            text_list(texts_of(left)),
            text_list(texts_of(right)),
        ),
    ensures
        merged_text_lists(base, left, base, right, path) == merged_text_lists(
            base,
            right,
            base,
            left,
            path,
        ),
{
    let was = texts_of(items_of(base));
    let l = texts_of(left);
    let r = texts_of(right);
    let kept = Set::new(
        |t: Seq<char>| stays(was.contains(t), l.contains(t), was.contains(t), r.contains(t)),
    );
    let turned = Set::new(
        |t: Seq<char>| stays(was.contains(t), r.contains(t), was.contains(t), l.contains(t)),
    );
    assert(kept =~= turned);
    assert forall|t: Seq<char>| !disputed(
        was.contains(t),
        l.contains(t),
        was.contains(t),
        r.contains(t),
    ) by {}
}

proof fn lemma_lists_turned(
    base: Option<JsonView>,
    left: JsonView,
    right: JsonView,
    path: Seq<char>,
    keys: Seq<Seq<char>>,
)
    requires
        left is Array,
        right is Array,
        !(all_texts(left->Array_0) && all_texts(right->Array_0)),
        keys == text::sorted(
            identities(left->Array_0).to_set() + identities(right->Array_0).to_set(),
        ),
        items_turn(base, left, right, path, keys, keys.len()),
    ensures
        lists_turn(base, left, right, path),
{
    assert(identities(left->Array_0).to_set() + identities(right->Array_0).to_set()
        =~= identities(right->Array_0).to_set() + identities(left->Array_0).to_set());
}

proof fn lemma_item_turned(
    base: Option<JsonView>,
    left: JsonView,
    right: JsonView,
    path: Seq<char>,
    key: Seq<char>,
)
    requires
        left is Array,
        right is Array,
        ({
            let l = item_with(left->Array_0, key);
            let r = item_with(right->Array_0, key);
            let was = item_with(items_of(base), key);
            ||| json::opt_alike(l, r)
            ||| json::opt_alike(l, was)
            ||| json::opt_alike(r, was)
            ||| {
                &&& l is Some
                &&& r is Some
                &&& sides_do_not_matter(was, l->0, r->0, item_path(path, key))
            }
            ||| {
                &&& l is None || r is None
                &&& conflict_turns(
                    item_path(path, key),
                    common(was, was),
                    match l {
                        Some(value) => value,
                        None => JsonView::Null,
                    },
                    match r {
                        Some(value) => value,
                        None => JsonView::Null,
                    },
                )
            }
        }),
    ensures
        all_integral(base, left, right) ==> merged_item(base, left, base, right, path, key)
            == merged_item(base, right, base, left, path, key),
{
    if all_integral(base, left, right) {
        let x = left->Array_0;
        let y = right->Array_0;
        let l = item_with(x, key);
        let r = item_with(y, key);
        let was = item_with(items_of(base), key);
        lemma_item_integral(x, key);
        lemma_item_integral(y, key);
        lemma_item_integral(items_of(base), key);
        json::lemma_opt_alike(l, r);
        json::lemma_opt_alike(r, l);
        json::lemma_opt_alike(l, was);
        json::lemma_opt_alike(r, was);
        lemma_item_place(x, key);
        lemma_item_place(y, key);
    }
}

// ---------------------------------------------------------------------------
// Merging
// ---------------------------------------------------------------------------

fn same_opt(a: Option<&Json>, b: Option<&Json>) -> (r: bool)
    ensures
        r == json::opt_alike(text::opt_view(a), text::opt_view(b)),
{
    match (a, b) {
        (Some(x), Some(y)) => x.equals(y),
        (None, None) => true,
        _ => false,
    }
}

fn copy_opt(a: Option<&Json>) -> (r: Option<Json>)
    ensures
        text::opt_view(r) == text::opt_view(a),
{
    match a {
        Some(value) => Some(value.duplicate()),
        None => None,
    }
}

fn common_of<'a>(a: Option<&'a Json>, b: Option<&'a Json>) -> (r: Option<&'a Json>)
    ensures
        text::opt_view(r) == common(text::opt_view(a), text::opt_view(b)),
{
    if same_opt(a, b) {
        a
    } else {
        None
    }
}

fn part<'a>(base: Option<&'a Json>, key: &str) -> (r: Option<&'a Json>)
    ensures
        text::opt_view(r) == part_of(text::opt_view(base), key@),
{
    match base {
        Some(value) => value.get(key),
        None => None,
    }
}

proof fn lemma_shortened(bytes: nat, shown: JsonView)
    requires
        bytes <= u64::MAX,
        shown is Object,
        shown->Object_0.len() == 3,
        shown->Object_0[0] == json::entry("bytes"@, json::count_view(bytes)),
        shown->Object_0[1].key == "sha256"@,
        shown->Object_0[1].value is Text,
        shown->Object_0[2] == json::entry("truncated"@, JsonView::Bool(true)),
    ensures
        json::whole(shown),
{
    reveal_strlit("bytes");
    reveal_strlit("sha256");
    reveal_strlit("truncated");
    let entries = shown->Object_0;
    let keys = json::entry_keys(entries);
    assert(text::ascending(keys)) by {
        text::lemma_first_decides("bytes"@, "sha256"@);
        text::lemma_first_decides("bytes"@, "truncated"@);
        text::lemma_first_decides("sha256"@, "truncated"@);
    }
    if bytes > i64::MAX {
        let n = bytes as u64;
        assert(json::is_wide_count(text::natural(n as nat)));
    }
    assert(json::whole(entries[0].value));
    assert(json::whole(entries[1].value));
    assert(json::whole(entries[2].value));
}

/// The value itself, or its digest where it is too large to show in a conflict.
pub fn bounded_sync_value(value: &Json) -> (r: Json)
    ensures
        r@ == bounded(value@),
        json::integral(value@) ==> json::whole(r@),
{
    let encoded = canonical_sync_value(value);
    proof {
        if json::integral(value@) {
            json::lemma_whole(value@);
        }
    }
    if byte_len(encoded.as_str()) <= MAX_CANDIDATE_BYTES {
        return value.duplicate();
    }
    let mut entries: Vec<(String, Json)> = Vec::new();
    entries.push((owned("bytes"), Json::count(byte_len(encoded.as_str()))));
    entries.push((owned("sha256"), Json::Text(hash_content(encoded.as_str()))));
    entries.push((owned("truncated"), Json::Bool(true)));
    proof {
        json::lemma_object_view(entries);
        assert(json::entry_views(entries@) =~= bounded(value@)->Object_0);
        lemma_shortened(text::byte_count(encoded@), bounded(value@));
    }
    Json::Object(entries)
}

/// The one of two values whose text comes first.
pub fn deterministic_sync_value(left: &Json, right: &Json) -> (r: Json)
    ensures
        r@ == preferred(left@, right@),
        json::whole(left@) && json::whole(right@) ==> preferred(left@, right@) == preferred(
            right@,
            left@,
        ),
{
    let a = canonical_sync_value(left);
    let b = canonical_sync_value(right);
    proof {
        if json::whole(left@) && json::whole(right@) {
            lemma_preferred_turned(left@, right@);
        }
    }
    if comes_before(b.as_str(), a.as_str()) {
        right.duplicate()
    } else {
        left.duplicate()
    }
}

/// Records a conflict at `path`.
pub fn record_sync_field_conflict(
    path: &str,
    base: Option<&Json>,
    left: &Json,
    right: &Json,
    conflicts: &mut Vec<Json>,
)
    ensures
        text::views(final(conflicts)@) == text::views(old(conflicts)@).push(
            field_conflict(path@, text::opt_view(base), left@, right@),
        ),
        conflict_turns(path@, text::opt_view(base), left@, right@),
{
    let a = bounded_sync_value(left);
    let b = bounded_sync_value(right);
    let first = canonical_sync_value(&a);
    let second = canonical_sync_value(&b);
    proof {
        if json::integral(left@) && json::integral(right@) {
            lemma_conflict_turned(path@, text::opt_view(base), left@, right@);
        }
    }
    let mut list: Vec<Json> = Vec::new();
    if a.equals(&b) {
        list.push(deterministic_sync_value(&a, &b));
    } else if comes_before(second.as_str(), first.as_str()) {
        list.push(b);
        list.push(a);
    } else {
        list.push(a);
        list.push(b);
    }
    assert(text::views(list@) =~= candidates(left@, right@));
    proof {
        json::lemma_array_view(list);
    }
    let was = match base {
        Some(value) => bounded_sync_value(value),
        None => Json::Null,
    };
    let mut entries: Vec<(String, Json)> = Vec::new();
    entries.push((owned("base"), was));
    entries.push((owned("candidates"), Json::Array(list)));
    entries.push((owned("path"), Json::text(path)));
    proof {
        json::lemma_object_view(entries);
        assert(json::entry_views(entries@) =~= field_conflict(
            path@,
            text::opt_view(base),
            left@,
            right@,
        )->Object_0);
        text::lemma_views_push(conflicts@, Json::Object(entries));
    }
    conflicts.push(Json::Object(entries));
}

proof fn lemma_key_place(entries: Seq<EntryView>, key: Seq<char>)
    ensures
        -1 <= key_place(entries, key) < entries.len(),
        (key_place(entries, key) >= 0) == json::lookup(entries, key) is Some,
        key_place(entries, key) >= 0 ==> json::lookup(entries, key) == Some(
            entries[key_place(entries, key)].value,
        ),
    decreases entries.len(),
{
    if entries.len() > 0 && entries[0].key != key {
        lemma_key_place(entries.drop_first(), key);
    }
}

proof fn lemma_item_place(items: Seq<JsonView>, wanted: Seq<char>)
    ensures
        -1 <= item_place(items, wanted) < items.len(),
    decreases items.len(),
{
    if items.len() > 0 {
        lemma_item_place(items.drop_last(), wanted);
    }
}

/// Adds the keys of an object's entries to an ascending list.
fn add_keys(list: &mut Vec<String>, entries: &Vec<(String, Json)>)
    requires
        text::ascending(text::views(old(list)@)),
    ensures
        text::ascending(text::views(final(list)@)),
        text::views(final(list)@).to_set() == text::views(old(list)@).to_set() + json::entry_keys(
            json::entry_views(entries@),
        ).to_set(),
{
    let ghost keys = json::entry_keys(json::entry_views(entries@));
    let mut i: usize = 0;
    assert(keys.take(0).to_set() =~= Set::empty());
    assert(text::views(list@).to_set() + keys.take(0).to_set() =~= text::views(list@).to_set());
    while i < entries.len()
        invariant
            i <= entries@.len(),
            text::ascending(text::views(list@)),
            text::views(list@).to_set() == text::views(old(list)@).to_set() + keys.take(
                i as int,
            ).to_set(),
        decreases entries@.len() - i,
    {
        text::add_text(list, entries[i].0.as_str());
        proof {
            assert(keys[i as int] == entries@[i as int].0@);
            assert(keys.take(i + 1) =~= keys.take(i as int).push(keys[i as int]));
            keys.take(i as int).lemma_push_to_set_commute(keys[i as int]);
            assert(text::views(old(list)@).to_set() + keys.take(i as int).to_set().insert(
                keys[i as int],
            ) =~= (text::views(old(list)@).to_set() + keys.take(i as int).to_set()).insert(
                keys[i as int],
            ));
        }
        i += 1;
    }
    assert(keys.take(entries@.len() as int) =~= keys);
}

/// Merges two edited values, each with the value it was edited from, and records
/// the conflicts that this meets. Where both were edited from the same value and none of the
/// three holds a fraction, it does not matter which of them is called the left one.
pub fn merge_sync_value_directional(
    base_left: Option<&Json>,
    left: &Json,
    base_right: Option<&Json>,
    right: &Json,
    path: &str,
    conflicts: &mut Vec<Json>,
) -> (r: Json)
    ensures
        r@ == merged_value(
            text::opt_view(base_left),
            left@,
            text::opt_view(base_right),
            right@,
            path@,
        ).value,
        text::views(final(conflicts)@) == text::views(old(conflicts)@) + merged_value(
            text::opt_view(base_left),
            left@,
            text::opt_view(base_right),
            right@,
            path@,
        ).conflicts,
        text::opt_view(base_left) == text::opt_view(base_right) ==> sides_do_not_matter(
            text::opt_view(base_left),
            left@,
            right@,
            path@,
        ),
    decreases left, 3int,
{
    let ghost was = text::opt_view(base_left);
    let ghost turns = was == text::opt_view(base_right) && all_integral(was, left@, right@);
    proof {
        if turns {
            json::lemma_opt_alike(Some(left@), Some(right@));
            json::lemma_opt_alike(Some(right@), Some(left@));
            json::lemma_opt_alike(was, Some(left@));
            json::lemma_opt_alike(was, Some(right@));
            json::lemma_opt_alike(was, was);
            json::lemma_whole(left@);
            json::lemma_whole(right@);
        }
    }
    let ghost none = Seq::<JsonView>::empty();
    let ghost old_views = text::views(conflicts@);
    assert(old_views + none =~= old_views);
    if left.equals(right) {
        return left.duplicate();
    }
    let left_changed = !same_opt(base_left, Some(left));
    let right_changed = !same_opt(base_right, Some(right));
    if !left_changed && !right_changed {
        return left.duplicate();
    }
    let same_base = same_opt(base_left, base_right);
    if same_base {
        if !left_changed {
            return right.duplicate();
        }
        if !right_changed {
            return left.duplicate();
        }
    }
    match (left, right) {
        (Json::Object(_), Json::Object(_)) => merge_objects(
            base_left,
            left,
            base_right,
            right,
            path,
            conflicts,
        ),
        (Json::Array(_), Json::Array(_)) => {
            let mut nested: Vec<Json> = Vec::new();
            assert(text::views(nested@) =~= none);
            let merged = merge_sync_arrays_directional(
                base_left,
                left,
                base_right,
                right,
                path,
                &mut nested,
            );
            let ghost lists = merged_lists(
                text::opt_view(base_left),
                left@,
                text::opt_view(base_right),
                right@,
                path@,
            );
            assert(none + lists.conflicts =~= lists.conflicts);
            assert(nested@.len() == lists.conflicts.len());
            if nested.len() > 0 {
                record_sync_field_conflict(
                    path,
                    common_of(base_left, base_right),
                    left,
                    right,
                    conflicts,
                );
                assert(text::views(conflicts@) =~= old_views + seq![
                    field_conflict(
                        path@,
                        common(text::opt_view(base_left), text::opt_view(base_right)),
                        left@,
                        right@,
                    ),
                ]);
            }
            merged
        },
        _ => {
            if ends_with(path, "updated_at") || ends_with(path, "recorded_at") {
                let a = canonical_sync_value(left);
                let b = canonical_sync_value(right);
                proof {
                    if turns {
                        lemma_preferred_turned(left@, right@);
                    }
                }
                return if comes_before(a.as_str(), b.as_str()) {
                    right.duplicate()
                } else {
                    left.duplicate()
                };
            }
            if ends_with(path, "created_at") {
                return deterministic_sync_value(left, right);
            }
            if ends_with(path, "revision") && left.is_number() && right.is_number() {
                return if left.whole() >= right.whole() {
                    left.duplicate()
                } else {
                    right.duplicate()
                };
            }
            if !left_changed {
                return right.duplicate();
            }
            if !right_changed {
                return left.duplicate();
            }
            record_sync_field_conflict(
                path,
                common_of(base_left, base_right),
                left,
                right,
                conflicts,
            );
            assert(text::views(conflicts@) =~= old_views + seq![
                field_conflict(
                    path@,
                    common(text::opt_view(base_left), text::opt_view(base_right)),
                    left@,
                    right@,
                ),
            ]);
            deterministic_sync_value(left, right)
        },
    }
}

/// Merges the members of two edited objects.
fn merge_objects(
    base_left: Option<&Json>,
    left: &Json,
    base_right: Option<&Json>,
    right: &Json,
    path: &str,
    conflicts: &mut Vec<Json>,
) -> (r: Json)
    requires
        left is Object,
        right is Object,
    ensures
        ({
            let keys = either_keys(left@, right@);
            let members = merged_members(
                text::opt_view(base_left),
                left@,
                text::opt_view(base_right),
                right@,
                path@,
                keys,
                keys.len(),
            );
            &&& r@ == JsonView::Object(members.entries)
            &&& text::views(final(conflicts)@) == text::views(old(conflicts)@) + members.conflicts
            &&& text::opt_view(base_left) == text::opt_view(base_right) ==> members_turn(
                text::opt_view(base_left),
                left@,
                right@,
                path@,
                keys,
                keys.len(),
            )
            &&& keys == either_keys(right@, left@)
        }),
    decreases left, 2int,
{
    let ghost was_left = text::opt_view(base_left);
    let ghost was_right = text::opt_view(base_right);
    let mut keys: Vec<String> = Vec::new();
    assert(text::views(keys@).to_set() =~= Set::empty());
    if let Json::Object(entries) = left {
        proof {
            json::lemma_object_view(*entries);
        }
        add_keys(&mut keys, entries);
    }
    if let Json::Object(entries) = right {
        proof {
            json::lemma_object_view(*entries);
        }
        add_keys(&mut keys, entries);
    }
    let ghost order = either_keys(left@, right@);
    proof {
        assert(text::views(keys@).to_set() =~= json::entry_keys(left@->Object_0).to_set()
            + json::entry_keys(right@->Object_0).to_set());
        text::lemma_sorted_is(text::views(keys@));
        assert(order == text::views(keys@));
        assert(json::entry_keys(left@->Object_0).to_set() + json::entry_keys(
            right@->Object_0,
        ).to_set() =~= json::entry_keys(right@->Object_0).to_set() + json::entry_keys(
            left@->Object_0,
        ).to_set());
    }
    let mut merged: Vec<(String, Json)> = Vec::new();
    let mut i: usize = 0;
    proof {
        assert(json::entry_views(merged@) =~= Seq::empty());
        assert(text::views(conflicts@) + Seq::<JsonView>::empty() =~= text::views(conflicts@));
    }
    while i < keys.len()
        invariant
            i <= keys@.len(),
            order == text::views(keys@),
            json::entry_views(merged@) == merged_members(
                was_left,
                left@,
                was_right,
                right@,
                path@,
                order,
                i as nat,
            ).entries,
            text::views(conflicts@) == text::views(old(conflicts)@) + merged_members(
                was_left,
                left@,
                was_right,
                right@,
                path@,
                order,
                i as nat,
            ).conflicts,
            was_left == was_right ==> members_turn(
                was_left,
                left@,
                right@,
                path@,
                order,
                i as nat,
            ),
        decreases keys@.len() - i,
    {
        let key = keys[i].as_str();
        let ghost before_conflicts = text::views(conflicts@);
        let ghost before_entries = merged@;
        proof {
            assert(order[i as int] == key@);
            lemma_key_place(left@->Object_0, key@);
        }
        let value = merge_member(base_left, left, base_right, right, path, key, conflicts);
        let ghost part = merged_member(was_left, left@, was_right, right@, path@, key@);
        let ghost so_far = merged_members(
            was_left,
            left@,
            was_right,
            right@,
            path@,
            order,
            i as nat,
        );
        match value {
            Some(member) => {
                merged.push((owned(key), member));
                assert(json::entry_views(merged@) =~= json::entry_views(before_entries).push(
                    json::entry(key@, member@),
                ));
            },
            None => {},
        }
        assert(text::views(old(conflicts)@) + so_far.conflicts + part.conflicts =~= text::views(
            old(conflicts)@,
        ) + (so_far.conflicts + part.conflicts));
        i += 1;
    }
    proof {
        json::lemma_object_view(merged);
    }
    Json::Object(merged)
}

/// Merges the member under `key` of two edited objects.
fn merge_member(
    base_left: Option<&Json>,
    left: &Json,
    base_right: Option<&Json>,
    right: &Json,
    path: &str,
    key: &str,
    conflicts: &mut Vec<Json>,
) -> (r: Option<Json>)
    requires
        left is Object,
        right is Object,
    ensures
        ({
            let part = merged_member(
                text::opt_view(base_left),
                left@,
                text::opt_view(base_right),
                right@,
                path@,
                key@,
            );
            &&& text::opt_view(r) == part.value
            &&& text::views(final(conflicts)@) == text::views(old(conflicts)@) + part.conflicts
            &&& text::opt_view(base_left) == text::opt_view(base_right) ==> member_turns(
                text::opt_view(base_left),
                left@,
                right@,
                path@,
                key@,
            )
        }),
    decreases left, 1int,
{
    let ghost base = text::opt_view(base_left);
    let ghost old_views = text::views(conflicts@);
    assert(old_views + Seq::<JsonView>::empty() =~= old_views);
    proof {
        lemma_key_place(left@->Object_0, key@);
    }
    let l = left.get(key);
    let r = right.get(key);
    let was_left = part(base_left, key);
    let was_right = part(base_right, key);
    let child_path = if path.is_empty() {
        owned(key)
    } else {
        join3(path, ".", key)
    };
    assert(child_path@ == member_path(path@, key@));
    match (l, r) {
        (Some(a), Some(b)) => {
            let merged = merge_sync_value_directional(
                was_left,
                a,
                was_right,
                b,
                child_path.as_str(),
                conflicts,
            );
            proof {
                if base == text::opt_view(base_right) {
                    lemma_member_turned(base, left@, right@, path@, key@);
                }
            }
            Some(merged)
        },
        _ => {
            proof {
                lemma_member_turned(base, left@, right@, path@, key@);
            }
            let left_changed = !same_opt(l, was_left);
            let right_changed = !same_opt(r, was_right);
            if left_changed && !right_changed {
                return copy_opt(l);
            }
            if !left_changed && right_changed {
                return copy_opt(r);
            }
            let value = match l {
                Some(a) => Some(a),
                None => r,
            };
            match value {
                Some(kept) => {
                    if left_changed {
                        record_sync_field_conflict(
                            child_path.as_str(),
                            common_of(was_left, was_right),
                            kept,
                            &Json::Null,
                            conflicts,
                        );
                        assert(text::views(conflicts@) =~= old_views + seq![
                            field_conflict(
                                child_path@,
                                common(text::opt_view(was_left), text::opt_view(was_right)),
                                kept@,
                                JsonView::Null,
                            ),
                        ]);
                    }
                    Some(kept.duplicate())
                },
                None => None,
            }
        },
    }
}


/// Whether every item is a text.
fn only_texts(items: &Vec<Json>) -> (r: bool)
    ensures
        r == all_texts(text::views(items@)),
{
    let mut i: usize = 0;
    while i < items.len()
        invariant
            i <= items@.len(),
            forall|j: int| 0 <= j < i ==> (#[trigger] text::views(items@)[j]) is Text,
        decreases items@.len() - i,
    {
        match &items[i] {
            Json::Text(_) => {},
            _ => {
                assert(text::views(items@)[i as int] !is Text);
                return false;
            },
        }
        i += 1;
    }
    true
}

/// Adds the texts among `items` to an ascending list.
fn add_item_texts(list: &mut Vec<String>, items: &Vec<Json>)
    requires
        text::ascending(text::views(old(list)@)),
    ensures
        text::ascending(text::views(final(list)@)),
        text::views(final(list)@).to_set() == text::views(old(list)@).to_set() + texts_of(
            text::views(items@),
        ),
{
    let ghost all = text::views(items@);
    let ghost first = text::views(list@).to_set();
    let mut i: usize = 0;
    assert(first + texts_of(all.take(0)) =~= first);
    while i < items.len()
        invariant
            i <= items@.len(),
            text::ascending(text::views(list@)),
            text::views(list@).to_set() == first + texts_of(all.take(i as int)),
        decreases items@.len() - i,
    {
        assert(all.take(i + 1) =~= all.take(i as int).push(all[i as int]));
        match &items[i] {
            Json::Text(t) => {
                text::add_text(list, t.as_str());
                proof {
                    let more = first + texts_of(all.take(i + 1));
                    let less = (first + texts_of(all.take(i as int))).insert(t@);
                    assert forall|x: Seq<char>| more.contains(x) == less.contains(x) by {
                        let part = all.take(i as int);
                        assert(all.take(i + 1)[i as int] == JsonView::Text(t@));
                        if part.contains(JsonView::Text(x)) {
                            let k = part.index_of(JsonView::Text(x));
                            assert(all.take(i + 1)[k] == JsonView::Text(x));
                        }
                        if all.take(i + 1).contains(JsonView::Text(x)) {
                            let k = all.take(i + 1).index_of(JsonView::Text(x));
                            if k < i {
                                assert(part[k] == JsonView::Text(x));
                            }
                        }
                    }
                    assert(more =~= less);
                }
            },
            _ => {
                proof {
                    let more = first + texts_of(all.take(i + 1));
                    let less = first + texts_of(all.take(i as int));
                    assert forall|x: Seq<char>| more.contains(x) == less.contains(x) by {
                        let part = all.take(i as int);
                        if part.contains(JsonView::Text(x)) {
                            let k = part.index_of(JsonView::Text(x));
                            assert(all.take(i + 1)[k] == JsonView::Text(x));
                        }
                        if all.take(i + 1).contains(JsonView::Text(x)) {
                            let k = all.take(i + 1).index_of(JsonView::Text(x));
                            assert(all.take(i + 1)[i as int] !is Text);
                            assert(part[k] == JsonView::Text(x));
                        }
                    }
                    assert(more =~= less);
                }
            },
        }
        i += 1;
    }
    assert(all.take(items@.len() as int) =~= all);
}

/// The items of an optional value that is a list.
fn list_of<'a>(base: Option<&'a Json>) -> (r: Option<&'a Vec<Json>>)
    ensures
        r matches Some(items) ==> text::views(items@) == items_of(text::opt_view(base)),
        r is None ==> items_of(text::opt_view(base)) == Seq::<JsonView>::empty(),
{
    match base {
        Some(Json::Array(items)) => {
            proof {
                json::lemma_array_view(*items);
            }
            Some(items)
        },
        _ => None,
    }
}

/// The texts of an optional list, in ascending order.
fn member_texts(items: Option<&Vec<Json>>) -> (r: Vec<String>)
    ensures
        text::ascending(text::views(r@)),
        items matches Some(list) ==> text::views(r@).to_set() == texts_of(text::views(list@)),
        items is None ==> text::views(r@).to_set() == Set::<Seq<char>>::empty(),
{
    let mut out: Vec<String> = Vec::new();
    assert(text::views(out@).to_set() =~= Set::empty());
    match items {
        Some(list) => {
            add_item_texts(&mut out, list);
            assert(text::views(out@).to_set() =~= texts_of(text::views(list@)));
        },
        None => {},
    }
    out
}

fn add_all(list: &mut Vec<String>, more: &Vec<String>)
    requires
        text::ascending(text::views(old(list)@)),
    ensures
        text::ascending(text::views(final(list)@)),
        text::views(final(list)@).to_set() == text::views(old(list)@).to_set() + text::views(
            more@,
        ).to_set(),
{
    let ghost all = text::views(more@);
    let ghost first = text::views(list@).to_set();
    let mut i: usize = 0;
    assert(all.take(0).to_set() =~= Set::empty());
    assert(first + all.take(0).to_set() =~= first);
    while i < more.len()
        invariant
            i <= more@.len(),
            text::ascending(text::views(list@)),
            text::views(list@).to_set() == first + all.take(i as int).to_set(),
        decreases more@.len() - i,
    {
        text::add_text(list, more[i].as_str());
        proof {
            assert(all.take(i + 1) =~= all.take(i as int).push(all[i as int]));
            all.take(i as int).lemma_push_to_set_commute(all[i as int]);
            assert(first + all.take(i as int).to_set().insert(all[i as int]) =~= (first + all.take(
                i as int,
            ).to_set()).insert(all[i as int]));
        }
        i += 1;
    }
    assert(all.take(more@.len() as int) =~= all);
}

/// An ascending list of texts as a JSON list.
fn text_items(list: &Vec<String>) -> (r: Json)
    requires
        text::ascending(text::views(list@)),
    ensures
        r@ == text_list(text::views(list@).to_set()),
{
    let mut items: Vec<Json> = Vec::new();
    let mut i: usize = 0;
    while i < list.len()
        invariant
            i <= list@.len(),
            items@.len() == i,
            forall|j: int| 0 <= j < i ==> (#[trigger] items@[j])@ == JsonView::Text(list@[j]@),
        decreases list@.len() - i,
    {
        items.push(Json::text(list[i].as_str()));
        i += 1;
    }
    proof {
        text::lemma_sorted_is(text::views(list@));
        json::lemma_array_view(items);
        assert(text::views(items@) =~= text::views(list@).map_values(
            |t: Seq<char>| JsonView::Text(t),
        ));
    }
    Json::Array(items)
}

/// Merges two lists of texts.
fn merge_text_lists(
    base_left: Option<&Json>,
    left: &Vec<Json>,
    base_right: Option<&Json>,
    right: &Vec<Json>,
    path: &str,
    conflicts: &mut Vec<Json>,
) -> (r: Json)
    ensures
        ({
            let merged = merged_text_lists(
                text::opt_view(base_left),
                text::views(left@),
                text::opt_view(base_right),
                text::views(right@),
                path@,
            );
            &&& r@ == merged.value
            &&& text::views(final(conflicts)@) == text::views(old(conflicts)@) + merged.conflicts
            &&& text::opt_view(base_left) == text::opt_view(base_right) ==> merged
                == merged_text_lists(
                text::opt_view(base_left),
                text::views(right@),
                text::opt_view(base_right),
                text::views(left@),
                path@,
            )
        }),
{
    proof {
        if text::opt_view(base_left) == text::opt_view(base_right) {
            lemma_text_lists_turned(
                text::opt_view(base_left),
                text::views(left@),
                text::views(right@),
                path@,
            );
        }
    }
    let was_left = member_texts(list_of(base_left));
    let was_right = member_texts(list_of(base_right));
    let l = member_texts(Some(left));
    let r = member_texts(Some(right));
    let ghost wl = texts_of(items_of(text::opt_view(base_left)));
    let ghost wr = texts_of(items_of(text::opt_view(base_right)));
    let ghost lv = texts_of(text::views(left@));
    let ghost rv = texts_of(text::views(right@));
    proof {
        assert(text::views(was_left@).to_set() =~= wl);
        assert(text::views(was_right@).to_set() =~= wr);
    }
    let mut members = text::copy_texts(&l);
    add_all(&mut members, &r);
    let ghost all = text::views(members@);
    let ghost kept = Set::new(
        |t: Seq<char>| stays(wl.contains(t), lv.contains(t), wr.contains(t), rv.contains(t)),
    );
    let mut values: Vec<String> = Vec::new();
    let mut conflict: bool = false;
    let mut i: usize = 0;
    assert(text::views(values@).to_set() =~= Set::empty());
    while i < members.len()
        invariant
            i <= members@.len(),
            text::ascending(text::views(values@)),
            forall|t: Seq<char>|
                #[trigger] text::views(values@).to_set().contains(t) == (all.take(
                    i as int,
                ).contains(t) && kept.contains(t)),
            conflict == exists|j: int|
                0 <= j < i && disputed(
                    wl.contains(all[j]),
                    lv.contains(all[j]),
                    wr.contains(all[j]),
                    rv.contains(all[j]),
                ),
        decreases members@.len() - i,
    {
        let t = members[i].as_str();
        let ghost before_values = text::views(values@);
        proof {
            assert(all[i as int] == t@);
            assert(all.take(i + 1) =~= all.take(i as int).push(t@));
            assert(wl.contains(t@) == text::views(was_left@).contains(t@));
            assert(wr.contains(t@) == text::views(was_right@).contains(t@));
            assert(lv.contains(t@) == text::views(l@).to_set().contains(t@));
            assert(rv.contains(t@) == text::views(r@).to_set().contains(t@));
        }
        let was_left_has = text::has_text(&was_left, t);
        let was_right_has = text::has_text(&was_right, t);
        let left_has = text::has_text(&l, t);
        let right_has = text::has_text(&r, t);
        let left_changed = left_has != was_left_has;
        let right_changed = right_has != was_right_has;
        let keep = if left_has == right_has || (left_changed && !right_changed) {
            left_has
        } else if !left_changed && right_changed {
            right_has
        } else if !left_changed {
            left_has
        } else {
            conflict = true;
            left_has || right_has
        };
        assert(keep == kept.contains(t@));
        if keep {
            text::add_text(&mut values, t);
        }
        proof {
            assert forall|x: Seq<char>|
                #[trigger] text::views(values@).to_set().contains(x) == (all.take(
                    i + 1,
                ).contains(x) && kept.contains(x)) by {
                let part = all.take(i as int);
                if part.contains(x) {
                    let k = part.index_of(x);
                    assert(all.take(i + 1)[k] == x);
                }
                if all.take(i + 1).contains(x) {
                    let k = all.take(i + 1).index_of(x);
                    if k < i {
                        assert(part[k] == x);
                    }
                }
                assert(all.take(i + 1)[i as int] == t@);
                assert(before_values.to_set().contains(x) == (part.contains(x) && kept.contains(
                    x,
                )));
            }
            if conflict {
                if disputed(
                    wl.contains(t@),
                    lv.contains(t@),
                    wr.contains(t@),
                    rv.contains(t@),
                ) {
                    assert(disputed(
                        wl.contains(all[i as int]),
                        lv.contains(all[i as int]),
                        wr.contains(all[i as int]),
                        rv.contains(all[i as int]),
                    ));
                }
            }
        }
        i += 1;
    }
    let ghost merged = merged_text_lists(
        text::opt_view(base_left),
        text::views(left@),
        text::opt_view(base_right),
        text::views(right@),
        path@,
    );
    proof {
        assert(all.take(members@.len() as int) =~= all);
        assert forall|t: Seq<char>| kept.contains(t) implies all.contains(t) by {
            assert(lv.contains(t) || rv.contains(t));
            assert(all.to_set().contains(t));
        }
        assert(text::views(values@).to_set() =~= kept);
        if conflict {
            let j = choose|j: int|
                0 <= j < members@.len() && disputed(
                    wl.contains(all[j]),
                    lv.contains(all[j]),
                    wr.contains(all[j]),
                    rv.contains(all[j]),
                );
            assert(lv.contains(all[j]) != rv.contains(all[j]));
        } else {
            assert forall|t: Seq<char>| #[trigger] lv.contains(t) != rv.contains(t) implies !disputed(
                wl.contains(t),
                lv.contains(t),
                wr.contains(t),
                rv.contains(t),
            ) by {
                assert(all.to_set().contains(t));
                let j = all.index_of(t);
                assert(all[j] == t);
            }
        }
        assert(text::views(conflicts@) + Seq::<JsonView>::empty() =~= text::views(conflicts@));
    }
    if conflict {
        let left_list = text_items(&l);
        let right_list = text_items(&r);
        assert(left_list@ == text_list(lv));
        assert(right_list@ == text_list(rv));
        record_sync_field_conflict(
            path,
            common_of(base_left, base_right),
            &left_list,
            &right_list,
            conflicts,
        );
        assert(text::views(conflicts@) =~= text::views(old(conflicts)@) + merged.conflicts);
    }
    text_items(&values)
}

/// What a list item is recognised by.
fn identity_of(value: &Json) -> (r: String)
    ensures
        r@ == identity(value@),
{
    match value.get("id") {
        Some(id) => canonical_sync_value(id),
        None => match value.get("revision") {
            Some(revision) => canonical_sync_value(revision),
            None => match value.get("slug") {
                Some(slug) => canonical_sync_value(slug),
                None => canonical_sync_value(value),
            },
        },
    }
}

fn identity_list(items: &Vec<Json>) -> (r: Vec<String>)
    ensures
        text::views(r@) == identities(text::views(items@)),
{
    let mut out: Vec<String> = Vec::new();
    let mut i: usize = 0;
    while i < items.len()
        invariant
            i <= items@.len(),
            out@.len() == i,
            forall|j: int| 0 <= j < i ==> (#[trigger] out@[j])@ == identity(items@[j]@),
        decreases items@.len() - i,
    {
        out.push(identity_of(&items[i]));
        i += 1;
    }
    assert(text::views(out@) =~= identities(text::views(items@)));
    out
}

/// The last item with this identity.
fn find_item<'a>(items: &'a Vec<Json>, ids: &Vec<String>, key: &str) -> (r: Option<&'a Json>)
    requires
        text::views(ids@) == identities(text::views(items@)),
    ensures
        text::opt_view(r) == item_with(text::views(items@), key@),
        r matches Some(found) ==> exists|i: int| 0 <= i < items@.len() && *found == items@[i],
{
    let ghost all = text::views(items@);
    let mut i: usize = ids.len();
    assert(ids@.len() == text::views(ids@).len());
    assert(all.take(i as int) =~= all);
    while i > 0
        invariant
            i <= items@.len(),
            ids@.len() == items@.len(),
            item_place(all, key@) == item_place(all.take(i as int), key@),
        decreases i,
    {
        proof {
            assert(all.take(i as int).last() == all[i - 1]);
            assert(all.take(i as int).drop_last() =~= all.take(i - 1));
            assert(text::views(ids@)[i - 1] == identity(all[i - 1]));
        }
        if text::same_text(ids[i - 1].as_str(), key) {
            assert(item_place(all, key@) == i - 1);
            return Some(&items[i - 1]);
        }
        i -= 1;
    }
    None
}

/// Merges two edited lists, each with the list it was edited from, and records
/// the conflicts that this meets. Lists of texts are merged as sets; the items
/// of other lists are matched by what they are recognised by.
#[verifier::rlimit(60)]
#[verifier::spinoff_prover]
pub fn merge_sync_arrays_directional(
    base_left: Option<&Json>,
    left: &Json,
    base_right: Option<&Json>,
    right: &Json,
    path: &str,
    conflicts: &mut Vec<Json>,
) -> (r: Json)
    requires
        left is Array,
        right is Array,
    ensures
        ({
            let merged = merged_lists(
                text::opt_view(base_left),
                left@,
                text::opt_view(base_right),
                right@,
                path@,
            );
            &&& r@ == merged.value
            &&& text::views(final(conflicts)@) == text::views(old(conflicts)@) + merged.conflicts
        }),
        text::opt_view(base_left) == text::opt_view(base_right) ==> lists_turn(
            text::opt_view(base_left),
            left@,
            right@,
            path@,
        ),
    decreases left, 2int,
{
    let ghost was_left = text::opt_view(base_left);
    let ghost was_right = text::opt_view(base_right);
    match (left, right) {
        (Json::Array(left_items), Json::Array(right_items)) => {
            proof {
                json::lemma_array_view(*left_items);
                json::lemma_array_view(*right_items);
            }
            if only_texts(left_items) && only_texts(right_items) {
                return merge_text_lists(
                    base_left,
                    left_items,
                    base_right,
                    right_items,
                    path,
                    conflicts,
                );
            }
            let left_ids = identity_list(left_items);
            let right_ids = identity_list(right_items);
            let empty: Vec<Json> = Vec::new();
            assert(text::views(empty@) =~= Seq::empty());
            let was_left_items: &Vec<Json> = match list_of(base_left) {
                Some(items) => items,
                None => &empty,
            };
            let was_right_items: &Vec<Json> = match list_of(base_right) {
                Some(items) => items,
                None => &empty,
            };
            let was_left_ids = identity_list(was_left_items);
            let was_right_ids = identity_list(was_right_items);
            let mut keys: Vec<String> = Vec::new();
            assert(text::views(keys@).to_set() =~= Set::empty());
            add_all(&mut keys, &left_ids);
            add_all(&mut keys, &right_ids);
            let ghost order = text::sorted(
                identities(left@->Array_0).to_set() + identities(right@->Array_0).to_set(),
            );
            proof {
                assert(text::views(keys@).to_set() =~= identities(left@->Array_0).to_set()
                    + identities(right@->Array_0).to_set());
                text::lemma_sorted_is(text::views(keys@));
                assert(text::views(conflicts@) + Seq::<JsonView>::empty() =~= text::views(
                    conflicts@,
                ));
            }
            let mut merged: Vec<Json> = Vec::new();
            assert(text::views(merged@) =~= Seq::empty());
            let mut i: usize = 0;
            while i < keys.len()
                invariant
                    i <= keys@.len(),
                    order == text::views(keys@),
                    text::views(merged@) == merged_items(
                        was_left,
                        left@,
                        was_right,
                        right@,
                        path@,
                        order,
                        i as nat,
                    ).items,
                    text::views(conflicts@) == text::views(old(conflicts)@) + merged_items(
                        was_left,
                        left@,
                        was_right,
                        right@,
                        path@,
                        order,
                        i as nat,
                    ).conflicts,
                    was_left == was_right ==> items_turn(
                        was_left,
                        left@,
                        right@,
                        path@,
                        order,
                        i as nat,
                    ),
                decreases keys@.len() - i,
            {
                let key = keys[i].as_str();
                assert(order[i as int] == key@);
                let l = find_item(left_items, &left_ids, key);
                let r = find_item(right_items, &right_ids, key);
                let wl = find_item(was_left_items, &was_left_ids, key);
                let wr = find_item(was_right_items, &was_right_ids, key);
                let ghost before_conflicts = text::views(conflicts@);
                let ghost before_items = merged@;
                let ghost part = merged_item(was_left, left@, was_right, right@, path@, key@);
                let ghost so_far = merged_items(
                    was_left,
                    left@,
                    was_right,
                    right@,
                    path@,
                    order,
                    i as nat,
                );
                proof {
                    lemma_item_place(left@->Array_0, key@);
                    assert(before_conflicts + Seq::<JsonView>::empty() =~= before_conflicts);
                }
                let left_changed = !same_opt(l, wl);
                let right_changed = !same_opt(r, wr);
                let value: Option<Json> = if same_opt(l, r) || (left_changed && !right_changed) {
                    copy_opt(l)
                } else if !left_changed && right_changed {
                    copy_opt(r)
                } else {
                    match (l, r) {
                        (Some(a), Some(b)) => {
                            if !left_changed {
                                Some(a.duplicate())
                            } else {
                                let child_path = join4(path, "[", key, "]");
                                assert(decreases_to!(left => a)) by {
                                    let j = choose|j: int|
                                        0 <= j < left_items@.len() && *a == left_items@[j];
                                    assert(decreases_to!(left_items@ => left_items@[j]));
                                }
                                Some(
                                    merge_sync_value_directional(
                                        wl,
                                        a,
                                        wr,
                                        b,
                                        child_path.as_str(),
                                        conflicts,
                                    ),
                                )
                            }
                        },
                        _ => {
                            let either = match l {
                                Some(a) => Some(a),
                                None => r,
                            };
                            if left_changed {
                                let child_path = join4(path, "[", key, "]");
                                let nothing = Json::Null;
                                let a = match l {
                                    Some(a) => a,
                                    None => &nothing,
                                };
                                let b = match r {
                                    Some(b) => b,
                                    None => &nothing,
                                };
                                record_sync_field_conflict(
                                    child_path.as_str(),
                                    common_of(wl, wr),
                                    a,
                                    b,
                                    conflicts,
                                );
                                assert(text::views(conflicts@) =~= before_conflicts
                                    + part.conflicts);
                            }
                            copy_opt(either)
                        },
                    }
                };
                assert(text::opt_view(value) == part.value);
                assert(text::views(conflicts@) == before_conflicts + part.conflicts);
                proof {
                    if was_left == was_right {
                        lemma_item_turned(was_left, left@, right@, path@, key@);
                    }
                }
                match value {
                    Some(item) => {
                        proof {
                            text::lemma_views_push(merged@, item);
                        }
                        merged.push(item);
                    },
                    None => {},
                }
                assert(text::views(old(conflicts)@) + so_far.conflicts + part.conflicts
                    =~= text::views(old(conflicts)@) + (so_far.conflicts + part.conflicts));
                i += 1;
            }
            proof {
                json::lemma_array_view(merged);
                if was_left == was_right {
                    lemma_lists_turned(was_left, left@, right@, path@, order);
                }
            }
            Json::Array(merged)
        },
        _ => Json::Null,
    }
}

} // verus!
