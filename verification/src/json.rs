//! JSON values: the shape in which operations, discussions and synchronised
//! objects carry their details.
use crate::text;
use crate::text::{comes_before, has_text, natural_text, owned, same_text};
use vstd::prelude::*;

verus! {

/// A JSON value. The entries of an object stand in the ascending order of their
/// keys; a number that is no 64-bit signed integer is kept by its decimal text.
pub enum Json {
    Null,
    Bool(bool),
    Int(i64),
    Number(String),
    Text(String),
    Array(Vec<Json>),
    Object(Vec<(String, Json)>),
}

/// What an entry of a JSON object says.
#[verifier::ext_equal]
pub struct EntryView {
    pub key: Seq<char>,
    pub value: JsonView,
}

/// What a JSON value says.
#[verifier::ext_equal]
pub enum JsonView {
    Null,
    Bool(bool),
    Int(int),
    Number(Seq<char>),
    Text(Seq<char>),
    Array(Seq<JsonView>),
    Object(Seq<EntryView>),
}

impl View for Json {
    type V = JsonView;

    open spec fn view(&self) -> JsonView
        decreases self,
    {
        match *self {
            Json::Null => JsonView::Null,
            Json::Bool(b) => JsonView::Bool(b),
            Json::Int(n) => JsonView::Int(n as int),
            Json::Number(s) => JsonView::Number(s@),
            Json::Text(s) => JsonView::Text(s@),
            Json::Array(items) => JsonView::Array(
                Seq::new(
                    items@.len(),
                    |i: int|
                        if 0 <= i < items@.len() {
                            items@[i].view()
                        } else {
                            JsonView::Null
                        },
                ),
            ),
            Json::Object(entries) => JsonView::Object(
                Seq::new(
                    entries@.len(),
                    |i: int|
                        if 0 <= i < entries@.len() {
                            EntryView { key: entries@[i].0@, value: entries@[i].1.view() }
                        } else {
                            EntryView { key: Seq::empty(), value: JsonView::Null }
                        },
                ),
            ),
        }
    }
}

pub open spec fn entry(key: Seq<char>, value: JsonView) -> EntryView {
    EntryView { key, value }
}

/// What the entries of an object say.
pub open spec fn entry_views(entries: Seq<(String, Json)>) -> Seq<EntryView> {
    Seq::new(entries.len(), |i: int| entry(entries[i].0@, entries[i].1@))
}

pub proof fn lemma_array_view(items: Vec<Json>)
    ensures
        Json::Array(items)@ == JsonView::Array(text::views(items@)),
{
    assert(Json::Array(items)@->Array_0 =~= text::views(items@));
}

pub proof fn lemma_object_view(entries: Vec<(String, Json)>)
    ensures
        Json::Object(entries)@ == JsonView::Object(entry_views(entries@)),
{
    let whole = Json::Object(entries)@->Object_0;
    assert forall|i: int| 0 <= i < entries@.len() implies #[trigger] whole[i] == entry_views(
        entries@,
    )[i] by {
        assert(whole[i].key == entries@[i].0@);
        assert(whole[i].value == entries@[i].1@);
    }
    assert(whole =~= entry_views(entries@));
}

/// The value of the first entry with this key.
pub open spec fn lookup(entries: Seq<EntryView>, key: Seq<char>) -> Option<JsonView>
    decreases entries.len(),
{
    if entries.len() == 0 {
        None
    } else if entries[0].key == key {
        Some(entries[0].value)
    } else {
        lookup(entries.drop_first(), key)
    }
}

/// The entries with the value under `key` set: in place of the one that stood
/// there, or at its place in the order.
pub open spec fn with_entry(
    entries: Seq<EntryView>,
    key: Seq<char>,
    value: JsonView,
) -> Seq<EntryView>
    decreases entries.len(),
{
    if entries.len() == 0 {
        seq![entry(key, value)]
    } else if entries[0].key == key {
        seq![entry(key, value)] + entries.drop_first()
    } else if text::before(key, entries[0].key) {
        seq![entry(key, value)] + entries
    } else {
        seq![entries[0]] + with_entry(entries.drop_first(), key, value)
    }
}

/// The keys of an object's entries.
pub open spec fn entry_keys(entries: Seq<EntryView>) -> Seq<Seq<char>> {
    entries.map_values(|e: EntryView| e.key)
}

/// A count as a number.
pub open spec fn count_view(n: nat) -> JsonView {
    if n <= i64::MAX {
        JsonView::Int(n as int)
    } else {
        JsonView::Number(text::natural(n))
    }
}

impl JsonView {
    /// The value under `key`, of an object that has one.
    pub open spec fn get(self, key: Seq<char>) -> Option<JsonView> {
        match self {
            JsonView::Object(entries) => lookup(entries, key),
            _ => None,
        }
    }

    /// The value under `key`, or null.
    pub open spec fn at(self, key: Seq<char>) -> JsonView {
        match self.get(key) {
            Some(value) => value,
            None => JsonView::Null,
        }
    }

    pub open spec fn as_text(self) -> Option<Seq<char>> {
        match self {
            JsonView::Text(text) => Some(text),
            _ => None,
        }
    }

    pub open spec fn is_number(self) -> bool {
        self is Int || self is Number
    }

    /// The text under `key`.
    pub open spec fn text_at(self, key: Seq<char>) -> Option<Seq<char>> {
        match self.get(key) {
            Some(JsonView::Text(text)) => Some(text),
            _ => None,
        }
    }

    /// The integer under `key`.
    pub open spec fn int_at(self, key: Seq<char>) -> Option<i64> {
        match self.get(key) {
            Some(JsonView::Int(n)) => Some(n as i64),
            _ => None,
        }
    }

    /// The truth value under `key`.
    pub open spec fn bool_at(self, key: Seq<char>) -> Option<bool> {
        match self.get(key) {
            Some(JsonView::Bool(b)) => Some(b),
            _ => None,
        }
    }

    /// The list under `key`.
    pub open spec fn array_at(self, key: Seq<char>) -> Option<Seq<JsonView>> {
        match self.get(key) {
            Some(JsonView::Array(items)) => Some(items),
            _ => None,
        }
    }
}

/// A zero that is no integer.
pub open spec fn is_zero(number: Seq<char>) -> bool {
    number == "0.0"@ || number == "-0.0"@
}

/// Two values are equal: numbers by what they are, so that the two zeros are one number.
pub open spec fn alike(a: JsonView, b: JsonView) -> bool
    decreases a,
{
    match (a, b) {
        (JsonView::Number(x), JsonView::Number(y)) => x == y || is_zero(x) && is_zero(y),
        (JsonView::Array(x), JsonView::Array(y)) => {
            &&& x.len() == y.len()
            &&& forall|i: int| 0 <= i < x.len() ==> alike(#[trigger] x[i], y[i])
        },
        (JsonView::Object(x), JsonView::Object(y)) => {
            &&& x.len() == y.len()
            &&& forall|i: int|
                0 <= i < x.len() ==> (#[trigger] x[i]).key == y[i].key && alike(
                    x[i].value,
                    y[i].value,
                )
        },
        _ => a == b,
    }
}

/// Two values, where there are any, are equal.
pub open spec fn opt_alike(a: Option<JsonView>, b: Option<JsonView>) -> bool {
    match (a, b) {
        (Some(x), Some(y)) => alike(x, y),
        _ => a == b,
    }
}

/// A value is equal to itself.
pub proof fn lemma_alike_itself(a: JsonView)
    ensures
        alike(a, a),
    decreases a,
{
    match a {
        JsonView::Array(items) => {
            assert forall|i: int| 0 <= i < items.len() implies alike(
                #[trigger] items[i],
                items[i],
            ) by {
                lemma_alike_itself(items[i]);
            }
        },
        JsonView::Object(entries) => {
            assert forall|i: int| 0 <= i < entries.len() implies (#[trigger] entries[i]).key
                == entries[i].key && alike(entries[i].value, entries[i].value) by {
                lemma_alike_itself(entries[i].value);
            }
        },
        _ => {},
    }
}

/// Equality does not depend on which of two values is named first.
pub proof fn lemma_alike_turned(a: JsonView, b: JsonView)
    ensures
        alike(a, b) == alike(b, a),
    decreases a,
{
    match (a, b) {
        (JsonView::Array(x), JsonView::Array(y)) => {
            if x.len() == y.len() {
                assert forall|i: int| 0 <= i < x.len() implies alike(#[trigger] x[i], y[i])
                    == alike(y[i], x[i]) by {
                    lemma_alike_turned(x[i], y[i]);
                }
                if alike(a, b) {
                    assert forall|i: int| 0 <= i < y.len() implies alike(#[trigger] y[i], x[i]) by {
                        assert(alike(x[i], y[i]));
                    }
                }
                if alike(b, a) {
                    assert forall|i: int| 0 <= i < x.len() implies alike(#[trigger] x[i], y[i]) by {
                        assert(alike(y[i], x[i]));
                    }
                }
            }
        },
        (JsonView::Object(x), JsonView::Object(y)) => {
            if x.len() == y.len() {
                assert forall|i: int| 0 <= i < x.len() implies alike(
                    (#[trigger] x[i]).value,
                    y[i].value,
                ) == alike(y[i].value, x[i].value) by {
                    lemma_alike_turned(x[i].value, y[i].value);
                }
                if alike(a, b) {
                    assert forall|i: int| 0 <= i < y.len() implies (#[trigger] y[i]).key
                        == x[i].key && alike(y[i].value, x[i].value) by {
                        assert(x[i].key == y[i].key && alike(x[i].value, y[i].value));
                    }
                }
                if alike(b, a) {
                    assert forall|i: int| 0 <= i < x.len() implies (#[trigger] x[i]).key
                        == y[i].key && alike(x[i].value, y[i].value) by {
                        assert(y[i].key == x[i].key && alike(y[i].value, x[i].value));
                    }
                }
            }
        },
        _ => {},
    }
}

impl Json {
    /// Whether two values are equal: numbers by what they are.
    pub fn equals(&self, other: &Json) -> (r: bool)
        ensures
            r == alike(self@, other@),
        decreases self,
    {
        match (self, other) {
            (Json::Null, Json::Null) => true,
            (Json::Bool(a), Json::Bool(b)) => *a == *b,
            (Json::Int(a), Json::Int(b)) => *a == *b,
            (Json::Number(a), Json::Number(b)) => {
                let (a, b) = (a.as_str(), b.as_str());
                same_text(a, b) || (same_text(a, "0.0") || same_text(a, "-0.0")) && (same_text(
                    b,
                    "0.0",
                ) || same_text(b, "-0.0"))
            },
            (Json::Text(a), Json::Text(b)) => same_text(a.as_str(), b.as_str()),
            (Json::Array(a), Json::Array(b)) => {
                proof {
                    lemma_array_view(*a);
                    lemma_array_view(*b);
                }
                let ghost x = text::views(a@);
                let ghost y = text::views(b@);
                if a.len() != b.len() {
                    return false;
                }
                let mut i: usize = 0;
                while i < a.len()
                    invariant
                        i <= a@.len() == x.len(),
                        a@.len() == b@.len(),
                        x == text::views(a@),
                        y == text::views(b@),
                        forall|j: int| 0 <= j < i ==> alike(#[trigger] x[j], y[j]),
                    decreases a@.len() - i,
                {
                    assert(x[i as int] == a@[i as int]@ && y[i as int] == b@[i as int]@);
                    if !a[i].equals(&b[i]) {
                        return false;
                    }
                    i += 1;
                }
                true
            },
            (Json::Object(a), Json::Object(b)) => {
                proof {
                    lemma_object_view(*a);
                    lemma_object_view(*b);
                }
                let ghost x = entry_views(a@);
                let ghost y = entry_views(b@);
                if a.len() != b.len() {
                    return false;
                }
                let mut i: usize = 0;
                while i < a.len()
                    invariant
                        i <= a@.len() == x.len(),
                        a@.len() == b@.len(),
                        x == entry_views(a@),
                        y == entry_views(b@),
                        forall|j: int|
                            0 <= j < i ==> (#[trigger] x[j]).key == y[j].key && alike(
                                x[j].value,
                                y[j].value,
                            ),
                    decreases a@.len() - i,
                {
                    assert(x[i as int].key == a@[i as int].0@ && x[i as int].value
                        == a@[i as int].1@);
                    assert(y[i as int].key == b@[i as int].0@ && y[i as int].value
                        == b@[i as int].1@);
                    if !same_text(a[i].0.as_str(), b[i].0.as_str()) || !a[i].1.equals(&b[i].1) {
                        return false;
                    }
                    i += 1;
                }
                true
            },
            _ => false,
        }
    }

    /// Whether two values are written alike.
    pub fn same(&self, other: &Json) -> (r: bool)
        ensures
            r == (self@ == other@),
        decreases self,
    {
        match (self, other) {
            (Json::Null, Json::Null) => true,
            (Json::Bool(a), Json::Bool(b)) => *a == *b,
            (Json::Int(a), Json::Int(b)) => *a == *b,
            (Json::Number(a), Json::Number(b)) => same_text(a.as_str(), b.as_str()),
            (Json::Text(a), Json::Text(b)) => same_text(a.as_str(), b.as_str()),
            (Json::Array(a), Json::Array(b)) => {
                proof {
                    lemma_array_view(*a);
                    lemma_array_view(*b);
                }
                if a.len() != b.len() {
                    assert(text::views(a@).len() != text::views(b@).len());
                    return false;
                }
                let mut i: usize = 0;
                while i < a.len()
                    invariant
                        i <= a@.len(),
                        a@.len() == b@.len(),
                        forall|j: int| 0 <= j < i ==> #[trigger] a@[j]@ == b@[j]@,
                    decreases a@.len() - i,
                {
                    if !a[i].same(&b[i]) {
                        assert(text::views(a@)[i as int] != text::views(b@)[i as int]);
                        return false;
                    }
                    i += 1;
                }
                assert(text::views(a@) =~= text::views(b@));
                true
            },
            (Json::Object(a), Json::Object(b)) => {
                proof {
                    lemma_object_view(*a);
                    lemma_object_view(*b);
                }
                if a.len() != b.len() {
                    assert(entry_views(a@).len() != entry_views(b@).len());
                    return false;
                }
                let mut i: usize = 0;
                while i < a.len()
                    invariant
                        i <= a@.len(),
                        a@.len() == b@.len(),
                        forall|j: int|
                            0 <= j < i ==> #[trigger] entry_views(a@)[j] == entry_views(b@)[j],
                    decreases a@.len() - i,
                {
                    if !same_text(a[i].0.as_str(), b[i].0.as_str()) || !a[i].1.same(&b[i].1) {
                        assert(entry_views(a@)[i as int] != entry_views(b@)[i as int]);
                        return false;
                    }
                    i += 1;
                }
                assert(entry_views(a@) =~= entry_views(b@));
                true
            },
            _ => false,
        }
    }

    /// A copy of the value.
    pub fn duplicate(&self) -> (r: Json)
        ensures
            r@ == self@,
        decreases self,
    {
        match self {
            Json::Null => Json::Null,
            Json::Bool(b) => Json::Bool(*b),
            Json::Int(n) => Json::Int(*n),
            Json::Number(s) => Json::Number(owned(s.as_str())),
            Json::Text(s) => Json::Text(owned(s.as_str())),
            Json::Array(items) => {
                let mut out: Vec<Json> = Vec::new();
                let mut i: usize = 0;
                while i < items.len()
                    invariant
                        i <= items@.len(),
                        out@.len() == i,
                        forall|j: int| 0 <= j < i ==> #[trigger] out@[j]@ == items@[j]@,
                    decreases items@.len() - i,
                {
                    out.push(items[i].duplicate());
                    i += 1;
                }
                proof {
                    lemma_array_view(*items);
                    lemma_array_view(out);
                    assert(text::views(out@) =~= text::views(items@));
                }
                Json::Array(out)
            },
            Json::Object(entries) => {
                let mut out: Vec<(String, Json)> = Vec::new();
                let mut i: usize = 0;
                while i < entries.len()
                    invariant
                        i <= entries@.len(),
                        out@.len() == i,
                        forall|j: int|
                            0 <= j < i ==> #[trigger] entry_views(out@)[j] == entry_views(
                                entries@,
                            )[j],
                    decreases entries@.len() - i,
                {
                    let ghost so_far = out@;
                    out.push((owned(entries[i].0.as_str()), entries[i].1.duplicate()));
                    assert forall|j: int| 0 <= j < i + 1 implies #[trigger] entry_views(out@)[j]
                        == entry_views(entries@)[j] by {
                        if j < i {
                            assert(entry_views(so_far)[j] == entry_views(entries@)[j]);
                        }
                    }
                    i += 1;
                }
                proof {
                    lemma_object_view(*entries);
                    lemma_object_view(out);
                    assert(entry_views(out@) =~= entry_views(entries@));
                }
                Json::Object(out)
            },
        }
    }

    /// The value under `key`, of an object that has one.
    pub fn get(&self, key: &str) -> (r: Option<&Json>)
        ensures
            r is Some == self@.get(key@) is Some,
            r matches Some(value) ==> self@.get(key@) == Some(value@) && decreases_to!(
                self => value,
            ),
    {
        match self {
            Json::Object(entries) => {
                proof {
                    lemma_object_view(*entries);
                    assert(entry_views(entries@).skip(0) =~= entry_views(entries@));
                }
                let mut i: usize = 0;
                while i < entries.len()
                    invariant
                        i <= entries@.len(),
                        lookup(entry_views(entries@), key@) == lookup(
                            entry_views(entries@).skip(i as int),
                            key@,
                        ),
                    decreases entries@.len() - i,
                {
                    let ghost rest = entry_views(entries@).skip(i as int);
                    assert(rest[0] == entry(entries@[i as int].0@, entries@[i as int].1@));
                    if same_text(entries[i].0.as_str(), key) {
                        return Some(&entries[i].1);
                    }
                    assert(rest.drop_first() =~= entry_views(entries@).skip(i + 1));
                    i += 1;
                }
                None
            },
            _ => None,
        }
    }

    /// The text under `key`, where there is one.
    pub fn get_text(&self, key: &str) -> (r: Option<&String>)
        ensures
            r is Some == self@.at(key@) is Text,
            r matches Some(text) ==> self@.at(key@) == JsonView::Text(text@),
    {
        match self.get(key) {
            Some(Json::Text(text)) => Some(text),
            _ => None,
        }
    }

    /// Whether the value is a number.
    pub fn is_number(&self) -> (r: bool)
        ensures
            r == self@.is_number(),
    {
        match self {
            Json::Int(_) => true,
            Json::Number(_) => true,
            _ => false,
        }
    }

    /// The integer of a number, or zero.
    pub fn whole(&self) -> (r: i64)
        ensures
            r == (if self@ is Int {
                self@->Int_0
            } else {
                0
            }),
    {
        match self {
            Json::Int(n) => *n,
            _ => 0,
        }
    }

    /// A count as a number.
    pub fn count(n: usize) -> (r: Json)
        ensures
            r@ == count_view(n as nat),
    {
        if n as u64 <= 0x7fff_ffff_ffff_ffff {
            Json::Int(n as i64)
        } else {
            Json::Number(natural_text(n as u128))
        }
    }

    pub fn text(s: &str) -> (r: Json)
        ensures
            r@ == JsonView::Text(s@),
    {
        Json::Text(owned(s))
    }

    /// The object with these entries, which stand in the ascending order of their keys.
    pub fn object(entries: Vec<(String, Json)>) -> (r: Json)
        ensures
            r@ == JsonView::Object(entry_views(entries@)),
    {
        proof {
            lemma_object_view(entries);
        }
        Json::Object(entries)
    }

    /// The object without entries.
    pub fn empty_object() -> (r: Json)
        ensures
            r@ == JsonView::Object(Seq::empty()),
    {
        let entries: Vec<(String, Json)> = Vec::new();
        assert(entry_views(entries@) =~= Seq::empty());
        Json::object(entries)
    }

    /// The object with one entry.
    pub fn object1(key: &str, value: Json) -> (r: Json)
        ensures
            r@ == JsonView::Object(seq![entry(key@, value@)]),
    {
        let ghost said = value@;
        let mut entries: Vec<(String, Json)> = Vec::new();
        entries.push((owned(key), value));
        assert(entry_views(entries@) =~= seq![entry(key@, said)]);
        Json::object(entries)
    }

    /// The object with two entries, of which the first comes before the second.
    pub fn object2(first: &str, a: Json, second: &str, b: Json) -> (r: Json)
        ensures
            r@ == JsonView::Object(seq![entry(first@, a@), entry(second@, b@)]),
    {
        let ghost goal = seq![entry(first@, a@), entry(second@, b@)];
        let mut entries: Vec<(String, Json)> = Vec::new();
        entries.push((owned(first), a));
        entries.push((owned(second), b));
        assert(entry_views(entries@) =~= goal);
        Json::object(entries)
    }

    /// A count as a number.
    pub fn wide_count(n: u128) -> (r: Json)
        ensures
            r@ == count_view(n as nat),
    {
        if n <= 0x7fff_ffff_ffff_ffff {
            Json::Int(n as i64)
        } else {
            Json::Number(natural_text(n))
        }
    }

    /// The text under `key`.
    pub fn text_at(&self, key: &str) -> (r: Option<&String>)
        ensures
            match self@.text_at(key@) {
                Some(said) => r matches Some(found) && found@ == said,
                None => r is None,
            },
    {
        match self.get(key) {
            Some(Json::Text(text)) => Some(text),
            _ => None,
        }
    }

    /// The integer under `key`.
    pub fn int_at(&self, key: &str) -> (r: Option<i64>)
        ensures
            r == self@.int_at(key@),
    {
        match self.get(key) {
            Some(Json::Int(n)) => Some(*n),
            _ => None,
        }
    }

    /// The truth value under `key`.
    pub fn bool_at(&self, key: &str) -> (r: Option<bool>)
        ensures
            r == self@.bool_at(key@),
    {
        match self.get(key) {
            Some(Json::Bool(b)) => Some(*b),
            _ => None,
        }
    }

    /// The list under `key`.
    pub fn array_at(&self, key: &str) -> (r: Option<&Vec<Json>>)
        ensures
            match self@.array_at(key@) {
                Some(items) => r matches Some(found) && text::views(found@) == items,
                None => r is None,
            },
    {
        match self.get(key) {
            Some(Json::Array(items)) => {
                proof {
                    lemma_array_view(*items);
                }
                Some(items)
            },
            _ => None,
        }
    }

    /// Sets the value under `key`; a value that is no object stays as it is.
    pub fn set(&mut self, key: &str, value: Json)
        ensures
            old(self)@ matches JsonView::Object(entries) ==> final(self)@ == JsonView::Object(
                with_entry(entries, key@, value@),
            ),
            old(self)@ !is Object ==> final(self)@ == old(self)@,
    {
        let mut whole = Json::Null;
        std::mem::swap(self, &mut whole);
        match whole {
            Json::Object(entries) => {
                let mut entries = entries;
                proof {
                    lemma_object_view(entries);
                }
                set_entry(&mut entries, key, value);
                proof {
                    lemma_object_view(entries);
                }
                *self = Json::Object(entries);
            },
            other => {
                *self = other;
            },
        }
    }
}

/// A value that was set is found under its key, and the others are found as before.
pub proof fn lemma_with_entry(entries: Seq<EntryView>, key: Seq<char>, value: JsonView)
    ensures
        lookup(with_entry(entries, key, value), key) == Some(value),
        forall|other: Seq<char>|
            other != key ==> #[trigger] lookup(with_entry(entries, key, value), other) == lookup(
                entries,
                other,
            ),
    decreases entries.len(),
{
    let more = with_entry(entries, key, value);
    let rest = entries.drop_first();
    if entries.len() == 0 {
        assert(more.drop_first() =~= entries);
    } else if entries[0].key == key {
        assert(more.drop_first() =~= rest);
    } else if text::before(key, entries[0].key) {
        assert(more.drop_first() =~= entries);
    } else {
        lemma_with_entry(rest, key, value);
        assert(more.drop_first() =~= with_entry(rest, key, value));
    }
    assert forall|other: Seq<char>| other != key implies #[trigger] lookup(more, other) == lookup(
        entries,
        other,
    ) by {
        if entries.len() > 0 && entries[0].key != key && !text::before(key, entries[0].key) {
            assert(lookup(with_entry(rest, key, value), other) == lookup(rest, other));
            assert(more[0] == entries[0]);
        } else {
            assert(more[0].key == key);
            assert(lookup(more, other) == lookup(more.drop_first(), other));
        }
    }
}

pub proof fn lemma_with_entry_prefix(
    head: Seq<EntryView>,
    tail: Seq<EntryView>,
    key: Seq<char>,
    value: JsonView,
)
    requires
        forall|i: int| 0 <= i < head.len() ==> (#[trigger] head[i]).key != key && !text::before(
            key,
            head[i].key,
        ),
    ensures
        with_entry(head + tail, key, value) == head + with_entry(tail, key, value),
    decreases head.len(),
{
    if head.len() == 0 {
        assert(head + tail =~= tail);
        assert(head + with_entry(tail, key, value) =~= with_entry(tail, key, value));
    } else {
        assert((head + tail).drop_first() =~= head.drop_first() + tail);
        assert((head + tail)[0] == head[0]);
        assert forall|i: int| 0 <= i < head.drop_first().len() implies (
        #[trigger] head.drop_first()[i]).key != key && !text::before(key, head.drop_first()[i].key) by {
            assert(head.drop_first()[i] == head[i + 1]);
        }
        lemma_with_entry_prefix(head.drop_first(), tail, key, value);
        assert(seq![head[0]] + (head.drop_first() + with_entry(tail, key, value)) =~= head
            + with_entry(tail, key, value));
    }
}

/// Sets the value under `key` among the entries of an object.
pub fn set_entry(entries: &mut Vec<(String, Json)>, key: &str, value: Json)
    ensures
        entry_views(final(entries)@) == with_entry(entry_views(old(entries)@), key@, value@),
{
    let ghost all = entry_views(entries@);
    let mut at: usize = 0;
    while at < entries.len() && !same_text(entries[at].0.as_str(), key) && !comes_before(
        key,
        entries[at].0.as_str(),
    )
        invariant
            at <= entries@.len(),
            entries@ == old(entries)@,
            forall|i: int|
                0 <= i < at ==> (#[trigger] all[i]).key != key@ && !text::before(key@, all[i].key),
        decreases entries@.len() - at,
    {
        assert(all[at as int].key == entries@[at as int].0@);
        at += 1;
    }
    proof {
        assert(all =~= all.take(at as int) + all.skip(at as int));
        assert forall|i: int| 0 <= i < at implies (#[trigger] all.take(at as int)[i]).key != key@
            && !text::before(key@, all.take(at as int)[i].key) by {
            assert(all.take(at as int)[i] == all[i]);
        }
        lemma_with_entry_prefix(all.take(at as int), all.skip(at as int), key@, value@);
        if at < all.len() {
            assert(all.skip(at as int)[0] == all[at as int]);
            assert(all.skip(at as int).drop_first() =~= all.skip(at + 1));
        }
    }
    if at < entries.len() && same_text(entries[at].0.as_str(), key) {
        entries.set(at, (owned(key), value));
        assert(entry_views(entries@) =~= all.take(at as int) + (seq![entry(key@, value@)] + all.skip(
            at + 1,
        )));
    } else {
        entries.insert(at, (owned(key), value));
        assert(entry_views(entries@) =~= all.take(at as int) + (seq![entry(key@, value@)] + all.skip(
            at as int,
        )));
    }
}

/// A copy of a list of values.
pub fn copy_items(items: &Vec<Json>) -> (r: Vec<Json>)
    ensures
        text::views(r@) == text::views(items@),
{
    let mut out: Vec<Json> = Vec::new();
    let mut i: usize = 0;
    while i < items.len()
        invariant
            i <= items@.len(),
            out@.len() == i,
            forall|j: int| 0 <= j < i ==> #[trigger] out@[j]@ == items@[j]@,
        decreases items@.len() - i,
    {
        out.push(items[i].duplicate());
        i += 1;
    }
    assert(text::views(out@) =~= text::views(items@));
    out
}

/// Whether the keys of an object's entries are exactly these.
pub fn keys_are(entries: &Vec<(String, Json)>, wanted: &Vec<String>) -> (r: bool)
    ensures
        r == (entry_keys(entry_views(entries@)).to_set() == text::views(wanted@).to_set()),
{
    let ghost have = entry_keys(entry_views(entries@));
    let ghost want = text::views(wanted@);
    let mut i: usize = 0;
    while i < entries.len()
        invariant
            i <= entries@.len(),
            forall|j: int| 0 <= j < i ==> want.contains(#[trigger] have[j]),
        decreases entries@.len() - i,
    {
        assert(have[i as int] == entries@[i as int].0@);
        if !has_text(wanted, entries[i].0.as_str()) {
            assert(have.to_set().contains(have[i as int]));
            assert(!want.to_set().contains(have[i as int]));
            return false;
        }
        i += 1;
    }
    let mut k: usize = 0;
    while k < wanted.len()
        invariant
            k <= wanted@.len(),
            forall|j: int| 0 <= j < k ==> have.contains(#[trigger] want[j]),
        decreases wanted@.len() - k,
    {
        let mut found: bool = false;
        let mut m: usize = 0;
        while m < entries.len() && !found
            invariant
                m <= entries@.len(),
                found ==> have.contains(want[k as int]),
                !found ==> forall|j: int| 0 <= j < m ==> #[trigger] have[j] != want[k as int],
            decreases entries@.len() - m,
        {
            assert(have[m as int] == entries@[m as int].0@);
            if same_text(entries[m].0.as_str(), wanted[k].as_str()) {
                assert(have[m as int] == want[k as int]);
                found = true;
            }
            m += 1;
        }
        if !found {
            assert(want.to_set().contains(want[k as int]));
            assert(!have.to_set().contains(want[k as int]));
            return false;
        }
        k += 1;
    }
    proof {
        assert forall|t: Seq<char>| have.to_set().contains(t) == want.to_set().contains(t) by {
            if have.contains(t) {
                let j = have.index_of(t);
                assert(want.contains(have[j]));
            }
            if want.contains(t) {
                let j = want.index_of(t);
                assert(have.contains(want[j]));
            }
        }
        assert(have.to_set() =~= want.to_set());
    }
    true
}

// ---------------------------------------------------------------------------
// JSON text
// ---------------------------------------------------------------------------

/// `serde_json::Value`, the outside shape of a JSON value.
#[verifier::external_type_specification]
#[verifier::external_body]
pub struct ExValue(serde_json::Value);

/// The compact JSON text of a value.
pub uninterp spec fn canonical_text(value: JsonView) -> Seq<char>;

/// What a JSON text says, or why it is none.
pub uninterp spec fn parsed_json(text: Seq<char>) -> Result<JsonView, Seq<char>>;

/// Converts a value to `serde_json::Value`, variant by variant.
#[verifier::external_body]
fn to_value(value: &Json) -> serde_json::Value {
    match value {
        Json::Null => serde_json::Value::Null,
        Json::Bool(b) => serde_json::Value::Bool(*b),
        Json::Int(n) => serde_json::Value::from(*n),
        Json::Number(s) => serde_json::from_str(s).unwrap_or(serde_json::Value::Null),
        Json::Text(s) => serde_json::Value::String(s.clone()),
        Json::Array(items) => serde_json::Value::Array(items.iter().map(to_value).collect()),
        Json::Object(entries) => serde_json::Value::Object(
            entries.iter().map(|(key, value)| (key.clone(), to_value(value))).collect(),
        ),
    }
}

/// Converts a `serde_json::Value`, variant by variant.
#[verifier::external_body]
fn from_value(value: serde_json::Value) -> Json {
    match value {
        serde_json::Value::Null => Json::Null,
        serde_json::Value::Bool(b) => Json::Bool(b),
        serde_json::Value::Number(n) => match n.as_i64() {
            Some(integer) => Json::Int(integer),
            None => Json::Number(n.to_string()),
        },
        serde_json::Value::String(s) => Json::Text(s),
        serde_json::Value::Array(items) => Json::Array(items.into_iter().map(from_value).collect()),
        serde_json::Value::Object(map) => Json::Object(
            map.into_iter().map(|(key, value)| (key, from_value(value))).collect(),
        ),
    }
}

/// Where `text` is the text of a whole value, it is the text of no other such value.
pub open spec fn tells(value: JsonView, text: Seq<char>) -> bool {
    whole(value) ==> forall|other: JsonView|
        whole(other) && #[trigger] canonical_text(other) == text ==> other == value
}

/// `serde_json::to_string`: the text of a value is a function of the value, and two values
/// that hold no fractions do not have one text.
#[verifier::external_body]
pub(crate) fn canonical_sync_value(value: &Json) -> (r: String)
    ensures
        r@ == canonical_text(value@),
        tells(value@, r@),
{
    serde_json::to_string(&to_value(value)).unwrap_or_else(|_| "null".to_string())
}

/// What the reading of a text came to.
pub open spec fn reading(result: Result<Json, String>) -> Result<JsonView, Seq<char>> {
    match result {
        Ok(value) => Ok(value@),
        Err(reason) => Err(reason@),
    }
}

/// Where `text` is the text of a plain value, the reading came to that value.
pub open spec fn rereads(text: Seq<char>, result: Result<JsonView, Seq<char>>) -> bool {
    forall|value: JsonView|
        plain(value, 100) && #[trigger] canonical_text(value) == text ==> result == Ok::<
            JsonView,
            Seq<char>,
        >(value)
}

/// `serde_json::from_str`: what a text says is a function of the text, and the
/// text of a plain value reads as that value again. The reader gives up on
/// values nested more than 127 deep, so the second claim stops at 100.
#[verifier::external_body]
pub(crate) fn parse_json(text: &str) -> (r: Result<Json, String>)
    ensures
        reading(r) == parsed_json(text@),
        rereads(text@, reading(r)),
{
    serde_json::from_str(text).map(from_value).map_err(|error| error.to_string())
}

/// A value of integers, texts, lists and objects with ascending keys, nested at
/// most `depth` deep.
pub open spec fn plain(value: JsonView, depth: nat) -> bool
    decreases value,
{
    match value {
        JsonView::Null => true,
        JsonView::Bool(_) => true,
        JsonView::Int(n) => i64::MIN <= n <= i64::MAX,
        JsonView::Number(_) => false,
        JsonView::Text(_) => true,
        JsonView::Array(items) => depth > 0 && forall|i: int|
            0 <= i < items.len() ==> plain(#[trigger] items[i], (depth - 1) as nat),
        JsonView::Object(entries) => {
            &&& depth > 0
            &&& text::ascending(entry_keys(entries))
            &&& forall|i: int|
                0 <= i < entries.len() ==> plain(
                    (#[trigger] entries[i]).value,
                    (depth - 1) as nat,
                )
        },
    }
}

/// All numbers in a value are integers, and the keys of its objects ascend.
pub open spec fn integral(value: JsonView) -> bool
    decreases value,
{
    match value {
        JsonView::Null => true,
        JsonView::Bool(_) => true,
        JsonView::Int(n) => i64::MIN <= n <= i64::MAX,
        JsonView::Number(_) => false,
        JsonView::Text(_) => true,
        JsonView::Array(items) => forall|i: int|
            0 <= i < items.len() ==> integral(#[trigger] items[i]),
        JsonView::Object(entries) => {
            &&& text::ascending(entry_keys(entries))
            &&& forall|i: int| 0 <= i < entries.len() ==> integral((#[trigger] entries[i]).value)
        },
    }
}

/// A value, where there is one, is integral.
pub open spec fn opt_integral(value: Option<JsonView>) -> bool {
    value is Some ==> integral(value->0)
}

/// The text of a count that is too large for an integer of a value.
pub open spec fn is_wide_count(said: Seq<char>) -> bool {
    exists|n: u64| n > i64::MAX && said == #[trigger] text::natural(n as nat)
}

/// The same, with counts that are too large for an integer.
pub open spec fn whole(value: JsonView) -> bool
    decreases value,
{
    match value {
        JsonView::Null => true,
        JsonView::Bool(_) => true,
        JsonView::Int(n) => i64::MIN <= n <= i64::MAX,
        JsonView::Number(said) => is_wide_count(said),
        JsonView::Text(_) => true,
        JsonView::Array(items) => forall|i: int|
            0 <= i < items.len() ==> whole(#[trigger] items[i]),
        JsonView::Object(entries) => {
            &&& text::ascending(entry_keys(entries))
            &&& forall|i: int| 0 <= i < entries.len() ==> whole((#[trigger] entries[i]).value)
        },
    }
}

pub proof fn lemma_whole(value: JsonView)
    requires
        integral(value),
    ensures
        whole(value),
    decreases value,
{
    match value {
        JsonView::Array(items) => {
            assert forall|i: int| 0 <= i < items.len() implies whole(#[trigger] items[i]) by {
                assert(integral(items[i]));
                lemma_whole(items[i]);
            }
        },
        JsonView::Object(entries) => {
            assert forall|i: int| 0 <= i < entries.len() implies whole(
                (#[trigger] entries[i]).value,
            ) by {
                assert(integral(entries[i].value));
                lemma_whole(entries[i].value);
            }
        },
        _ => {},
    }
}

proof fn lemma_alike_integral(a: JsonView, b: JsonView)
    requires
        integral(a),
        alike(a, b),
    ensures
        a == b,
    decreases a,
{
    match (a, b) {
        (JsonView::Array(x), JsonView::Array(y)) => {
            assert forall|i: int| 0 <= i < x.len() implies x[i] == y[i] by {
                assert(integral(x[i]) && alike(x[i], y[i]));
                lemma_alike_integral(x[i], y[i]);
            }
            assert(x =~= y);
        },
        (JsonView::Object(x), JsonView::Object(y)) => {
            assert forall|i: int| 0 <= i < x.len() implies x[i] == y[i] by {
                assert(x[i].key == y[i].key && alike(x[i].value, y[i].value));
                lemma_alike_integral(x[i].value, y[i].value);
            }
            assert(x =~= y);
        },
        _ => {},
    }
}

/// Of integral values equality is identity.
pub proof fn lemma_opt_alike(a: Option<JsonView>, b: Option<JsonView>)
    requires
        opt_integral(a),
        opt_integral(b),
    ensures
        opt_alike(a, b) == (a == b),
{
    if a is Some && b is Some {
        lemma_alike_itself(a->0);
        if alike(a->0, b->0) {
            lemma_alike_integral(a->0, b->0);
        }
    }
}

} // verus!
