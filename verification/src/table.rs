//! Tables: finite maps whose entries stand in the ascending order of their keys.
use crate::text;
use crate::text::{comes_before, owned, same_text};
use vstd::prelude::*;

verus! {

/// A key by which a table orders its entries.
pub trait TableKey: View + Sized {
    /// The order of keys.
    spec fn precedes(a: Self::V, b: Self::V) -> bool;

    /// The order is strict and total.
    proof fn lemma_order(a: Self::V, b: Self::V, c: Self::V)
        ensures
            !Self::precedes(a, a),
            Self::precedes(a, b) && Self::precedes(b, c) ==> Self::precedes(a, c),
            a == b || Self::precedes(a, b) || Self::precedes(b, a),
    ;

    /// Whether this key comes before the other.
    fn is_before(&self, other: &Self) -> (r: bool)
        ensures
            r == Self::precedes(self@, other@),
    ;

    /// Whether the two keys are the same.
    fn is_same(&self, other: &Self) -> (r: bool)
        ensures
            r == (self@ == other@),
    ;

    /// The same key again.
    fn again(&self) -> (r: Self)
        ensures
            r@ == self@,
    ;
}

/// A value that can be copied and compared.
pub trait Record: View + Sized {
    /// The same value again.
    fn duplicate(&self) -> (r: Self)
        ensures
            r@ == self@,
    ;

    /// Whether the two values are the same.
    fn same(&self, other: &Self) -> (r: bool)
        ensures
            r == (self@ == other@),
    ;
}

impl Record for String {
    fn duplicate(&self) -> (r: Self) {
        owned(self.as_str())
    }

    fn same(&self, other: &Self) -> (r: bool) {
        same_text(self.as_str(), other.as_str())
    }
}

impl Record for bool {
    fn duplicate(&self) -> (r: Self) {
        *self
    }

    fn same(&self, other: &Self) -> (r: bool) {
        *self == *other
    }
}

/// Copies of records.
pub fn copy_records<T: Record>(list: &Vec<T>) -> (r: Vec<T>)
    ensures
        text::views(r@) == text::views(list@),
{
    let mut out: Vec<T> = Vec::new();
    let mut i: usize = 0;
    while i < list.len()
        invariant
            i <= list@.len(),
            out@.len() == i,
            forall|j: int| 0 <= j < i ==> (#[trigger] out@[j])@ == list@[j]@,
        decreases list@.len() - i,
    {
        out.push(list[i].duplicate());
        i += 1;
    }
    assert(text::views(out@) =~= text::views(list@));
    out
}

/// Whether two lists hold the same records.
pub fn same_records<T: Record>(a: &Vec<T>, b: &Vec<T>) -> (same: bool)
    ensures
        same == (text::views(a@) == text::views(b@)),
{
    assert(text::views(a@).len() == a@.len() && text::views(b@).len() == b@.len());
    if a.len() != b.len() {
        return false;
    }
    let mut i: usize = 0;
    while i < a.len()
        invariant
            i <= a@.len() == b@.len(),
            forall|j: int| 0 <= j < i ==> (#[trigger] a@[j])@ == b@[j]@,
        decreases a@.len() - i,
    {
        if !a[i].same(&b[i]) {
            assert(text::views(a@)[i as int] != text::views(b@)[i as int]);
            return false;
        }
        i += 1;
    }
    assert(text::views(a@) =~= text::views(b@));
    true
}

/// A copy of an optional record.
pub fn copy_record_opt<T: Record>(value: &Option<T>) -> (r: Option<T>)
    ensures
        text::opt_view(r) == text::opt_view(*value),
{
    match value {
        Some(inner) => Some(inner.duplicate()),
        None => None,
    }
}

/// Whether two optional records are the same.
pub fn same_record_opt<T: Record>(a: &Option<T>, b: &Option<T>) -> (same: bool)
    ensures
        same == (text::opt_view(*a) == text::opt_view(*b)),
{
    match (a, b) {
        (Some(x), Some(y)) => x.same(y),
        (None, None) => true,
        _ => false,
    }
}

/// A copy of a list of identifiers.
pub fn copy_ids(list: &Vec<i64>) -> (r: Vec<i64>)
    ensures
        r@ == list@,
{
    let mut out: Vec<i64> = Vec::new();
    let mut i: usize = 0;
    while i < list.len()
        invariant
            i <= list@.len(),
            out@ == list@.take(i as int),
        decreases list@.len() - i,
    {
        out.push(list[i]);
        assert(list@.take(i + 1) =~= list@.take(i as int).push(list@[i as int]));
        i += 1;
    }
    assert(list@.take(i as int) =~= list@);
    out
}

/// Whether two lists hold the same identifiers.
pub fn same_ids(a: &Vec<i64>, b: &Vec<i64>) -> (same: bool)
    ensures
        same == (a@ == b@),
{
    if a.len() != b.len() {
        return false;
    }
    let mut i: usize = 0;
    while i < a.len()
        invariant
            i <= a@.len() == b@.len(),
            forall|j: int| 0 <= j < i ==> #[trigger] a@[j] == b@[j],
        decreases a@.len() - i,
    {
        if a[i] != b[i] {
            return false;
        }
        i += 1;
    }
    assert(a@ =~= b@);
    true
}

impl TableKey for String {
    open spec fn precedes(a: Seq<char>, b: Seq<char>) -> bool {
        text::before(a, b)
    }

    proof fn lemma_order(a: Seq<char>, b: Seq<char>, c: Seq<char>) {
        assert(<String as TableKey>::precedes(a, a) == text::before(a, a));
        assert(<String as TableKey>::precedes(a, b) == text::before(a, b));
        text::lemma_before_irreflexive(a);
        text::lemma_before_total(a, b);
        if text::before(a, b) && text::before(b, c) {
            text::lemma_before_transitive(a, b, c);
        }
    }

    fn is_before(&self, other: &Self) -> (r: bool) {
        comes_before(self.as_str(), other.as_str())
    }

    fn is_same(&self, other: &Self) -> (r: bool) {
        same_text(self.as_str(), other.as_str())
    }

    fn again(&self) -> (r: Self) {
        owned(self.as_str())
    }
}

impl TableKey for i64 {
    open spec fn precedes(a: i64, b: i64) -> bool {
        a < b
    }

    proof fn lemma_order(a: i64, b: i64, c: i64) {
    }

    fn is_before(&self, other: &Self) -> (r: bool) {
        *self < *other
    }

    fn is_same(&self, other: &Self) -> (r: bool) {
        *self == *other
    }

    fn again(&self) -> (r: Self) {
        *self
    }
}

/// Two texts that make up one key, the first deciding first.
pub struct Pair {
    pub first: String,
    pub second: String,
}

/// What a pair of texts says.
#[verifier::ext_equal]
pub struct PairView {
    pub first: Seq<char>,
    pub second: Seq<char>,
}

impl View for Pair {
    type V = PairView;

    open spec fn view(&self) -> PairView {
        PairView { first: self.first@, second: self.second@ }
    }
}

pub open spec fn pair(first: Seq<char>, second: Seq<char>) -> PairView {
    PairView { first, second }
}

impl Pair {
    pub fn new(first: &str, second: &str) -> (r: Pair)
        ensures
            r@ == pair(first@, second@),
    {
        Pair { first: owned(first), second: owned(second) }
    }
}

impl TableKey for Pair {
    open spec fn precedes(a: PairView, b: PairView) -> bool {
        text::before(a.first, b.first) || a.first == b.first && text::before(a.second, b.second)
    }

    proof fn lemma_order(a: PairView, b: PairView, c: PairView) {
        String::lemma_order(a.first, b.first, c.first);
        String::lemma_order(a.second, b.second, c.second);
    }

    fn is_before(&self, other: &Self) -> (r: bool) {
        comes_before(self.first.as_str(), other.first.as_str()) || same_text(
            self.first.as_str(),
            other.first.as_str(),
        ) && comes_before(self.second.as_str(), other.second.as_str())
    }

    fn is_same(&self, other: &Self) -> (r: bool) {
        same_text(self.first.as_str(), other.first.as_str()) && same_text(
            self.second.as_str(),
            other.second.as_str(),
        )
    }

    fn again(&self) -> (r: Self) {
        Pair::new(self.first.as_str(), self.second.as_str())
    }
}

/// Three texts that make up one key, the earlier ones deciding first.
pub struct Triple {
    pub first: String,
    pub second: String,
    pub third: String,
}

/// What a triple of texts says.
#[verifier::ext_equal]
pub struct TripleView {
    pub first: Seq<char>,
    pub second: Seq<char>,
    pub third: Seq<char>,
}

impl View for Triple {
    type V = TripleView;

    open spec fn view(&self) -> TripleView {
        TripleView { first: self.first@, second: self.second@, third: self.third@ }
    }
}

pub open spec fn triple(first: Seq<char>, second: Seq<char>, third: Seq<char>) -> TripleView {
    TripleView { first, second, third }
}

impl Triple {
    pub fn new(first: &str, second: &str, third: &str) -> (r: Triple)
        ensures
            r@ == triple(first@, second@, third@),
    {
        Triple { first: owned(first), second: owned(second), third: owned(third) }
    }
}

impl TableKey for Triple {
    open spec fn precedes(a: TripleView, b: TripleView) -> bool {
        text::before(a.first, b.first) || a.first == b.first && (text::before(a.second, b.second)
            || a.second == b.second && text::before(a.third, b.third))
    }

    proof fn lemma_order(a: TripleView, b: TripleView, c: TripleView) {
        String::lemma_order(a.first, b.first, c.first);
        String::lemma_order(a.second, b.second, c.second);
        String::lemma_order(a.third, b.third, c.third);
    }

    fn is_before(&self, other: &Self) -> (r: bool) {
        comes_before(self.first.as_str(), other.first.as_str()) || same_text(
            self.first.as_str(),
            other.first.as_str(),
        ) && (comes_before(self.second.as_str(), other.second.as_str()) || same_text(
            self.second.as_str(),
            other.second.as_str(),
        ) && comes_before(self.third.as_str(), other.third.as_str()))
    }

    fn is_same(&self, other: &Self) -> (r: bool) {
        same_text(self.first.as_str(), other.first.as_str()) && same_text(
            self.second.as_str(),
            other.second.as_str(),
        ) && same_text(self.third.as_str(), other.third.as_str())
    }

    fn again(&self) -> (r: Self) {
        Triple::new(self.first.as_str(), self.second.as_str(), self.third.as_str())
    }
}

/// The first `i + 1` of a list are the first `i` and one more.
pub proof fn lemma_take_more<T>(list: Seq<T>, i: int)
    requires
        0 <= i < list.len(),
    ensures
        list.take(i + 1) == list.take(i).push(list[i]),
        forall|x: T| #[trigger]
            list.take(i + 1).contains(x) == (list.take(i).contains(x) || x == list[i]),
{
    let more = list.take(i + 1);
    let less = list.take(i);
    assert(more =~= less.push(list[i]));
    assert forall|x: T| #[trigger] more.contains(x) == (less.contains(x) || x == list[i]) by {
        assert(more[i] == list[i]);
        if less.contains(x) {
            let j = less.index_of(x);
            assert(more[j] == x);
        }
        if more.contains(x) && x != list[i] {
            let j = more.index_of(x);
            assert(less[j] == x);
        }
    }
}

/// Keys in ascending order, none twice.
pub open spec fn in_order<K: TableKey>(keys: Seq<K::V>) -> bool {
    forall|i: int, j: int|
        0 <= i < j < keys.len() ==> K::precedes(#[trigger] keys[i], #[trigger] keys[j])
}

/// `keys` lists the members of `members` in ascending order.
pub open spec fn lists<K: TableKey>(keys: Seq<K::V>, members: Set<K::V>) -> bool {
    in_order::<K>(keys) && keys.to_set() == members
}

/// Keys in ascending order stand there once.
pub proof fn lemma_in_order_distinct<K: TableKey>(keys: Seq<K::V>)
    requires
        in_order::<K>(keys),
    ensures
        keys.no_duplicates(),
{
    assert forall|i: int, j: int| 0 <= i < keys.len() && 0 <= j < keys.len() && i != j implies keys[i]
        != keys[j] by {
        if i < j {
            assert(K::precedes(keys[i], keys[j]));
        } else {
            assert(K::precedes(keys[j], keys[i]));
        }
        K::lemma_order(keys[i], keys[j], keys[i]);
    }
}

/// A set of keys has one ascending list.
pub proof fn lemma_lists_unique<K: TableKey>(a: Seq<K::V>, b: Seq<K::V>, members: Set<K::V>)
    requires
        lists::<K>(a, members),
        lists::<K>(b, members),
    ensures
        a == b,
    decreases a.len(),
{
    if a.len() == 0 {
        if b.len() > 0 {
            assert(b.to_set().contains(b[0]));
        }
        assert(a =~= b);
    } else {
        assert(a.to_set().contains(a.last()));
        let j = choose|j: int| 0 <= j < b.len() && b[j] == a.last();
        assert(b.to_set().contains(b.last()));
        let i = choose|i: int| 0 <= i < a.len() && a[i] == b.last();
        if i < a.len() - 1 {
            assert(K::precedes(a[i], a.last()));
            K::lemma_order(a[i], a.last(), a[i]);
            if j < b.len() - 1 {
                assert(K::precedes(b[j], b.last()));
            }
        }
        let x = a.drop_last();
        let y = b.drop_last();
        assert forall|t: K::V| x.to_set().contains(t) == y.to_set().contains(t) by {
            if x.to_set().contains(t) {
                let k = choose|k: int| 0 <= k < x.len() && x[k] == t;
                assert(K::precedes(a[k], a.last()));
                K::lemma_order(a[k], a.last(), a[k]);
                assert(a.to_set().contains(a[k]));
                let m = choose|m: int| 0 <= m < b.len() && b[m] == t;
                assert(y[m] == t);
            }
            if y.to_set().contains(t) {
                let k = choose|k: int| 0 <= k < y.len() && y[k] == t;
                assert(K::precedes(b[k], b.last()));
                K::lemma_order(b[k], b.last(), b[k]);
                assert(b.to_set().contains(b[k]));
                let m = choose|m: int| 0 <= m < a.len() && a[m] == t;
                assert(x[m] == t);
            }
        }
        assert(x.to_set() =~= y.to_set());
        lemma_lists_unique::<K>(x, y, x.to_set());
        assert(a =~= x.push(a.last()));
        assert(b =~= y.push(b.last()));
    }
}

/// The members of a set of keys in ascending order.
pub open spec fn ordered<K: TableKey>(members: Set<K::V>) -> Seq<K::V> {
    choose|keys: Seq<K::V>| lists::<K>(keys, members)
}

/// The ascending list of a set of keys is the one that lists it.
pub proof fn lemma_ordered_is<K: TableKey>(keys: Seq<K::V>, members: Set<K::V>)
    requires
        lists::<K>(keys, members),
    ensures
        ordered::<K>(members) == keys,
{
    lemma_lists_unique::<K>(ordered::<K>(members), keys, members);
}

/// A list in order, with one more key in its place.
proof fn lemma_one_more<K: TableKey>(keys: Seq<K::V>, one: K::V) -> (more: Seq<K::V>)
    requires
        in_order::<K>(keys),
        !keys.contains(one),
    ensures
        in_order::<K>(more),
        more.to_set() == keys.to_set().insert(one),
    decreases keys.len(),
{
    if keys.len() == 0 {
        let more = seq![one];
        assert(more.to_set() =~= keys.to_set().insert(one)) by {
            assert(more[0] == one);
        }
        more
    } else {
        let last = keys.last();
        let head = keys.drop_last();
        K::lemma_order(one, last, one);
        assert(keys.contains(last));
        assert(keys =~= head.push(last));
        head.lemma_push_to_set_commute(last);
        if K::precedes(last, one) {
            let more = keys.push(one);
            keys.lemma_push_to_set_commute(one);
            assert forall|i: int, j: int| 0 <= i < j < more.len() implies K::precedes(
                #[trigger] more[i],
                #[trigger] more[j],
            ) by {
                if j == keys.len() && i < keys.len() - 1 {
                    assert(K::precedes(keys[i], keys[keys.len() - 1]));
                    K::lemma_order(keys[i], last, one);
                }
            }
            more
        } else {
            assert forall|k: int| 0 <= k < head.len() implies head[k] != one by {
                assert(keys[k] == head[k]);
            }
            let less = lemma_one_more::<K>(head, one);
            let more = less.push(last);
            less.lemma_push_to_set_commute(last);
            assert forall|i: int, j: int| 0 <= i < j < more.len() implies K::precedes(
                #[trigger] more[i],
                #[trigger] more[j],
            ) by {
                if j == less.len() {
                    assert(less.to_set().contains(less[i]));
                    if less[i] != one {
                        assert(head.to_set().contains(less[i]));
                        let k = head.index_of(less[i]);
                        assert(K::precedes(keys[k], keys[keys.len() - 1]));
                    }
                }
            }
            assert(more.to_set() =~= keys.to_set().insert(one));
            more
        }
    }
}

/// A finite set of keys has an ascending list.
pub proof fn lemma_has_order<K: TableKey>(members: Set<K::V>)
    requires
        members.finite(),
    ensures
        lists::<K>(ordered::<K>(members), members),
    decreases members.len(),
{
    if members.len() == 0 {
        members.lemma_len0_is_empty();
        let none = Seq::<K::V>::empty();
        assert(none.to_set() =~= members);
        assert(lists::<K>(none, members));
    } else {
        let one = members.choose();
        let rest = members.remove(one);
        lemma_has_order::<K>(rest);
        let keys = ordered::<K>(rest);
        assert(!keys.contains(one)) by {
            assert(keys.to_set().contains(one) == rest.contains(one));
        }
        let more = lemma_one_more::<K>(keys, one);
        assert(rest.insert(one) =~= members);
        assert(lists::<K>(more, members));
    }
}

/// The sorted list of a finite set of texts ascends and holds the texts of the set.
pub proof fn lemma_texts_sorted(members: Set<Seq<char>>)
    requires
        members.finite(),
    ensures
        text::ascending(text::sorted(members)),
        text::sorted(members).to_set() == members,
        text::sorted(members).no_duplicates(),
{
    lemma_has_order::<String>(members);
    let list = ordered::<String>(members);
    assert(text::ascending(list)) by {
        assert forall|i: int, j: int| 0 <= i < j < list.len() implies text::before(
            #[trigger] list[i],
            #[trigger] list[j],
        ) by {
            assert(String::precedes(list[i], list[j]));
        }
    }
    text::lemma_sorted_is(list);
    lemma_in_order_distinct::<String>(list);
}

/// A finite map from keys to values.
pub struct Table<K: TableKey, V: View> {
    entries: Vec<(K, V)>,
}

/// The views of the keys of a list of entries.
spec fn key_views<K: TableKey, V: View>(entries: Seq<(K, V)>) -> Seq<K::V> {
    Seq::new(entries.len(), |i: int| entries[i].0@)
}

/// The map that a list of entries stands for.
spec fn entry_map<K: TableKey, V: View>(entries: Seq<(K, V)>) -> Map<K::V, V::V> {
    Map::new(
        |k: K::V| key_views(entries).contains(k),
        |k: K::V| entries[key_views(entries).index_of(k)].1@,
    )
}

proof fn lemma_entry_at<K: TableKey, V: View>(entries: Seq<(K, V)>, i: int)
    requires
        in_order::<K>(key_views(entries)),
        0 <= i < entries.len(),
    ensures
        entry_map(entries).dom().contains(entries[i].0@),
        entry_map(entries)[entries[i].0@] == entries[i].1@,
{
    let keys = key_views(entries);
    assert(keys[i] == entries[i].0@);
    assert(keys.contains(entries[i].0@));
    let j = keys.index_of(entries[i].0@);
    assert(keys[j] == keys[i]);
    if j != i {
        K::lemma_order(keys[i], keys[j], keys[i]);
        if i < j {
            assert(K::precedes(keys[i], keys[j]));
        } else {
            assert(K::precedes(keys[j], keys[i]));
        }
    }
}

proof fn lemma_map_from_entries<K: TableKey, V: View>(entries: Seq<(K, V)>, m: Map<K::V, V::V>)
    requires
        in_order::<K>(key_views(entries)),
        key_views(entries).to_set() == m.dom(),
        forall|i: int| 0 <= i < entries.len() ==> m[(#[trigger] entries[i]).0@] == entries[i].1@,
    ensures
        entry_map(entries) == m,
{
    let e = entry_map(entries);
    assert forall|k: K::V| e.dom().contains(k) == m.dom().contains(k) by {
        assert(key_views(entries).to_set().contains(k) == key_views(entries).contains(k));
    }
    assert forall|k: K::V| e.dom().contains(k) implies e[k] == m[k] by {
        let i = choose|i: int| 0 <= i < entries.len() && key_views(entries)[i] == k;
        lemma_entry_at(entries, i);
        assert(m[entries[i].0@] == entries[i].1@);
    }
    assert(e =~= m);
}

impl<K: TableKey, V: View> View for Table<K, V> {
    type V = Map<K::V, V::V>;

    closed spec fn view(&self) -> Map<K::V, V::V> {
        entry_map(self.entries@)
    }
}

impl<K: TableKey, V: View> Table<K, V> {
    #[verifier::type_invariant]
    spec fn inv(self) -> bool {
        in_order::<K>(key_views(self.entries@))
    }

    /// The keys of the table in ascending order.
    pub closed spec fn keys(&self) -> Seq<K::V> {
        key_views(self.entries@)
    }

    /// A table without entries.
    pub fn new() -> (r: Self)
        ensures
            r@ == Map::<K::V, V::V>::empty(),
    {
        let entries: Vec<(K, V)> = Vec::new();
        assert(entry_map(entries@) =~= Map::<K::V, V::V>::empty());
        Table { entries }
    }

    /// The number of entries.
    pub fn len(&self) -> (n: usize)
        ensures
            n == self.keys().len(),
            lists::<K>(self.keys(), self@.dom()),
            self@.dom().finite(),
            n == self@.dom().len(),
    {
        proof {
            use_type_invariant(self);
            assert forall|k: K::V| self.keys().to_set().contains(k) == self@.dom().contains(
                k,
            ) by {}
            assert(self.keys().to_set() =~= self@.dom());
            let keys = self.keys();
            vstd::seq_lib::seq_to_set_is_finite(keys);
            lemma_in_order_distinct::<K>(keys);
            keys.unique_seq_to_set();
        }
        self.entries.len()
    }

    /// The key at this place of the order.
    pub fn key_at(&self, i: usize) -> (r: &K)
        requires
            i < self.keys().len(),
        ensures
            r@ == self.keys()[i as int],
    {
        &self.entries[i].0
    }

    /// The value at this place of the order.
    pub fn value_at(&self, i: usize) -> (r: &V)
        requires
            i < self.keys().len(),
        ensures
            self@.dom().contains(self.keys()[i as int]),
            r@ == self@[self.keys()[i as int]],
    {
        proof {
            use_type_invariant(self);
            lemma_entry_at(self.entries@, i as int);
        }
        &self.entries[i].1
    }

    /// The place of `key`, or the place where it would stand.
    fn place(&self, key: &K) -> (r: (bool, usize))
        ensures
            r.1 <= self.entries@.len(),
            r.0 == self@.dom().contains(key@),
            r.0 ==> r.1 < self.entries@.len() && self.entries@[r.1 as int].0@ == key@,
            !r.0 ==> forall|j: int|
                0 <= j < r.1 ==> K::precedes(#[trigger] self.entries@[j].0@, key@),
            !r.0 ==> forall|j: int|
                r.1 <= j < self.entries@.len() ==> K::precedes(
                    key@,
                    #[trigger] self.entries@[j].0@,
                ),
    {
        proof {
            use_type_invariant(self);
        }
        let ghost keys = key_views(self.entries@);
        let mut low: usize = 0;
        let mut high: usize = self.entries.len();
        while low < high
            invariant
                low <= high <= self.entries@.len(),
                forall|j: int| 0 <= j < low ==> K::precedes(#[trigger] keys[j], key@),
                forall|j: int| high <= j < keys.len() ==> K::precedes(key@, #[trigger] keys[j]),
            decreases high - low,
        {
            let middle: usize = low + (high - low) / 2;
            assert(keys[middle as int] == self.entries@[middle as int].0@);
            if self.entries[middle].0.is_same(key) {
                proof {
                    lemma_entry_at(self.entries@, middle as int);
                }
                return (true, middle);
            }
            if self.entries[middle].0.is_before(key) {
                proof {
                    assert forall|j: int| 0 <= j < middle + 1 implies K::precedes(
                        #[trigger] keys[j],
                        key@,
                    ) by {
                        if j < middle {
                            assert(K::precedes(keys[j], keys[middle as int]));
                            K::lemma_order(keys[j], keys[middle as int], key@);
                        }
                    }
                }
                low = middle + 1;
            } else {
                proof {
                    K::lemma_order(keys[middle as int], key@, key@);
                    assert forall|j: int| middle <= j < keys.len() implies K::precedes(
                        key@,
                        #[trigger] keys[j],
                    ) by {
                        if j > middle {
                            assert(K::precedes(keys[middle as int], keys[j]));
                            K::lemma_order(key@, keys[middle as int], keys[j]);
                        }
                    }
                }
                high = middle;
            }
        }
        proof {
            if keys.contains(key@) {
                let j = keys.index_of(key@);
                K::lemma_order(key@, key@, key@);
                if j < low {
                    assert(K::precedes(keys[j], key@));
                } else {
                    assert(K::precedes(key@, keys[j]));
                }
            }
            assert forall|j: int| 0 <= j < low implies K::precedes(
                #[trigger] self.entries@[j].0@,
                key@,
            ) by {
                assert(K::precedes(keys[j], key@));
            }
            assert forall|j: int| low <= j < self.entries@.len() implies K::precedes(
                key@,
                #[trigger] self.entries@[j].0@,
            ) by {
                assert(K::precedes(key@, keys[j]));
            }
        }
        (false, low)
    }

    /// The value under `key`.
    pub fn get(&self, key: &K) -> (r: Option<&V>)
        ensures
            r is Some == self@.dom().contains(key@),
            r matches Some(value) ==> value@ == self@[key@],
    {
        let (found, at) = self.place(key);
        if found {
            proof {
                use_type_invariant(self);
                lemma_entry_at(self.entries@, at as int);
            }
            Some(&self.entries[at].1)
        } else {
            None
        }
    }

    /// Whether there is a value under `key`.
    pub fn has(&self, key: &K) -> (r: bool)
        ensures
            r == self@.dom().contains(key@),
    {
        let (found, _at) = self.place(key);
        found
    }

    /// Puts `value` under `key`, in place of what stood there.
    pub fn put(&mut self, key: K, value: V)
        ensures
            final(self)@ == old(self)@.insert(key@, value@),
    {
        let (found, at) = self.place(&key);
        proof {
            use_type_invariant(&*self);
        }
        let mut entries: Vec<(K, V)> = Vec::new();
        std::mem::swap(&mut entries, &mut self.entries);
        let ghost was = entries@;
        let ghost keys = key_views(was);
        let ghost goal = old(self)@.insert(key@, value@);
        let ghost key_view = key@;
        if found {
            entries.set(at, (key, value));
            proof {
                assert(key_views(entries@) =~= keys);
                assert forall|k: K::V| keys.to_set().contains(k) == goal.dom().contains(k) by {
                    assert(keys[at as int] == key_view);
                }
                assert(keys.to_set() =~= goal.dom());
                assert forall|i: int| 0 <= i < entries@.len() implies goal[(
                #[trigger] entries@[i]).0@] == entries@[i].1@ by {
                    lemma_entry_at(was, i);
                    if i != at {
                        K::lemma_order(keys[i], keys[at as int], keys[i]);
                        if i < at {
                            assert(K::precedes(keys[i], keys[at as int]));
                        } else {
                            assert(K::precedes(keys[at as int], keys[i]));
                        }
                    }
                }
                lemma_map_from_entries(entries@, goal);
            }
        } else {
            entries.insert(at, (key, value));
            proof {
                let next = key_views(entries@);
                assert(next =~= keys.insert(at as int, key_view));
                assert forall|i: int, j: int| 0 <= i < j < next.len() implies K::precedes(
                    #[trigger] next[i],
                    #[trigger] next[j],
                ) by {
                    let x = if i < at {
                        i
                    } else {
                        i - 1
                    };
                    let y = if j < at {
                        j
                    } else {
                        j - 1
                    };
                    if i == at {
                        assert(K::precedes(key_view, was[y].0@));
                    } else if j == at {
                        assert(K::precedes(was[x].0@, key_view));
                    } else {
                        assert(K::precedes(keys[x], keys[y]));
                    }
                }
                assert forall|k: K::V| next.to_set().contains(k) == goal.dom().contains(k) by {
                    if next.contains(k) {
                        let m = next.index_of(k);
                        if m < at {
                            assert(keys[m] == k);
                        } else if m > at {
                            assert(keys[m - 1] == k);
                        }
                    }
                    if keys.contains(k) {
                        let m = keys.index_of(k);
                        if m < at {
                            assert(next[m] == k);
                        } else {
                            assert(next[m + 1] == k);
                        }
                    }
                    assert(next[at as int] == key_view);
                }
                assert(next.to_set() =~= goal.dom());
                assert forall|i: int| 0 <= i < entries@.len() implies goal[(
                #[trigger] entries@[i]).0@] == entries@[i].1@ by {
                    if i < at {
                        assert(entries@[i] == was[i]);
                        lemma_entry_at(was, i);
                        K::lemma_order(key_view, was[i].0@, key_view);
                    } else if i > at {
                        assert(entries@[i] == was[i - 1]);
                        lemma_entry_at(was, i - 1);
                        K::lemma_order(key_view, was[i - 1].0@, key_view);
                    }
                }
                lemma_map_from_entries(entries@, goal);
            }
        }
        self.entries = entries;
    }

    /// Removes the value under `key`; says whether there was one.
    pub fn remove(&mut self, key: &K) -> (found: bool)
        ensures
            final(self)@ == old(self)@.remove(key@),
            found == old(self)@.dom().contains(key@),
    {
        let (found, at) = self.place(key);
        proof {
            use_type_invariant(&*self);
        }
        if !found {
            assert(self@ =~= old(self)@.remove(key@));
            return false;
        }
        let mut entries: Vec<(K, V)> = Vec::new();
        std::mem::swap(&mut entries, &mut self.entries);
        let ghost was = entries@;
        let ghost keys = key_views(was);
        let ghost goal = old(self)@.remove(key@);
        entries.remove(at);
        proof {
            let next = key_views(entries@);
            assert(next =~= keys.remove(at as int));
            assert forall|i: int, j: int| 0 <= i < j < next.len() implies K::precedes(
                #[trigger] next[i],
                #[trigger] next[j],
            ) by {
                let x = if i < at {
                    i
                } else {
                    i + 1
                };
                let y = if j < at {
                    j
                } else {
                    j + 1
                };
                assert(K::precedes(keys[x], keys[y]));
            }
            assert forall|m: int| 0 <= m < keys.len() && m != at implies keys[m] != key@ by {
                K::lemma_order(keys[m], keys[at as int], keys[m]);
                if m < at {
                    assert(K::precedes(keys[m], keys[at as int]));
                } else {
                    assert(K::precedes(keys[at as int], keys[m]));
                }
            }
            assert forall|k: K::V| next.to_set().contains(k) == goal.dom().contains(k) by {
                if next.contains(k) {
                    let m = next.index_of(k);
                    if m < at {
                        assert(keys[m] == k);
                    } else {
                        assert(keys[m + 1] == k);
                    }
                }
                if keys.contains(k) && k != key@ {
                    let m = keys.index_of(k);
                    if m < at {
                        assert(next[m] == k);
                    } else {
                        assert(next[m - 1] == k);
                    }
                }
            }
            assert(next.to_set() =~= goal.dom());
            assert forall|i: int| 0 <= i < entries@.len() implies goal[(
            #[trigger] entries@[i]).0@] == entries@[i].1@ by {
                if i < at {
                    assert(entries@[i] == was[i]);
                    lemma_entry_at(was, i);
                    assert(keys[i] == was[i].0@);
                } else {
                    assert(entries@[i] == was[i + 1]);
                    lemma_entry_at(was, i + 1);
                    assert(keys[i + 1] == was[i + 1].0@);
                }
            }
            lemma_map_from_entries(entries@, goal);
        }
        self.entries = entries;
        true
    }
}

impl<K: TableKey, V: View> Table<K, V> {
    /// Removes the values under all of these keys.
    pub fn remove_all(&mut self, keys: &Vec<K>)
        ensures
            final(self)@ == old(self)@.remove_keys(text::views(keys@).to_set()),
    {
        let ghost was = self@;
        let mut i: usize = 0;
        assert(text::views(keys@).take(0).to_set() =~= Set::empty());
        assert(self@ =~= was.remove_keys(text::views(keys@).take(0).to_set()));
        while i < keys.len()
            invariant
                i <= keys@.len(),
                self@ == was.remove_keys(text::views(keys@).take(i as int).to_set()),
            decreases keys@.len() - i,
        {
            self.remove(&keys[i]);
            proof {
                let views = text::views(keys@);
                assert(views.take(i + 1) =~= views.take(i as int).push(views[i as int]));
                views.take(i as int).lemma_push_to_set_commute(views[i as int]);
                assert(self@ =~= was.remove_keys(views.take(i + 1).to_set()));
            }
            i += 1;
        }
        assert(text::views(keys@).take(i as int) =~= text::views(keys@));
    }
}

impl<K: TableKey> Table<K, bool> {
    /// Marks the keys of another table in this one.
    pub fn mark_keys<W: View>(&mut self, other: &Table<K, W>)
        ensures
            final(self)@.dom() == old(self)@.dom() + other@.dom(),
    {
        let n = other.len();
        let ghost start = self@.dom();
        let mut i: usize = 0;
        proof {
            assert(other.keys().take(0).to_set() =~= Set::empty());
            assert(start + other.keys().take(0).to_set() =~= start);
        }
        while i < n
            invariant
                i <= n == other.keys().len(),
                self@.dom() == start + other.keys().take(i as int).to_set(),
            decreases n - i,
        {
            let key = other.key_at(i).again();
            proof {
                let keys = other.keys();
                assert(keys.take(i + 1) =~= keys.take(i as int).push(keys[i as int]));
                keys.take(i as int).lemma_push_to_set_commute(keys[i as int]);
                assert((start + keys.take(i as int).to_set()).insert(keys[i as int]) =~= start
                    + keys.take(i as int).to_set().insert(keys[i as int]));
            }
            self.put(key, true);
            i += 1;
        }
        assert(other.keys().take(n as int) =~= other.keys());
    }
}

impl<K: TableKey, V: Record> Table<K, V> {
    /// A copy of the table.
    pub fn copy(&self) -> (r: Self)
        ensures
            r@ == self@,
            r.keys() == self.keys(),
    {
        proof {
            use_type_invariant(self);
        }
        let mut entries: Vec<(K, V)> = Vec::new();
        let mut i: usize = 0;
        while i < self.entries.len()
            invariant
                i <= self.entries@.len(),
                entries@.len() == i,
                forall|j: int|
                    0 <= j < i ==> (#[trigger] entries@[j]).0@ == self.entries@[j].0@
                        && entries@[j].1@ == self.entries@[j].1@,
            decreases self.entries@.len() - i,
        {
            entries.push((self.entries[i].0.again(), self.entries[i].1.duplicate()));
            i += 1;
        }
        proof {
            assert(key_views(entries@) =~= key_views(self.entries@));
            assert forall|i: int| 0 <= i < entries@.len() implies self@[(
            #[trigger] entries@[i]).0@] == entries@[i].1@ by {
                lemma_entry_at(self.entries@, i);
            }
            assert(key_views(entries@).to_set() =~= self@.dom());
            lemma_map_from_entries(entries@, self@);
        }
        Table { entries }
    }

    /// Whether two tables hold the same values under the same keys.
    pub fn equals(&self, other: &Self) -> (r: bool)
        ensures
            r == (self@ == other@),
    {
        let n = self.len();
        let m = other.len();
        if n != m {
            return false;
        }
        let mut i: usize = 0;
        while i < n
            invariant
                i <= n,
                forall|j: int|
                    0 <= j < i ==> other@.dom().contains(#[trigger] self.keys()[j])
                        && other@[self.keys()[j]] == self@[self.keys()[j]],
            decreases n - i,
        {
            let value = self.value_at(i);
            match other.get(self.key_at(i)) {
                Some(found) => {
                    if !value.same(found) {
                        return false;
                    }
                },
                None => {
                    return false;
                },
            }
            i += 1;
        }
        proof {
            let a = self@.dom();
            let b = other@.dom();
            assert forall|k: K::V| a.contains(k) implies b.contains(k) && self@[k] == other@[k] by {
                assert(self.keys().to_set().contains(k));
                let j = self.keys().index_of(k);
                assert(self.keys()[j] == k);
            }
            assert(a.subset_of(b));
            vstd::set_lib::lemma_subset_equality(a, b);
            assert(self@ =~= other@);
        }
        true
    }
}

} // verus!
