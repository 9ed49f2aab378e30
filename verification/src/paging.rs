//! Pages of lists, and the order of things that carry an ordinal.
use crate::table::{Record, TableKey};
use crate::text;
use crate::text::{comes_before, owned, same_text};
use vstd::prelude::*;

verus! {

/// The part of a list that a page shows.
pub open spec fn page_of<T>(list: Seq<T>, offset: nat, limit: nat) -> Seq<T> {
    if offset >= list.len() {
        Seq::empty()
    } else if offset + limit >= list.len() {
        list.subrange(offset as int, list.len() as int)
    } else {
        list.subrange(offset as int, (offset + limit) as int)
    }
}

/// The bounds of the part of a list that a page shows.
pub fn page_bounds(len: usize, offset: usize, limit: usize) -> (r: (usize, usize))
    ensures
        r.0 <= r.1 <= len,
        offset >= len ==> r.0 == len && r.1 == len,
        offset < len && offset + limit >= len ==> r.0 == offset && r.1 == len,
        offset < len && offset + limit < len ==> r.0 == offset && r.1 == offset + limit,
{
    if offset >= len {
        (len, len)
    } else if limit >= len - offset {
        (offset, len)
    } else {
        (offset, offset + limit)
    }
}

/// A page is the subrange between its bounds.
pub proof fn lemma_page<T>(list: Seq<T>, offset: nat, limit: nat, from: int, to: int)
    requires
        offset >= list.len() ==> from == list.len() && to == list.len(),
        offset < list.len() && offset + limit >= list.len() ==> from == offset && to == list.len(),
        offset < list.len() && offset + limit < list.len() ==> from == offset && to == offset
            + limit,
    ensures
        page_of(list, offset, limit) == list.subrange(from, to),
{
    if offset >= list.len() {
        assert(list.subrange(from, to) =~= Seq::<T>::empty());
    }
}

/// The place of something among its kind: by ordinal, then by identifier.
pub struct Rank {
    pub ordinal: i64,
    pub id: String,
}

#[verifier::ext_equal]
pub struct RankView {
    pub ordinal: int,
    pub id: Seq<char>,
}

impl View for Rank {
    type V = RankView;

    open spec fn view(&self) -> RankView {
        RankView { ordinal: self.ordinal as int, id: self.id@ }
    }
}

impl TableKey for Rank {
    open spec fn precedes(a: RankView, b: RankView) -> bool {
        a.ordinal < b.ordinal || a.ordinal == b.ordinal && text::before(a.id, b.id)
    }

    proof fn lemma_order(a: RankView, b: RankView, c: RankView) {
        String::lemma_order(a.id, b.id, c.id);
        assert(<String as TableKey>::precedes(a.id, a.id) == text::before(a.id, a.id));
        assert(<String as TableKey>::precedes(a.id, b.id) == text::before(a.id, b.id));
        assert(<String as TableKey>::precedes(b.id, c.id) == text::before(b.id, c.id));
        assert(<String as TableKey>::precedes(a.id, c.id) == text::before(a.id, c.id));
        assert(<String as TableKey>::precedes(b.id, a.id) == text::before(b.id, a.id));
    }

    fn is_before(&self, other: &Self) -> (r: bool) {
        self.ordinal < other.ordinal || self.ordinal == other.ordinal && comes_before(
            self.id.as_str(),
            other.id.as_str(),
        )
    }

    fn is_same(&self, other: &Self) -> (r: bool) {
        self.ordinal == other.ordinal && same_text(self.id.as_str(), other.id.as_str())
    }

    fn again(&self) -> (r: Self) {
        Rank { ordinal: self.ordinal, id: owned(self.id.as_str()) }
    }
}

/// An offset as a query takes it: one that does not fit a signed 64-bit number
/// counts as none.
pub open spec fn query_offset(offset: usize) -> nat {
    if offset as u64 <= 0x7fff_ffff_ffff_ffff {
        offset as nat
    } else {
        0
    }
}

/// An offset as a query takes it.
pub fn effective_offset(offset: usize) -> (r: usize)
    ensures
        r == query_offset(offset),
{
    if offset as u64 <= 0x7fff_ffff_ffff_ffff {
        offset
    } else {
        0
    }
}

/// Copies of the records on a page of a list.
pub fn copy_page<T: Record>(list: &Vec<T>, offset: usize, limit: usize) -> (r: Vec<T>)
    ensures
        text::views(r@) == page_of(text::views(list@), offset as nat, limit as nat),
{
    let (from, to) = page_bounds(list.len(), offset, limit);
    proof {
        lemma_page(text::views(list@), offset as nat, limit as nat, from as int, to as int);
    }
    let mut out: Vec<T> = Vec::new();
    let mut i: usize = from;
    while i < to
        invariant
            from <= i <= to <= list@.len(),
            out@.len() == i - from,
            forall|j: int| 0 <= j < i - from ==> #[trigger] out@[j]@ == list@[from + j]@,
        decreases to - i,
    {
        out.push(list[i].duplicate());
        i += 1;
    }
    assert(text::views(out@) =~= text::views(list@).subrange(from as int, to as int));
    out
}

} // verus!
