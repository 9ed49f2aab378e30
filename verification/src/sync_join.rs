//! The blobs of a merged state: the contents that its sources and drafts need, and the
//! candidates of its conflicts.
use crate::error;
use crate::error::{AppError, AppErrorView, ErrorCode};
use crate::json::{Json, JsonView};
use crate::sync_file;
use crate::sync_file::{merge_sync_blobs_into, required_sync_draft_blobs, DraftHead};
use crate::table;
use crate::table::{Pair, PairView, Record, Table, TableKey};
use crate::text;
use crate::text::{add_text, owned, same_text};
use vstd::prelude::*;

verus! {

/// What reading a draft as a change set came to.
pub struct DraftReading {
    pub decoded: Result<DraftHead, String>,
}

impl View for DraftReading {
    type V = Result<DraftHead, String>;

    open spec fn view(&self) -> Result<DraftHead, String> {
        self.decoded
    }
}

/// The blobs that one object needs.
pub open spec fn needed_by(
    objects: Map<PairView, JsonView>,
    readings: Map<Seq<char>, Result<DraftHead, String>>,
    key: PairView,
) -> Result<Set<Seq<char>>, AppErrorView> {
    if key.first == "source"@ {
        Ok(set![key.second])
    } else if key.first == "draft_intent"@ {
        match sync_file::draft_blobs(key.second, objects[key], readings[key.second]) {
            Ok(hashes) => Ok(hashes.to_set()),
            Err(e) => Err(e),
        }
    } else {
        Ok(Set::empty())
    }
}

/// The blobs that the objects under the first `count` keys need.
pub open spec fn needed_up_to(
    objects: Map<PairView, JsonView>,
    readings: Map<Seq<char>, Result<DraftHead, String>>,
    keys: Seq<PairView>,
    count: nat,
) -> Result<Set<Seq<char>>, AppErrorView>
    decreases count,
{
    if count == 0 || count > keys.len() {
        Ok(Set::empty())
    } else {
        match needed_up_to(objects, readings, keys, (count - 1) as nat) {
            Err(e) => Err(e),
            Ok(names) => match needed_by(objects, readings, keys[count - 1]) {
                Err(e) => Err(e),
                Ok(more) => Ok(names + more),
            },
        }
    }
}

/// The blobs that a state needs, in ascending order.
pub open spec fn needed_blobs(
    objects: Map<PairView, JsonView>,
    readings: Map<Seq<char>, Result<DraftHead, String>>,
) -> Result<Seq<Seq<char>>, AppErrorView> {
    let keys = table::ordered::<Pair>(objects.dom());
    match needed_up_to(objects, readings, keys, keys.len()) {
        Err(e) => Err(e),
        Ok(names) => Ok(text::sorted(names)),
    }
}

/// Each draft of a state has been read.
pub open spec fn drafts_read(
    objects: Map<PairView, JsonView>,
    readings: Map<Seq<char>, Result<DraftHead, String>>,
) -> bool {
    forall|key: PairView|
        #[trigger] objects.dom().contains(key) && key.first == "draft_intent"@
            ==> readings.dom().contains(key.second)
}

proof fn lemma_needed_stops(
    objects: Map<PairView, JsonView>,
    readings: Map<Seq<char>, Result<DraftHead, String>>,
    keys: Seq<PairView>,
    count: nat,
    more: nat,
)
    requires
        0 < count <= more <= keys.len(),
        needed_up_to(objects, readings, keys, count) is Err,
    ensures
        needed_up_to(objects, readings, keys, more) == needed_up_to(objects, readings, keys, count),
    decreases more - count,
{
    if count < more {
        lemma_needed_stops(objects, readings, keys, count, (more - 1) as nat);
    }
}

/// The blobs that a state needs: the content of each source, and what its drafts name. A
/// draft is given as it was read.
pub fn wanted_sync_blobs(
    objects: &Table<Pair, Json>,
    readings: &Table<String, DraftReading>,
) -> (r: Result<Vec<String>, AppError>)
    requires
        drafts_read(objects@, readings@),
    ensures
        match needed_blobs(objects@, readings@) {
            Ok(names) => r matches Ok(list) && text::views(list@) == names,
            Err(e) => r matches Err(got) && got@ == e,
        },
{
    let n = objects.len();
    let ghost keys = objects.keys();
    proof {
        table::lemma_ordered_is::<Pair>(keys, objects@.dom());
    }
    let mut names: Vec<String> = Vec::new();
    assert(text::views(names@).to_set() =~= Set::<Seq<char>>::empty());
    let mut i: usize = 0;
    while i < n
        invariant
            i <= n == keys.len(),
            keys == objects.keys(),
            text::ascending(text::views(names@)),
            needed_up_to(objects@, readings@, keys, i as nat) == Ok::<
                Set<Seq<char>>,
                AppErrorView,
            >(text::views(names@).to_set()),
        decreases n - i,
    {
        let key = objects.key_at(i);
        let value = objects.value_at(i);
        let ghost known = text::views(names@).to_set();
        if same_text(key.first.as_str(), "source") {
            add_text(&mut names, key.second.as_str());
            assert(text::views(names@).to_set() =~= known + set![key@.second]);
        } else if same_text(key.first.as_str(), "draft_intent") {
            assert(readings@.dom().contains(key@.second));
            match readings.get(&key.second) {
                Some(reading) => {
                    let list = match required_sync_draft_blobs(
                        key.second.as_str(),
                        value,
                        &reading.decoded,
                    ) {
                        Ok(list) => list,
                        Err(e) => {
                            proof {
                                lemma_needed_stops(
                                    objects@,
                                    readings@,
                                    keys,
                                    (i + 1) as nat,
                                    keys.len(),
                                );
                            }
                            return Err(e);
                        },
                    };
                    let ghost hashes = text::views(list@);
                    let mut j: usize = 0;
                    assert(hashes.take(0).to_set() =~= Set::<Seq<char>>::empty());
                    assert(known + hashes.take(0).to_set() =~= known);
                    while j < list.len()
                        invariant
                            j <= list@.len(),
                            hashes == text::views(list@),
                            text::ascending(text::views(names@)),
                            text::views(names@).to_set() == known + hashes.take(j as int).to_set(),
                        decreases list@.len() - j,
                    {
                        add_text(&mut names, list[j].as_str());
                        proof {
                            assert(hashes[j as int] == list@[j as int]@);
                            assert(hashes.take(j + 1) =~= hashes.take(j as int).push(
                                hashes[j as int],
                            ));
                            lemma_pushed(hashes.take(j as int), hashes[j as int]);
                            assert(text::views(names@).to_set() =~= known + hashes.take(
                                j + 1,
                            ).to_set());
                        }
                        j += 1;
                    }
                    assert(hashes.take(list@.len() as int) =~= hashes);
                },
                None => {},
            }
        } else {
            assert(known + Set::<Seq<char>>::empty() =~= known);
        }
        i += 1;
    }
    proof {
        text::lemma_sorted_is(text::views(names@));
    }
    Ok(names)
}

proof fn lemma_pushed(s: Seq<Seq<char>>, one: Seq<char>)
    ensures
        s.push(one).to_set() == s.to_set().insert(one),
{
    assert forall|x: Seq<char>| s.push(one).to_set().contains(x) == s.to_set().insert(
        one,
    ).contains(x) by {
        if s.contains(x) {
            let i = s.index_of(x);
            assert(s.push(one)[i] == x);
        }
        if x == one {
            assert(s.push(one)[s.len() as int] == x);
        }
        if s.push(one).contains(x) && x != one {
            let i = s.push(one).index_of(x);
            assert(s[i] == x);
        }
    }
    assert(s.push(one).to_set() =~= s.to_set().insert(one));
}

/// The candidates of conflicts beside the blobs of a state.
pub open spec fn with_candidates(
    blobs: Map<Seq<char>, Seq<u8>>,
    candidates: Map<Seq<char>, Seq<u8>>,
) -> Result<Map<Seq<char>, Seq<u8>>, AppErrorView> {
    if exists|name: Seq<char>|
        #[trigger] candidates.dom().contains(name) && blobs.dom().contains(name) {
        error::refused(ErrorCode::DatabaseError, "UNIQUE constraint failed"@)
    } else {
        Ok(blobs.union_prefer_right(candidates))
    }
}

/// The blobs of a merged state: what it needs, out of the four states that it came from, and
/// the candidates of its conflicts.
pub open spec fn joined_blobs(
    objects: Map<PairView, JsonView>,
    readings: Map<Seq<char>, Result<DraftHead, String>>,
    candidates: Map<Seq<char>, Seq<u8>>,
    a: Map<Seq<char>, Seq<u8>>,
    b: Map<Seq<char>, Seq<u8>>,
    c: Map<Seq<char>, Seq<u8>>,
    d: Map<Seq<char>, Seq<u8>>,
) -> Result<Map<Seq<char>, Seq<u8>>, AppErrorView> {
    match needed_blobs(objects, readings) {
        Err(e) => Err(e),
        Ok(names) => match sync_file::shared_blobs(a, b, c, d, names, names.len()) {
            Err(e) => Err(e),
            Ok(blobs) => with_candidates(blobs, candidates),
        },
    }
}

/// Gathers the blobs of a merged state.
pub fn join_sync_blobs(
    objects: &Table<Pair, Json>,
    readings: &Table<String, DraftReading>,
    candidates: &Table<String, Vec<u8>>,
    a: &Table<String, Vec<u8>>,
    b: &Table<String, Vec<u8>>,
    c: &Table<String, Vec<u8>>,
    d: &Table<String, Vec<u8>>,
) -> (r: Result<Table<String, Vec<u8>>, AppError>)
    requires
        drafts_read(objects@, readings@),
    ensures
        error::outcome(r) == joined_blobs(objects@, readings@, candidates@, a@, b@, c@, d@),
{
    let names = match wanted_sync_blobs(objects, readings) {
        Ok(names) => names,
        Err(e) => {
            return Err(e);
        },
    };
    let mut blobs = match merge_sync_blobs_into(a, b, c, d, &names) {
        Ok(blobs) => blobs,
        Err(e) => {
            return Err(e);
        },
    };
    let ghost needed = blobs@;
    let n = candidates.len();
    let ghost keys = candidates.keys();
    let mut i: usize = 0;
    while i < n
        invariant
            i <= n == keys.len(),
            keys == candidates.keys(),
            table::lists::<String>(keys, candidates@.dom()),
            forall|j: int| 0 <= j < i ==> !needed.dom().contains(#[trigger] keys[j]),
            forall|name: Seq<char>| #[trigger]
                blobs@.dom().contains(name) == (needed.dom().contains(name) || keys.take(
                    i as int,
                ).contains(name)),
            forall|name: Seq<char>| #[trigger]
                blobs@.dom().contains(name) ==> blobs@[name] == if needed.dom().contains(name) {
                    needed[name]
                } else {
                    candidates@[name]
                },
        decreases n - i,
    {
        let name = candidates.key_at(i);
        let content = candidates.value_at(i);
        proof {
            assert(candidates@.dom().contains(name@));
            if keys.take(i as int).contains(name@) {
                let j = keys.take(i as int).index_of(name@);
                assert(keys[j] == keys[i as int]);
                assert(<String as TableKey>::precedes(keys[j], keys[i as int]));
                text::lemma_before_irreflexive(name@);
            }
        }
        if blobs.has(name) {
            return Err(AppError::new(ErrorCode::DatabaseError, "UNIQUE constraint failed"));
        }
        let ghost was = blobs@;
        blobs.put(owned(name.as_str()), content.duplicate());
        proof {
            assert(keys.take(i + 1) =~= keys.take(i as int).push(name@));
            assert forall|x: Seq<char>| #[trigger]
                blobs@.dom().contains(x) == (needed.dom().contains(x) || keys.take(
                    i + 1,
                ).contains(x)) by {
                assert(was.dom().contains(x) == (needed.dom().contains(x) || keys.take(
                    i as int,
                ).contains(x)));
                lemma_pushed(keys.take(i as int), name@);
                assert(keys.take(i + 1).to_set().contains(x) == keys.take(
                    i as int,
                ).to_set().insert(name@).contains(x));
            }
            assert forall|x: Seq<char>| #[trigger] blobs@.dom().contains(x) implies blobs@[x]
                == if needed.dom().contains(x) {
                needed[x]
            } else {
                candidates@[x]
            } by {
                if x != name@ {
                    assert(was.dom().contains(x));
                }
            }
        }
        i += 1;
    }
    proof {
        assert(keys.take(n as int) =~= keys);
        assert forall|name: Seq<char>| #[trigger] candidates@.dom().contains(name) implies !(
        needed.dom().contains(name)) by {
            assert(keys.to_set().contains(name));
            let j = keys.index_of(name);
            assert(keys[j] == name);
        }
        assert forall|name: Seq<char>| blobs@.dom().contains(name)
            == needed.union_prefer_right(candidates@).dom().contains(name) by {
            assert(keys.to_set().contains(name) == candidates@.dom().contains(name));
        }
        assert(blobs@ =~= needed.union_prefer_right(candidates@));
    }
    Ok(blobs)
}

proof fn lemma_shared(
    a: Map<Seq<char>, Seq<u8>>,
    b: Map<Seq<char>, Seq<u8>>,
    c: Map<Seq<char>, Seq<u8>>,
    d: Map<Seq<char>, Seq<u8>>,
    wanted: Seq<Seq<char>>,
    count: nat,
)
    requires
        count <= wanted.len(),
        sync_file::shared_blobs(a, b, c, d, wanted, count) is Ok,
    ensures
        ({
            let found = sync_file::shared_blobs(a, b, c, d, wanted, count)->Ok_0;
            &&& forall|i: int| 0 <= i < count ==> found.dom().contains(#[trigger] wanted[i])
            &&& forall|name: Seq<char>| #[trigger]
                found.dom().contains(name) ==> sync_file::shared_blob(a, b, c, d, name) == Ok::<
                    Seq<u8>,
                    AppErrorView,
                >(found[name])
        }),
    decreases count,
{
    if count > 0 {
        lemma_shared(a, b, c, d, wanted, (count - 1) as nat);
    }
}

proof fn lemma_needed_has(
    objects: Map<PairView, JsonView>,
    readings: Map<Seq<char>, Result<DraftHead, String>>,
    keys: Seq<PairView>,
    count: nat,
    at: int,
)
    requires
        0 <= at < count <= keys.len(),
        needed_up_to(objects, readings, keys, count) is Ok,
    ensures
        needed_by(objects, readings, keys[at]) is Ok,
        needed_by(objects, readings, keys[at])->Ok_0.subset_of(
            needed_up_to(objects, readings, keys, count)->Ok_0,
        ),
    decreases count,
{
    if at < count - 1 {
        lemma_needed_has(objects, readings, keys, (count - 1) as nat, at);
    }
}

proof fn lemma_needed_finite(
    objects: Map<PairView, JsonView>,
    readings: Map<Seq<char>, Result<DraftHead, String>>,
    keys: Seq<PairView>,
    count: nat,
)
    requires
        needed_up_to(objects, readings, keys, count) is Ok,
    ensures
        needed_up_to(objects, readings, keys, count)->Ok_0.finite(),
    decreases count,
{
    if count > 0 && count <= keys.len() {
        lemma_needed_finite(objects, readings, keys, (count - 1) as nat);
        let key = keys[count - 1];
        if key.first == "draft_intent"@ && key.first != "source"@ {
            vstd::seq_lib::seq_to_set_is_finite(
                sync_file::draft_blobs(key.second, objects[key], readings[key.second])->Ok_0,
            );
        }
    }
}

/// Each source of a merged state has its content, the one that every state it came from has
/// wherever it has any; and so has each blob that its drafts need.
pub proof fn law_merged_sources_have_their_content(
    objects: Map<PairView, JsonView>,
    readings: Map<Seq<char>, Result<DraftHead, String>>,
    candidates: Map<Seq<char>, Seq<u8>>,
    a: Map<Seq<char>, Seq<u8>>,
    b: Map<Seq<char>, Seq<u8>>,
    c: Map<Seq<char>, Seq<u8>>,
    d: Map<Seq<char>, Seq<u8>>,
    key: PairView,
    name: Seq<char>,
)
    requires
        objects.dom().finite(),
        joined_blobs(objects, readings, candidates, a, b, c, d) is Ok,
        objects.dom().contains(key),
        needed_by(objects, readings, key) matches Ok(names) && names.contains(name),
    ensures
        ({
            let blobs = joined_blobs(objects, readings, candidates, a, b, c, d)->Ok_0;
            &&& blobs.dom().contains(name)
            &&& a.dom().contains(name) ==> a[name] == blobs[name]
            &&& b.dom().contains(name) ==> b[name] == blobs[name]
            &&& c.dom().contains(name) ==> c[name] == blobs[name]
            &&& d.dom().contains(name) ==> d[name] == blobs[name]
        }),
{
    let keys = table::ordered::<Pair>(objects.dom());
    table::lemma_has_order::<Pair>(objects.dom());
    assert(keys.to_set().contains(key));
    let at = keys.index_of(key);
    lemma_needed_has(objects, readings, keys, keys.len(), at);
    lemma_needed_finite(objects, readings, keys, keys.len());
    let wanted = needed_up_to(objects, readings, keys, keys.len())->Ok_0;
    table::lemma_has_order::<String>(wanted);
    let listed = table::ordered::<String>(wanted);
    assert forall|i: int, j: int| 0 <= i < j < listed.len() implies text::before(
        #[trigger] listed[i],
        #[trigger] listed[j],
    ) by {
        assert(<String as TableKey>::precedes(listed[i], listed[j]));
    }
    text::lemma_sorted_is(listed);
    let names = text::sorted(wanted);
    assert(names.to_set().contains(name));
    let i = names.index_of(name);
    lemma_shared(a, b, c, d, names, names.len());
    let shared = sync_file::shared_blobs(a, b, c, d, names, names.len())->Ok_0;
    assert(shared.dom().contains(names[i]));
    if candidates.dom().contains(name) {
        assert(candidates.dom().contains(name) && shared.dom().contains(name));
    }
    assert(sync_file::shared_blob(a, b, c, d, name) == Ok::<Seq<u8>, AppErrorView>(shared[name]));
}

} // verus!
