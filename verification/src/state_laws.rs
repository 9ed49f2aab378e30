//! The states that replicas exchange: their blobs, and the digest that tells them apart.
use crate::digest;
use crate::error::{AppErrorView, ErrorCode};
use crate::json::JsonView;
use crate::sync_file;
use crate::sync_file::{DraftHead, DraftSourceView};
use crate::sync_join;
use crate::table;
use crate::table::{Pair, PairView};
use crate::text;
use vstd::prelude::*;
use vstd::utf8;

verus! {

// ---------------------------------------------------------------------------
// Blobs
// ---------------------------------------------------------------------------

/// What replicas share under a name is what each of them has there that has anything, and one
/// of them has it. Where two of them differ, they are out of step; where none has it, it is
/// missing.
pub proof fn law_replicas_share_contents(
    a: Map<Seq<char>, Seq<u8>>,
    b: Map<Seq<char>, Seq<u8>>,
    c: Map<Seq<char>, Seq<u8>>,
    d: Map<Seq<char>, Seq<u8>>,
    name: Seq<char>,
)
    ensures
        sync_file::shared_blob(a, b, c, d, name) matches Ok(content) ==> {
            &&& a.dom().contains(name) ==> a[name] == content
            &&& b.dom().contains(name) ==> b[name] == content
            &&& c.dom().contains(name) ==> c[name] == content
            &&& d.dom().contains(name) ==> d[name] == content
        },
        sync_file::shared_blob(a, b, c, d, name) is Ok ==> a.dom().contains(name)
            || b.dom().contains(name) || c.dom().contains(name) || d.dom().contains(name),
        a.dom().contains(name) && (b.dom().contains(name) && b[name] != a[name]
            || c.dom().contains(name) && c[name] != a[name] || d.dom().contains(name) && d[name]
            != a[name]) ==> (sync_file::shared_blob(a, b, c, d, name) matches Err(e) && e.code
            == ErrorCode::SyncChecksumMismatch),
        !a.dom().contains(name) && !b.dom().contains(name) && !c.dom().contains(name)
            && !d.dom().contains(name) ==> (sync_file::shared_blob(a, b, c, d, name) matches Err(e)
            && e.code == ErrorCode::SyncStateInvalid),
        sync_file::shared_blob(a, b, c, d, name) is Ok == sync_file::shared_blob(
            d,
            c,
            b,
            a,
            name,
        ) is Ok,
{
}

proof fn lemma_shared(
    a: Map<Seq<char>, Seq<u8>>,
    b: Map<Seq<char>, Seq<u8>>,
    c: Map<Seq<char>, Seq<u8>>,
    d: Map<Seq<char>, Seq<u8>>,
    wanted: Seq<Seq<char>>,
    count: nat,
)
    requires
        count <= wanted.len(),
    ensures
        sync_file::shared_blobs(a, b, c, d, wanted, count) matches Ok(found) ==> {
            &&& forall|name: Seq<char>| #[trigger]
                found.dom().contains(name) <==> exists|k: int|
                    0 <= k < count && #[trigger] wanted[k] == name
            &&& forall|name: Seq<char>| #[trigger]
                found.dom().contains(name) ==> sync_file::shared_blob(a, b, c, d, name) == Ok::<
                    Seq<u8>,
                    AppErrorView,
                >(found[name])
        },
    decreases count,
{
    if count > 0 {
        lemma_shared(a, b, c, d, wanted, (count - 1) as nat);
        if let Ok(found) = sync_file::shared_blobs(a, b, c, d, wanted, count) {
            let head = sync_file::shared_blobs(a, b, c, d, wanted, (count - 1) as nat)->Ok_0;
            assert forall|name: Seq<char>| #[trigger] found.dom().contains(name) <==> exists|
                k: int,
            | 0 <= k < count && #[trigger] wanted[k] == name by {
                if found.dom().contains(name) {
                    if name == wanted[count - 1] {
                        assert(wanted[count - 1] == name);
                    } else {
                        assert(head.dom().contains(name));
                    }
                }
                if exists|k: int| 0 <= k < count && #[trigger] wanted[k] == name {
                    let k = choose|k: int| 0 <= k < count && #[trigger] wanted[k] == name;
                    if k < count - 1 {
                        assert(head.dom().contains(name));
                    }
                }
            }
        }
    }
}

/// The candidates of conflicts are what is left out of a state once the conflicts are settled.
pub proof fn law_candidates_are_dropped(blobs: Map<Seq<char>, Seq<u8>>, name: Seq<char>)
    ensures
        !sync_file::without_candidates(blobs).dom().contains("sync-candidate:"@ + name),
        !"sync-candidate:"@.is_prefix_of(name) && blobs.dom().contains(name) ==> {
            &&& sync_file::without_candidates(blobs).dom().contains(name)
            &&& sync_file::without_candidates(blobs)[name] == blobs[name]
        },
        sync_file::without_candidates(blobs).dom().subset_of(blobs.dom()),
{
    let whole = "sync-candidate:"@ + name;
    assert("sync-candidate:"@ =~= whole.take("sync-candidate:"@.len() as int));
}

proof fn lemma_needed(
    objects: Map<PairView, JsonView>,
    readings: Map<Seq<char>, Result<DraftHead, String>>,
    keys: Seq<PairView>,
    count: nat,
)
    requires
        count <= keys.len(),
    ensures
        sync_join::needed_up_to(objects, readings, keys, count) matches Ok(names) ==> forall|k: int|
            0 <= k < count && (#[trigger] keys[k]).first == "source"@ ==> names.contains(
                keys[k].second,
            ),
        sync_join::needed_up_to(objects, readings, keys, count) matches Ok(names) ==> forall|k: int|
            0 <= k < count && (#[trigger] keys[k]).first == "draft_intent"@ ==> {
                &&& sync_file::draft_blobs(
                    keys[k].second,
                    objects[keys[k]],
                    readings[keys[k].second],
                ) matches Ok(hashes)
                &&& hashes.to_set().subset_of(names)
            },
        sync_join::needed_up_to(objects, readings, keys, count) matches Ok(names)
            ==> names.finite(),
        sync_join::needed_up_to(objects, readings, keys, count) matches Ok(names) ==> forall|
            name: Seq<char>,
        | #[trigger]
            names.contains(name) ==> exists|k: int|
                0 <= k < count && ((#[trigger] keys[k]).first == "source"@ && keys[k].second == name
                    || keys[k].first == "draft_intent"@),
    decreases count,
{
    reveal_strlit("source");
    reveal_strlit("draft_intent");
    assert("source"@.len() == 6 && "draft_intent"@.len() == 12);
    if count > 0 {
        lemma_needed(objects, readings, keys, (count - 1) as nat);
        if let Ok(names) = sync_join::needed_up_to(objects, readings, keys, count) {
            let head = sync_join::needed_up_to(objects, readings, keys, (count - 1) as nat)->Ok_0;
            let more = sync_join::needed_by(objects, readings, keys[count - 1])->Ok_0;
            assert(names == head + more);
            assert forall|name: Seq<char>| #[trigger] names.contains(name) implies exists|k: int|
                0 <= k < count && ((#[trigger] keys[k]).first == "source"@ && keys[k].second == name
                    || keys[k].first == "draft_intent"@) by {
                if head.contains(name) {
                    let k = choose|k: int|
                        0 <= k < count - 1 && ((#[trigger] keys[k]).first == "source"@
                            && keys[k].second == name || keys[k].first == "draft_intent"@);
                    assert(keys[k] == keys[k]);
                } else {
                    assert(more.contains(name));
                    assert(keys[count - 1] == keys[count - 1]);
                }
            }
        }
    }
}

/// A state that was joined has the content of each of its sources, and of each source that one
/// of its drafts needs, as the replicas share it, and the candidates beside them.
pub proof fn law_joined_state_has_its_contents(
    objects: Map<PairView, JsonView>,
    readings: Map<Seq<char>, Result<DraftHead, String>>,
    candidates: Map<Seq<char>, Seq<u8>>,
    a: Map<Seq<char>, Seq<u8>>,
    b: Map<Seq<char>, Seq<u8>>,
    c: Map<Seq<char>, Seq<u8>>,
    d: Map<Seq<char>, Seq<u8>>,
    hash: Seq<char>,
    draft: Seq<char>,
)
    requires
        objects.dom().finite(),
    ensures
        sync_join::joined_blobs(objects, readings, candidates, a, b, c, d) matches Ok(blobs) ==> {
            let source = PairView { first: "source"@, second: hash };
            let intent = PairView { first: "draft_intent"@, second: draft };
            &&& objects.dom().contains(source) ==> {
                &&& blobs.dom().contains(hash)
                &&& a.dom().contains(hash) ==> blobs[hash] == a[hash]
                &&& b.dom().contains(hash) ==> blobs[hash] == b[hash]
                &&& c.dom().contains(hash) ==> blobs[hash] == c[hash]
                &&& d.dom().contains(hash) ==> blobs[hash] == d[hash]
            }
            &&& objects.dom().contains(intent) ==> {
                &&& sync_file::draft_blobs(draft, objects[intent], readings[draft]) matches Ok(
                    hashes,
                )
                &&& hashes.contains(hash) ==> blobs.dom().contains(hash)
            }
            &&& candidates.dom().contains(hash) ==> blobs.dom().contains(hash) && blobs[hash]
                == candidates[hash]
        },
{
    if let Ok(blobs) = sync_join::joined_blobs(objects, readings, candidates, a, b, c, d) {
        let source = PairView { first: "source"@, second: hash };
        let intent = PairView { first: "draft_intent"@, second: draft };
        table::lemma_has_order::<Pair>(objects.dom());
        let keys = table::ordered::<Pair>(objects.dom());
        lemma_needed(objects, readings, keys, keys.len());
        let set = sync_join::needed_up_to(objects, readings, keys, keys.len())->Ok_0;
        table::lemma_texts_sorted(set);
        let names = text::sorted(set);
        lemma_shared(a, b, c, d, names, names.len());
        let found = sync_file::shared_blobs(a, b, c, d, names, names.len())->Ok_0;
        law_replicas_share_contents(a, b, c, d, hash);
        if objects.dom().contains(source) {
            assert(keys.to_set().contains(source));
            let k = keys.index_of(source);
            assert(keys[k] == source);
            assert(names.to_set().contains(hash));
            let n = names.index_of(hash);
            assert(names[n] == hash);
            assert(found.dom().contains(hash));
        }
        if objects.dom().contains(intent) {
            assert(keys.to_set().contains(intent));
            let k = keys.index_of(intent);
            assert(keys[k] == intent);
            let hashes = sync_file::draft_blobs(draft, objects[intent], readings[draft])->Ok_0;
            if hashes.contains(hash) {
                assert(hashes.to_set().contains(hash));
                assert(names.to_set().contains(hash));
                let n = names.index_of(hash);
                assert(names[n] == hash);
                assert(found.dom().contains(hash));
            }
        }
    }
}

/// A draft that travels goes by the store that it began in and by its changeset there. It needs
/// the contents of just those of its sources that say so.
pub proof fn law_drafts_need_contents(
    key: Seq<char>,
    payload: JsonView,
    decoded: Result<DraftHead, String>,
    hash: Seq<char>,
)
    ensures
        sync_file::draft_blobs(key, payload, decoded) matches Ok(hashes) ==> {
            let origin = payload.at("origin_store_id"@)->Text_0;
            let sources = text::views(decoded->Ok_0.sources@);
            &&& payload is Object
            &&& decoded is Ok
            &&& decoded->Ok_0.canonical
            &&& decoded->Ok_0.version == 1
            &&& text::is_lower_hex(origin, 64)
            &&& key == origin + "\0"@ + decoded->Ok_0.origin_changeset_id@
            &&& text::ascending(hashes)
            &&& hashes.contains(hash) <==> exists|i: int|
                0 <= i < sources.len() && (#[trigger] sources[i]).content_required
                    && sources[i].content_hash == hash
            &&& hashes.contains(hash) ==> text::is_lower_hex(hash, 64)
        },
{
    if let Ok(hashes) = sync_file::draft_blobs(key, payload, decoded) {
        let sources = text::views(decoded->Ok_0.sources@);
        let set = sync_file::needed_hashes(sources);
        let all = sources.map_values(|source: DraftSourceView| source.content_hash).to_set();
        assert forall|one: Seq<char>| set.contains(one) implies all.contains(one) by {
            let i = choose|i: int|
                0 <= i < sources.len() && (#[trigger] sources[i]).content_required
                    && sources[i].content_hash == one;
            assert(sources.map_values(|source: DraftSourceView| source.content_hash)[i] == one);
        }
        vstd::set_lib::lemma_set_subset_finite(all, set);
        table::lemma_texts_sorted(set);
        assert(hashes.to_set().contains(hash) == hashes.contains(hash));
    }
}

// ---------------------------------------------------------------------------
// The digest
// ---------------------------------------------------------------------------

/// A number that fits in eight bytes can be read back from them.
pub proof fn law_bytes_are_the_number(n: nat)
    requires
        n < 0x1_0000_0000_0000_0000,
    ensures
        sync_file::big_endian(n).len() == 8,
        ({
            let bytes = sync_file::big_endian(n);
            n == bytes[0] * 0x100_0000_0000_0000 + bytes[1] * 0x1_0000_0000_0000 + bytes[2]
                * 0x100_0000_0000 + bytes[3] * 0x1_0000_0000 + bytes[4] * 0x100_0000 + bytes[5]
                * 0x1_0000 + bytes[6] * 0x100 + bytes[7]
        }),
{
    let bytes = sync_file::big_endian(n);
    let whole = n as int;
    let a = whole / 0x100;
    let b = a / 0x100;
    let c = b / 0x100;
    let d = c / 0x100;
    let e = d / 0x100;
    let f = e / 0x100;
    let g = f / 0x100;
    vstd::arithmetic::div_mod::lemma_div_denominator(whole, 0x100, 0x100);
    vstd::arithmetic::div_mod::lemma_div_denominator(whole, 0x1_0000, 0x100);
    vstd::arithmetic::div_mod::lemma_div_denominator(whole, 0x100_0000, 0x100);
    vstd::arithmetic::div_mod::lemma_div_denominator(whole, 0x1_0000_0000, 0x100);
    vstd::arithmetic::div_mod::lemma_div_denominator(whole, 0x100_0000_0000, 0x100);
    vstd::arithmetic::div_mod::lemma_div_denominator(whole, 0x1_0000_0000_0000, 0x100);
    assert(b == whole / 0x1_0000);
    assert(c == whole / 0x100_0000);
    assert(d == whole / 0x1_0000_0000);
    assert(e == whole / 0x100_0000_0000);
    assert(f == whole / 0x1_0000_0000_0000);
    assert(g == whole / 0x100_0000_0000_0000);
    lemma_digits(bytes, n, a, b, c, d, e, f, g);
}

proof fn lemma_digits(
    bytes: Seq<u8>,
    n: nat,
    a: int,
    b: int,
    c: int,
    d: int,
    e: int,
    f: int,
    g: int,
)
    requires
        n < 0x1_0000_0000_0000_0000,
        a == n as int / 0x100,
        b == a / 0x100,
        c == b / 0x100,
        d == c / 0x100,
        e == d / 0x100,
        f == e / 0x100,
        g == f / 0x100,
        bytes == seq![
            (g % 256) as u8,
            (f % 256) as u8,
            (e % 256) as u8,
            (d % 256) as u8,
            (c % 256) as u8,
            (b % 256) as u8,
            (a % 256) as u8,
            (n % 256) as u8,
        ],
    ensures
        n == bytes[0] * 0x100_0000_0000_0000 + bytes[1] * 0x1_0000_0000_0000 + bytes[2]
            * 0x100_0000_0000 + bytes[3] * 0x1_0000_0000 + bytes[4] * 0x100_0000 + bytes[5]
            * 0x1_0000 + bytes[6] * 0x100 + bytes[7],
{
    assert(n == a * 256 + n % 256);
    assert(a == b * 256 + a % 256);
    assert(b == c * 256 + b % 256);
    assert(c == d * 256 + c % 256);
    assert(d == e * 256 + d % 256);
    assert(e == f * 256 + e % 256);
    assert(f == g * 256 + f % 256);
    assert(g < 256);
}

/// What stands behind its length can be told from what follows it.
pub proof fn law_frames_can_be_told_apart(
    a: Seq<u8>,
    b: Seq<u8>,
    behind_a: Seq<u8>,
    behind_b: Seq<u8>,
)
    requires
        a.len() < 0x1_0000_0000_0000_0000,
        b.len() < 0x1_0000_0000_0000_0000,
        sync_file::framed(a) + behind_a == sync_file::framed(b) + behind_b,
    ensures
        a == b,
        behind_a == behind_b,
{
    let x = sync_file::framed(a) + behind_a;
    let y = sync_file::framed(b) + behind_b;
    law_bytes_are_the_number(a.len());
    law_bytes_are_the_number(b.len());
    let p = sync_file::big_endian(a.len());
    let q = sync_file::big_endian(b.len());
    assert forall|i: int| 0 <= i < 8 implies p[i] == q[i] by {
        assert(x[i] == p[i]);
        assert(y[i] == q[i]);
    }
    assert(a.len() == b.len());
    assert forall|i: int| 0 <= i < a.len() implies a[i] == b[i] by {
        assert(x[8 + i] == a[i]);
        assert(y[8 + i] == b[i]);
    }
    assert(a =~= b);
    assert(x.len() == 8 + a.len() + behind_a.len());
    assert(y.len() == 8 + b.len() + behind_b.len());
    assert(behind_a.len() == behind_b.len());
    assert forall|i: int| 0 <= i < behind_a.len() implies behind_a[i] == behind_b[i] by {
        assert(x[8 + a.len() + i] == behind_a[i]);
        assert(y[8 + b.len() + i] == behind_b[i]);
    }
    assert(behind_a =~= behind_b);
}

proof fn lemma_regroup(head: Seq<u8>, a: Seq<u8>, b: Seq<u8>, c: Seq<u8>, behind: Seq<u8>)
    ensures
        (head + a + b + c) + behind == head + (a + (b + (c + behind))),
{
    assert((head + a + b + c) + behind =~= head + (a + (b + (c + behind))));
}

proof fn lemma_three_frames(
    a: Seq<u8>,
    b: Seq<u8>,
    size_a: Seq<u8>,
    size_b: Seq<u8>,
    more_a: Seq<u8>,
    more_b: Seq<u8>,
    behind_a: Seq<u8>,
    behind_b: Seq<u8>,
)
    requires
        a.len() < 0x1_0000_0000_0000_0000,
        b.len() < 0x1_0000_0000_0000_0000,
        size_a.len() < 0x1_0000_0000_0000_0000,
        size_b.len() < 0x1_0000_0000_0000_0000,
        more_a.len() < 0x1_0000_0000_0000_0000,
        more_b.len() < 0x1_0000_0000_0000_0000,
        sync_file::framed(a) + (sync_file::framed(size_a) + (sync_file::framed(more_a) + behind_a))
            == sync_file::framed(b) + (sync_file::framed(size_b) + (sync_file::framed(more_b)
            + behind_b)),
    ensures
        a == b,
        size_a == size_b,
        more_a == more_b,
        behind_a == behind_b,
{
    let last_a = sync_file::framed(more_a) + behind_a;
    let last_b = sync_file::framed(more_b) + behind_b;
    law_frames_can_be_told_apart(
        a,
        b,
        sync_file::framed(size_a) + last_a,
        sync_file::framed(size_b) + last_b,
    );
    law_frames_can_be_told_apart(size_a, size_b, last_a, last_b);
    law_frames_can_be_told_apart(more_a, more_b, behind_a, behind_b);
}

/// The objects of a state enter its digest by their keys and the digests of their payloads: two
/// states with the same keys are the same to the digest only where these are the same.
pub proof fn law_digest_covers_objects(
    a: Map<PairView, Seq<char>>,
    b: Map<PairView, Seq<char>>,
    keys: Seq<PairView>,
    count: nat,
    behind_a: Seq<u8>,
    behind_b: Seq<u8>,
)
    requires
        count <= keys.len(),
        forall|k: int|
            0 <= k < count ==> utf8::encode_utf8(a[#[trigger] keys[k]]).len()
                < 0x1_0000_0000_0000_0000 && utf8::encode_utf8(b[keys[k]]).len()
                < 0x1_0000_0000_0000_0000 && utf8::encode_utf8(
                keys[k].first + "\0"@ + keys[k].second,
            ).len() < 0x1_0000_0000_0000_0000,
        sync_file::objects_input(a, keys, count) + behind_a == sync_file::objects_input(
            b,
            keys,
            count,
        ) + behind_b,
    ensures
        forall|k: int| 0 <= k < count ==> a[#[trigger] keys[k]] == b[keys[k]],
        behind_a == behind_b,
    decreases count,
{
    if count == 0 {
        assert(sync_file::objects_input(a, keys, count) + behind_a =~= behind_a);
        assert(sync_file::objects_input(b, keys, count) + behind_b =~= behind_b);
    } else {
        let key = keys[count - 1];
        let name = utf8::encode_utf8(key.first + "\0"@ + key.second);
        let none = Seq::<u8>::empty();
        let hash_a = utf8::encode_utf8(a[key]);
        let hash_b = utf8::encode_utf8(b[key]);
        let less = (count - 1) as nat;
        let head_a = sync_file::objects_input(a, keys, less);
        let head_b = sync_file::objects_input(b, keys, less);
        let f = sync_file::framed(name);
        let g = sync_file::framed(hash_a);
        let h = sync_file::framed(hash_b);
        let z = sync_file::framed(none);
        lemma_regroup(head_a, f, g, z, behind_a);
        lemma_regroup(head_b, f, h, z, behind_b);
        law_digest_covers_objects(
            a,
            b,
            keys,
            less,
            f + (g + (z + behind_a)),
            f + (h + (z + behind_b)),
        );
        lemma_three_frames(name, name, hash_a, hash_b, none, none, behind_a, behind_b);
        utf8::encode_utf8_decode_utf8(a[key]);
        utf8::encode_utf8_decode_utf8(b[key]);
    }
}

/// The length of a blob fits in eight bytes, and so do those of its name and of its size.
pub open spec fn can_be_framed(blobs: Map<Seq<char>, Seq<u8>>, name: Seq<char>) -> bool {
    &&& blobs[name].len() < 0x1_0000_0000_0000_0000
    &&& utf8::encode_utf8(name).len() < 0x1_0000_0000_0000_0000
    &&& utf8::encode_utf8(text::natural(blobs[name].len())).len() < 0x1_0000_0000_0000_0000
}

/// The blobs of a state enter its digest with their contents: two states with blobs of the same
/// names are the same to the digest only where the contents are the same.
pub proof fn law_digest_covers_blobs(
    a: Map<Seq<char>, Seq<u8>>,
    b: Map<Seq<char>, Seq<u8>>,
    names: Seq<Seq<char>>,
    count: nat,
    behind_a: Seq<u8>,
    behind_b: Seq<u8>,
)
    requires
        count <= names.len(),
        forall|k: int|
            0 <= k < count ==> can_be_framed(a, #[trigger] names[k]) && can_be_framed(
                b,
                names[k],
            ),
        sync_file::blobs_input(a, names, count) + behind_a == sync_file::blobs_input(
            b,
            names,
            count,
        ) + behind_b,
    ensures
        forall|k: int| 0 <= k < count ==> a[#[trigger] names[k]] == b[names[k]],
        behind_a == behind_b,
    decreases count,
{
    if count == 0 {
        assert(sync_file::blobs_input(a, names, count) + behind_a =~= behind_a);
        assert(sync_file::blobs_input(b, names, count) + behind_b =~= behind_b);
    } else {
        let key = names[count - 1];
        let name = utf8::encode_utf8(key);
        let size_a = utf8::encode_utf8(text::natural(a[key].len()));
        let size_b = utf8::encode_utf8(text::natural(b[key].len()));
        let less = (count - 1) as nat;
        let head_a = sync_file::blobs_input(a, names, less);
        let head_b = sync_file::blobs_input(b, names, less);
        let f = sync_file::framed(name);
        let g = sync_file::framed(size_a);
        let h = sync_file::framed(size_b);
        let y = sync_file::framed(a[key]);
        let z = sync_file::framed(b[key]);
        assert(can_be_framed(a, key) && can_be_framed(b, key));
        lemma_regroup(head_a, f, g, y, behind_a);
        lemma_regroup(head_b, f, h, z, behind_b);
        law_digest_covers_blobs(
            a,
            b,
            names,
            less,
            f + (g + (y + behind_a)),
            f + (h + (z + behind_b)),
        );
        lemma_three_frames(name, name, size_a, size_b, a[key], b[key], behind_a, behind_b);
    }
}

proof fn lemma_no_fault(blobs: Map<Seq<char>, Seq<u8>>, names: Seq<Seq<char>>, count: nat)
    requires
        count <= names.len(),
    ensures
        sync_file::blob_fault(blobs, names, count) is None <==> forall|k: int|
            0 <= k < count ==> is_sound(blobs, #[trigger] names[k]),
    decreases count,
{
    if count > 0 {
        lemma_no_fault(blobs, names, (count - 1) as nat);
        let name = names[count - 1];
        let mark = "sync-candidate:"@;
        if mark.is_prefix_of(name) {
            assert(name =~= mark + name.skip(mark.len() as int));
        }
        if is_sound(blobs, name) && name == mark + digest::sha256_hex(blobs[name]) {
            assert(mark =~= name.take(mark.len() as int));
            assert(name.skip(mark.len() as int) =~= digest::sha256_hex(blobs[name]));
        }
        if sync_file::blob_fault(blobs, names, count) is None {
            assert forall|k: int| 0 <= k < count implies is_sound(blobs, #[trigger] names[k]) by {
                if k == count - 1 {
                    assert(is_sound(blobs, name));
                }
            }
        } else if forall|k: int| 0 <= k < count ==> is_sound(blobs, #[trigger] names[k]) {
            assert(is_sound(blobs, names[count - 1]));
        }
    }
}

/// A blob holds text, and goes by the digest of what it holds, with the mark of a candidate
/// before it where it is one.
pub open spec fn is_sound(blobs: Map<Seq<char>, Seq<u8>>, name: Seq<char>) -> bool {
    &&& utf8::valid_utf8(blobs[name])
    &&& if "sync-candidate:"@.is_prefix_of(name) {
        name == "sync-candidate:"@ + digest::sha256_hex(blobs[name])
    } else {
        name == digest::sha256_hex(blobs[name])
    }
}

/// A state has a digest just where it is of the format of this library and each of its blobs
/// is what its name says.
pub proof fn law_sound_states_have_digests(
    manifest: Map<Seq<char>, Seq<char>>,
    hashes: Map<PairView, Seq<char>>,
    blobs: Map<Seq<char>, Seq<u8>>,
)
    requires
        blobs.dom().finite(),
    ensures
        sync_file::state_digest(manifest, hashes, blobs) is Ok <==> {
            &&& manifest.dom().contains("format"@)
            &&& manifest["format"@] == "1"@
            &&& manifest.dom().contains("store_format"@)
            &&& manifest["store_format"@] == "19"@
            &&& forall|name: Seq<char>| #[trigger]
                blobs.dom().contains(name) ==> is_sound(blobs, name)
        },
        sync_file::state_digest(manifest, hashes, blobs) matches Err(e) ==> e.code
            == ErrorCode::SyncStateInvalid || e.code == ErrorCode::SyncChecksumMismatch,
{
    reveal_strlit("1");
    reveal_strlit("19");
    reveal_with_fuel(text::natural, 3);
    assert(text::decimal(1) =~= "1"@);
    assert(text::decimal(19) =~= "19"@);
    table::lemma_has_order::<String>(blobs.dom());
    let names = table::ordered::<String>(blobs.dom());
    lemma_no_fault(blobs, names, names.len());
    lemma_fault_code(blobs, names, names.len());
    if forall|k: int| 0 <= k < names.len() ==> is_sound(blobs, #[trigger] names[k]) {
        assert forall|name: Seq<char>| #[trigger] blobs.dom().contains(name) implies is_sound(
            blobs,
            name,
        ) by {
            assert(names.to_set().contains(name));
            let k = names.index_of(name);
            assert(is_sound(blobs, names[k]));
        }
    }
    if forall|name: Seq<char>| #[trigger] blobs.dom().contains(name) ==> is_sound(blobs, name) {
        assert forall|k: int| 0 <= k < names.len() implies is_sound(blobs, #[trigger] names[k]) by {
            assert(names.to_set().contains(names[k]));
        }
    }
}

proof fn lemma_fault_code(blobs: Map<Seq<char>, Seq<u8>>, names: Seq<Seq<char>>, count: nat)
    ensures
        sync_file::blob_fault(blobs, names, count) matches Some(fault) ==> fault.code
            == ErrorCode::SyncStateInvalid || fault.code == ErrorCode::SyncChecksumMismatch,
    decreases count,
{
    if count > 0 {
        lemma_fault_code(blobs, names, (count - 1) as nat);
    }
}

} // verus!
