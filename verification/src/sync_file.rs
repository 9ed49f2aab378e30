//! What a file with a normalised state must look like, the digest that
//! identifies it, and the blobs that it carries.
use crate::digest;
use crate::digest::sha256;
use crate::error;
use crate::error::{AppError, AppErrorView, ErrorCode};
use crate::json;
use crate::json::{keys_are, Json, JsonView};
use crate::pages;
use crate::pages::quote;
use crate::table;
use crate::table::{Pair, PairView, Record, Table};
use crate::text;
use crate::text::{
    begins_with, chars_of, decimal_text, join2, join3, lower_hex, natural_text, owned, same_text,
    slice_text, utf8_text,
};
use crate::versions;
use vstd::prelude::*;
use vstd::utf8;

verus! {

/// The format of the stores that this library reads and writes.
pub const USER_VERSION: i64 = 19;

/// The format of normalised states.
pub const SYNC_STATE_FORMAT: i64 = 1;

fn fail<T>(code: ErrorCode, message: &str) -> (r: Result<T, AppError>)
    ensures
        r matches Err(e) && e@ == error::app_error(code, message@),
{
    Err(AppError::new(code, message))
}

// ---------------------------------------------------------------------------
// Blobs
// ---------------------------------------------------------------------------

/// The blob under a name.
pub open spec fn blob_at(blobs: Map<Seq<char>, Seq<u8>>, name: Seq<char>) -> Option<Seq<u8>> {
    if blobs.dom().contains(name) {
        Some(blobs[name])
    } else {
        None
    }
}

/// Two sources of a blob do not contradict each other.
pub open spec fn blobs_agree(a: Option<Seq<u8>>, b: Option<Seq<u8>>) -> bool {
    a is Some && b is Some ==> a == b
}

/// The first of two that is there.
pub open spec fn either_blob(a: Option<Seq<u8>>, b: Option<Seq<u8>>) -> Option<Seq<u8>> {
    if a is Some {
        a
    } else {
        b
    }
}

/// The one content that four replicas have under a name.
pub open spec fn shared_blob(
    a: Map<Seq<char>, Seq<u8>>,
    b: Map<Seq<char>, Seq<u8>>,
    c: Map<Seq<char>, Seq<u8>>,
    d: Map<Seq<char>, Seq<u8>>,
    name: Seq<char>,
) -> Result<Seq<u8>, AppErrorView> {
    let two = either_blob(blob_at(a, name), blob_at(b, name));
    let three = either_blob(two, blob_at(c, name));
    let four = either_blob(three, blob_at(d, name));
    if !blobs_agree(blob_at(a, name), blob_at(b, name)) || !blobs_agree(two, blob_at(c, name))
        || !blobs_agree(three, blob_at(d, name)) {
        error::refused(
            ErrorCode::SyncChecksumMismatch,
            "content-addressed blob "@ + name + " differs between replicas"@,
        )
    } else {
        match four {
            Some(content) => Ok(content),
            None => error::refused(
                ErrorCode::SyncStateInvalid,
                "merged source "@ + name + " has no content blob"@,
            ),
        }
    }
}

/// The contents that four replicas have under the first `count` names.
pub open spec fn shared_blobs(
    a: Map<Seq<char>, Seq<u8>>,
    b: Map<Seq<char>, Seq<u8>>,
    c: Map<Seq<char>, Seq<u8>>,
    d: Map<Seq<char>, Seq<u8>>,
    wanted: Seq<Seq<char>>,
    count: nat,
) -> Result<Map<Seq<char>, Seq<u8>>, AppErrorView>
    decreases count,
{
    if count == 0 || count > wanted.len() {
        Ok(Map::empty())
    } else {
        match shared_blobs(a, b, c, d, wanted, (count - 1) as nat) {
            Err(e) => Err(e),
            Ok(found) => match shared_blob(a, b, c, d, wanted[count - 1]) {
                Ok(content) => Ok(found.insert(wanted[count - 1], content)),
                Err(e) => Err(e),
            },
        }
    }
}

proof fn lemma_blobs_stop(
    a: Map<Seq<char>, Seq<u8>>,
    b: Map<Seq<char>, Seq<u8>>,
    c: Map<Seq<char>, Seq<u8>>,
    d: Map<Seq<char>, Seq<u8>>,
    wanted: Seq<Seq<char>>,
    count: nat,
    more: nat,
)
    requires
        0 < count <= more <= wanted.len(),
        shared_blobs(a, b, c, d, wanted, count) is Err,
    ensures
        shared_blobs(a, b, c, d, wanted, more) == shared_blobs(a, b, c, d, wanted, count),
    decreases more - count,
{
    if count < more {
        lemma_blobs_stop(a, b, c, d, wanted, count, (more - 1) as nat);
    }
}

fn agree(a: Option<&Vec<u8>>, b: Option<&Vec<u8>>) -> (r: bool)
    ensures
        r == blobs_agree(text::opt_view(a), text::opt_view(b)),
{
    match (a, b) {
        (Some(x), Some(y)) => x.same(y),
        _ => true,
    }
}

fn either<'a>(a: Option<&'a Vec<u8>>, b: Option<&'a Vec<u8>>) -> (r: Option<&'a Vec<u8>>)
    ensures
        text::opt_view(r) == either_blob(text::opt_view(a), text::opt_view(b)),
{
    match a {
        Some(_) => a,
        None => b,
    }
}

/// Gathers the blobs of a merged state from the four states it came from.
pub fn merge_sync_blobs_into(
    a: &Table<String, Vec<u8>>,
    b: &Table<String, Vec<u8>>,
    c: &Table<String, Vec<u8>>,
    d: &Table<String, Vec<u8>>,
    wanted: &Vec<String>,
) -> (r: Result<Table<String, Vec<u8>>, AppError>)
    ensures
        error::outcome(r) == shared_blobs(a@, b@, c@, d@, text::views(wanted@), wanted@.len()),
{
    let ghost names = text::views(wanted@);
    let mut found: Table<String, Vec<u8>> = Table::new();
    let mut i: usize = 0;
    while i < wanted.len()
        invariant
            i <= wanted@.len(),
            shared_blobs(a@, b@, c@, d@, names, i as nat) == Ok::<
                Map<Seq<char>, Seq<u8>>,
                AppErrorView,
            >(found@),
        decreases wanted@.len() - i,
    {
        let name = &wanted[i];
        assert(names[i as int] == name@);
        proof {
            if shared_blobs(a@, b@, c@, d@, names, (i + 1) as nat) is Err {
                lemma_blobs_stop(a@, b@, c@, d@, names, (i + 1) as nat, wanted@.len());
            }
        }
        let one = a.get(name);
        let two = either(one, b.get(name));
        let three = either(two, c.get(name));
        let four = either(three, d.get(name));
        if !agree(one, b.get(name)) || !agree(two, c.get(name)) || !agree(three, d.get(name)) {
            let message = join3(
                "content-addressed blob ",
                name.as_str(),
                " differs between replicas",
            );
            return fail(ErrorCode::SyncChecksumMismatch, message.as_str());
        }
        match four {
            Some(content) => {
                found.put(owned(name.as_str()), content.duplicate());
            },
            None => {
                let message = join3("merged source ", name.as_str(), " has no content blob");
                return fail(ErrorCode::SyncStateInvalid, message.as_str());
            },
        }
        i += 1;
    }
    Ok(found)
}

/// The blobs without the candidates of conflicts.
pub open spec fn without_candidates(
    blobs: Map<Seq<char>, Seq<u8>>,
) -> Map<Seq<char>, Seq<u8>> {
    blobs.restrict(
        Set::new(
            |name: Seq<char>|
                blobs.dom().contains(name) && !"sync-candidate:"@.is_prefix_of(name),
        ),
    )
}

/// Drops the candidates of conflicts.
pub fn cleanup_sync_conflict_candidates(blobs: &Table<String, Vec<u8>>) -> (r: Table<
    String,
    Vec<u8>,
>)
    ensures
        r@ == without_candidates(blobs@),
{
    let n = blobs.len();
    let ghost keys = blobs.keys();
    let ghost goal = without_candidates(blobs@);
    let mut kept: Table<String, Vec<u8>> = Table::new();
    let mut i: usize = 0;
    while i < n
        invariant
            i <= n == keys.len(),
            keys == blobs.keys(),
            forall|name: Seq<char>|
                #[trigger] kept@.dom().contains(name) == (keys.take(i as int).contains(name)
                    && !"sync-candidate:"@.is_prefix_of(name)),
            forall|name: Seq<char>| #[trigger]
                kept@.dom().contains(name) ==> kept@[name] == blobs@[name],
        decreases n - i,
    {
        let name = blobs.key_at(i);
        let ghost was = kept@;
        if !begins_with(name.as_str(), "sync-candidate:") {
            kept.put(owned(name.as_str()), blobs.value_at(i).duplicate());
        }
        proof {
            assert(keys.take(i + 1) =~= keys.take(i as int).push(name@));
            assert forall|x: Seq<char>| #[trigger] kept@.dom().contains(x) == (keys.take(
                i + 1,
            ).contains(x) && !"sync-candidate:"@.is_prefix_of(x)) by {
                assert(was.dom().contains(x) == (keys.take(i as int).contains(x)
                    && !"sync-candidate:"@.is_prefix_of(x)));
                if keys.take(i as int).contains(x) {
                    let j = keys.take(i as int).index_of(x);
                    assert(keys.take(i + 1)[j] == x);
                }
                if keys.take(i + 1).contains(x) && x != name@ {
                    let j = keys.take(i + 1).index_of(x);
                    assert(keys.take(i as int)[j] == x);
                }
                assert(keys.take(i + 1)[i as int] == name@);
            }
        }
        i += 1;
    }
    proof {
        assert(keys.take(n as int) =~= keys);
        assert forall|x: Seq<char>| kept@.dom().contains(x) == goal.dom().contains(x) by {
            assert(keys.to_set().contains(x) == blobs@.dom().contains(x));
        }
        assert(kept@ =~= goal);
    }
    kept
}

// ---------------------------------------------------------------------------
// The blobs that a draft needs
// ---------------------------------------------------------------------------

/// A source that a detached draft names.
pub struct DraftSource {
    pub content_hash: String,
    pub content_required: bool,
}

#[verifier::ext_equal]
pub struct DraftSourceView {
    pub content_hash: Seq<char>,
    pub content_required: bool,
}

impl View for DraftSource {
    type V = DraftSourceView;

    open spec fn view(&self) -> DraftSourceView {
        DraftSourceView {
            content_hash: self.content_hash@,
            content_required: self.content_required,
        }
    }
}

/// What a detached draft says of itself. `canonical` where writing it again
/// gives the value it was read from.
pub struct DraftHead {
    pub canonical: bool,
    pub version: i64,
    pub origin_changeset_id: String,
    pub sources: Vec<DraftSource>,
}

/// The first source whose hash is none.
pub open spec fn sources_sound(sources: Seq<DraftSourceView>) -> bool {
    forall|i: int|
        0 <= i < sources.len() ==> text::is_lower_hex((#[trigger] sources[i]).content_hash, 64)
}

/// The hashes of the sources whose content a draft needs.
pub open spec fn needed_hashes(sources: Seq<DraftSourceView>) -> Set<Seq<char>> {
    Set::new(
        |hash: Seq<char>|
            exists|i: int|
                0 <= i < sources.len() && (#[trigger] sources[i]).content_required
                    && sources[i].content_hash == hash,
    )
}

pub open spec fn draft_error<T>(key: Seq<char>, complaint: Seq<char>) -> Result<T, AppErrorView> {
    error::refused(
        ErrorCode::SyncStateInvalid,
        "normalized draft_intent '"@ + key + complaint,
    )
}

/// The blobs that a normalised draft needs, in ascending order of their hashes.
pub open spec fn draft_blobs(
    key: Seq<char>,
    payload: JsonView,
    decoded: Result<DraftHead, String>,
) -> Result<Seq<Seq<char>>, AppErrorView> {
    if payload !is Object {
        draft_error(key, "' must be an object"@)
    } else if json::entry_keys(payload->Object_0).to_set() != seq![
        "intent"@,
        "origin_store_id"@,
    ].to_set() {
        draft_error(key, "' has unknown or missing fields"@)
    } else if payload.at("origin_store_id"@) !is Text {
        draft_error(key, "' origin is missing"@)
    } else {
        let origin = payload.at("origin_store_id"@)->Text_0;
        if !text::is_lower_hex(origin, 64) {
            draft_error(key, "' origin is invalid"@)
        } else {
            match decoded {
                Err(reason) => error::refused(ErrorCode::SyncStateInvalid, reason@),
                Ok(head) => if !head.canonical || head.version != 1 || key != origin + "\0"@
                    + head.origin_changeset_id@ {
                    draft_error(key, "' is not canonical"@)
                } else if !sources_sound(text::views(head.sources@)) {
                    draft_error(key, "' source hash is invalid"@)
                } else {
                    Ok(text::sorted(needed_hashes(text::views(head.sources@))))
                },
            }
        }
    }
}

fn draft_refusal<T>(key: &str, complaint: &str) -> (r: Result<T, AppError>)
    ensures
        error::outcome::<()>(Err(r->Err_0)) == draft_error::<()>(key@, complaint@),
        r is Err,
{
    let message = join3("normalized draft_intent '", key, complaint);
    Err(AppError::new(ErrorCode::SyncStateInvalid, message.as_str()))
}

/// The blobs that a normalised draft needs, in ascending order of their hashes.
/// `decoded` is what reading the draft as a change set came to.
pub fn required_sync_draft_blobs(
    logical_key: &str,
    payload: &Json,
    decoded: &Result<DraftHead, String>,
) -> (r: Result<Vec<String>, AppError>)
    ensures
        match draft_blobs(logical_key@, payload@, *decoded) {
            Ok(hashes) => r matches Ok(list) && text::views(list@) == hashes,
            Err(e) => r matches Err(got) && got@ == e,
        },
{
    let entries = match payload {
        Json::Object(entries) => entries,
        _ => {
            return draft_refusal(logical_key, "' must be an object");
        },
    };
    proof {
        json::lemma_object_view(*entries);
    }
    let mut wanted: Vec<String> = Vec::new();
    wanted.push(owned("intent"));
    wanted.push(owned("origin_store_id"));
    assert(text::views(wanted@) =~= seq!["intent"@, "origin_store_id"@]);
    if !keys_are(entries, &wanted) {
        return draft_refusal(logical_key, "' has unknown or missing fields");
    }
    let origin = match payload.get_text("origin_store_id") {
        Some(origin) => origin,
        None => {
            return draft_refusal(logical_key, "' origin is missing");
        },
    };
    if !lower_hex(origin.as_str(), 64) {
        return draft_refusal(logical_key, "' origin is invalid");
    }
    let head = match decoded {
        Ok(head) => head,
        Err(reason) => {
            return fail(ErrorCode::SyncStateInvalid, reason.as_str());
        },
    };
    let expected = join3(origin.as_str(), "\0", head.origin_changeset_id.as_str());
    if !head.canonical || head.version != 1 || !same_text(logical_key, expected.as_str()) {
        return draft_refusal(logical_key, "' is not canonical");
    }
    let ghost all = text::views(head.sources@);
    let mut hashes: Vec<String> = Vec::new();
    let mut i: usize = 0;
    while i < head.sources.len()
        invariant
            i <= head.sources@.len(),
            text::ascending(text::views(hashes@)),
            forall|j: int|
                0 <= j < i ==> text::is_lower_hex((#[trigger] all[j]).content_hash, 64),
            forall|t: Seq<char>|
                #[trigger] text::views(hashes@).to_set().contains(t) == exists|j: int|
                    0 <= j < i && (#[trigger] all[j]).content_required && all[j].content_hash == t,
        decreases head.sources@.len() - i,
    {
        let source = &head.sources[i];
        assert(all[i as int] == source@);
        let ghost known = text::views(hashes@).to_set();
        if !lower_hex(source.content_hash.as_str(), 64) {
            return draft_refusal(logical_key, "' source hash is invalid");
        }
        if source.content_required {
            text::add_text(&mut hashes, source.content_hash.as_str());
        }
        assert forall|t: Seq<char>|
            #[trigger] text::views(hashes@).to_set().contains(t) == exists|j: int|
                0 <= j < i + 1 && (#[trigger] all[j]).content_required && all[j].content_hash
                    == t by {
            assert(known.contains(t) == exists|j: int|
                0 <= j < i && (#[trigger] all[j]).content_required && all[j].content_hash == t);
            if source.content_required && t == source.content_hash@ {
                assert(all[i as int].content_required && all[i as int].content_hash == t);
            }
        }
        i += 1;
    }
    proof {
        text::lemma_sorted_is(text::views(hashes@));
        assert(text::views(hashes@).to_set() =~= needed_hashes(all));
    }
    Ok(hashes)
}

// ---------------------------------------------------------------------------
// The digest of a state
// ---------------------------------------------------------------------------

/// A number below 2^64 in eight bytes, the most significant first.
pub open spec fn big_endian(n: nat) -> Seq<u8> {
    seq![
        (n / 0x100_0000_0000_0000 % 256) as u8,
        (n / 0x1_0000_0000_0000 % 256) as u8,
        (n / 0x100_0000_0000 % 256) as u8,
        (n / 0x1_0000_0000 % 256) as u8,
        (n / 0x100_0000 % 256) as u8,
        (n / 0x1_0000 % 256) as u8,
        (n / 0x100 % 256) as u8,
        (n % 256) as u8,
    ]
}

/// Bytes behind their length.
pub open spec fn framed(bytes: Seq<u8>) -> Seq<u8> {
    big_endian(bytes.len()) + bytes
}

/// The first `count` manifest entries as they enter the digest.
pub open spec fn manifest_input(
    manifest: Map<Seq<char>, Seq<char>>,
    keys: Seq<Seq<char>>,
    count: nat,
) -> Seq<u8>
    decreases count,
{
    if count == 0 || count > keys.len() {
        Seq::empty()
    } else {
        manifest_input(manifest, keys, (count - 1) as nat) + framed(
            utf8::encode_utf8(keys[count - 1]),
        ) + framed(utf8::encode_utf8(manifest[keys[count - 1]])) + framed(Seq::empty())
    }
}

/// The first `count` objects as they enter the digest: by key and payload digest.
pub open spec fn objects_input(
    hashes: Map<PairView, Seq<char>>,
    keys: Seq<PairView>,
    count: nat,
) -> Seq<u8>
    decreases count,
{
    if count == 0 || count > keys.len() {
        Seq::empty()
    } else {
        let key = keys[count - 1];
        objects_input(hashes, keys, (count - 1) as nat) + framed(
            utf8::encode_utf8(key.first + "\0"@ + key.second),
        ) + framed(utf8::encode_utf8(hashes[key])) + framed(Seq::empty())
    }
}

/// The first `count` blobs as they enter the digest: name, length and content.
pub open spec fn blobs_input(
    blobs: Map<Seq<char>, Seq<u8>>,
    names: Seq<Seq<char>>,
    count: nat,
) -> Seq<u8>
    decreases count,
{
    if count == 0 || count > names.len() {
        Seq::empty()
    } else {
        let name = names[count - 1];
        blobs_input(blobs, names, (count - 1) as nat) + framed(utf8::encode_utf8(name)) + framed(
            utf8::encode_utf8(text::natural(blobs[name].len())),
        ) + framed(blobs[name])
    }
}

/// The hash that the name of a blob promises.
pub open spec fn promised_hash(name: Seq<char>) -> Seq<char> {
    if "sync-candidate:"@.is_prefix_of(name) {
        name.skip("sync-candidate:"@.len() as int)
    } else {
        name
    }
}

/// What is wrong with the first faulty one of the first `count` blobs, if any is.
pub open spec fn blob_fault(
    blobs: Map<Seq<char>, Seq<u8>>,
    names: Seq<Seq<char>>,
    count: nat,
) -> Option<AppErrorView>
    decreases count,
{
    if count == 0 || count > names.len() {
        None
    } else {
        match blob_fault(blobs, names, (count - 1) as nat) {
            Some(fault) => Some(fault),
            None => {
                let name = names[count - 1];
                if !utf8::valid_utf8(blobs[name]) {
                    Some(
                        error::app_error(
                            ErrorCode::SyncStateInvalid,
                            "Sync source content is not UTF-8"@,
                        ),
                    )
                } else if digest::sha256_hex(blobs[name]) != promised_hash(name) {
                    Some(
                        error::app_error(
                            ErrorCode::SyncChecksumMismatch,
                            "Sync blob checksum differs for "@ + name,
                        ),
                    )
                } else {
                    None
                }
            },
        }
    }
}

/// A value that was found, or none, as a message shows it.
pub open spec fn found_format(value: Option<Seq<char>>) -> Seq<char> {
    match value {
        Some(said) => "Some("@ + pages::quoted(said) + ")"@,
        None => "None"@,
    }
}

/// Why a normalised state is not one of this format.
pub open spec fn formats_refused(manifest: Map<Seq<char>, Seq<char>>) -> Option<AppErrorView> {
    let store_format = versions::value_under(manifest, "store_format"@);
    if versions::value_under(manifest, "format"@) != Some(
        text::decimal(SYNC_STATE_FORMAT as int),
    ) {
        Some(error::app_error(ErrorCode::SyncStateInvalid, "unsupported normalized Sync state"@))
    } else if store_format != Some(text::decimal(USER_VERSION as int)) {
        Some(
            error::app_error(
                ErrorCode::SyncStateInvalid,
                "unsupported normalized store format: "@ + found_format(store_format),
            ),
        )
    } else {
        None
    }
}

/// The digest of a normalised state.
pub open spec fn state_digest(
    manifest: Map<Seq<char>, Seq<char>>,
    hashes: Map<PairView, Seq<char>>,
    blobs: Map<Seq<char>, Seq<u8>>,
) -> Result<Seq<char>, AppErrorView> {
    let names = table::ordered::<String>(blobs.dom());
    if let Some(e) = formats_refused(manifest) {
        Err(e)
    } else {
        match blob_fault(blobs, names, names.len()) {
            Some(fault) => Err(fault),
            None => {
                let keys = table::ordered::<String>(manifest.dom());
                let objects = table::ordered::<Pair>(hashes.dom());
                Ok(
                    digest::sha256_hex(
                        manifest_input(manifest, keys, keys.len()) + objects_input(
                            hashes,
                            objects,
                            objects.len(),
                        ) + blobs_input(blobs, names, names.len()),
                    ),
                )
            },
        }
    }
}

proof fn lemma_fault_stays(
    blobs: Map<Seq<char>, Seq<u8>>,
    names: Seq<Seq<char>>,
    count: nat,
    more: nat,
)
    requires
        0 < count <= more <= names.len(),
        blob_fault(blobs, names, count) is Some,
    ensures
        blob_fault(blobs, names, more) == blob_fault(blobs, names, count),
    decreases more - count,
{
    if count < more {
        lemma_fault_stays(blobs, names, count, (more - 1) as nat);
    }
}

/// Appends bytes behind their length.
fn push_framed(out: &mut Vec<u8>, bytes: &[u8])
    ensures
        final(out)@ == old(out)@ + framed(bytes@),
{
    let n: u64 = bytes.len() as u64;
    out.push((n / 0x100_0000_0000_0000 % 256) as u8);
    out.push((n / 0x1_0000_0000_0000 % 256) as u8);
    out.push((n / 0x100_0000_0000 % 256) as u8);
    out.push((n / 0x1_0000_0000 % 256) as u8);
    out.push((n / 0x100_0000 % 256) as u8);
    out.push((n / 0x1_0000 % 256) as u8);
    out.push((n / 0x100 % 256) as u8);
    out.push((n % 256) as u8);
    assert(out@ =~= old(out)@ + big_endian(bytes@.len()));
    let mut i: usize = 0;
    assert(bytes@.take(0) =~= Seq::empty());
    assert(out@ =~= old(out)@ + (big_endian(bytes@.len()) + bytes@.take(0)));
    while i < bytes.len()
        invariant
            i <= bytes@.len(),
            out@ == old(out)@ + (big_endian(bytes@.len()) + bytes@.take(i as int)),
        decreases bytes@.len() - i,
    {
        out.push(bytes[i]);
        assert(bytes@.take(i + 1) =~= bytes@.take(i as int).push(bytes@[i as int]));
        assert(out@ =~= old(out)@ + (big_endian(bytes@.len()) + bytes@.take(i + 1)));
        i += 1;
    }
    assert(bytes@.take(bytes@.len() as int) =~= bytes@);
}

/// The hash that the name of a blob promises.
fn promised(name: &str) -> (r: String)
    ensures
        r@ == promised_hash(name@),
{
    if begins_with(name, "sync-candidate:") {
        let chars = chars_of(name);
        let prefix = chars_of("sync-candidate:");
        let r = slice_text(&chars, prefix.len(), chars.len());
        assert(r@ =~= name@.skip("sync-candidate:"@.len() as int));
        r
    } else {
        owned(name)
    }
}

fn refuse_formats(manifest: &Table<String, String>) -> (r: Option<AppError>)
    ensures
        text::opt_view(r) == formats_refused(manifest@),
{
    let format = match manifest.get(&owned("format")) {
        Some(format) => same_text(format.as_str(), decimal_text(SYNC_STATE_FORMAT).as_str()),
        None => false,
    };
    if !format {
        return Some(
            AppError::new(ErrorCode::SyncStateInvalid, "unsupported normalized Sync state"),
        );
    }
    let shown = match manifest.get(&owned("store_format")) {
        Some(format) => {
            if same_text(format.as_str(), decimal_text(USER_VERSION).as_str()) {
                return None;
            }
            join3("Some(", quote(format.as_str()).as_str(), ")")
        },
        None => owned("None"),
    };
    Some(
        AppError::new(
            ErrorCode::SyncStateInvalid,
            join2("unsupported normalized store format: ", shown.as_str()).as_str(),
        ),
    )
}

fn frame_manifest(input: &mut Vec<u8>, manifest: &Table<String, String>)
    ensures
        final(input)@ == old(input)@ + manifest_input(
            manifest@,
            table::ordered::<String>(manifest@.dom()),
            table::ordered::<String>(manifest@.dom()).len(),
        ),
{
    let ghost head = input@;
    let n = manifest.len();
    let ghost keys = manifest.keys();
    proof {
        table::lemma_ordered_is::<String>(keys, manifest@.dom());
        assert(input@ =~= head + manifest_input(manifest@, keys, 0));
        reveal_strlit("");
        assert(""@ =~= Seq::<char>::empty());
        assert(utf8::encode_utf8(""@) =~= Seq::<u8>::empty());
    }
    let mut i: usize = 0;
    while i < n
        invariant
            i <= n == keys.len(),
            keys == manifest.keys(),
            input@ == head + manifest_input(manifest@, keys, i as nat),
        decreases n - i,
    {
        push_framed(input, manifest.key_at(i).as_str().as_bytes());
        push_framed(input, manifest.value_at(i).as_str().as_bytes());
        push_framed(input, "".as_bytes());
        assert(input@ =~= head + manifest_input(manifest@, keys, (i + 1) as nat));
        i += 1;
    }
}

fn frame_objects(input: &mut Vec<u8>, hashes: &Table<Pair, String>)
    ensures
        final(input)@ == old(input)@ + objects_input(
            hashes@,
            table::ordered::<Pair>(hashes@.dom()),
            table::ordered::<Pair>(hashes@.dom()).len(),
        ),
{
    let ghost head = input@;
    let n = hashes.len();
    let ghost keys = hashes.keys();
    proof {
        table::lemma_ordered_is::<Pair>(keys, hashes@.dom());
        assert(input@ =~= head + objects_input(hashes@, keys, 0));
        reveal_strlit("");
        assert(""@ =~= Seq::<char>::empty());
        assert(utf8::encode_utf8(""@) =~= Seq::<u8>::empty());
    }
    let mut i: usize = 0;
    while i < n
        invariant
            i <= n == keys.len(),
            keys == hashes.keys(),
            input@ == head + objects_input(hashes@, keys, i as nat),
        decreases n - i,
    {
        let key = hashes.key_at(i);
        let name = join3(key.first.as_str(), "\0", key.second.as_str());
        push_framed(input, name.as_str().as_bytes());
        push_framed(input, hashes.value_at(i).as_str().as_bytes());
        push_framed(input, "".as_bytes());
        assert(input@ =~= head + objects_input(hashes@, keys, (i + 1) as nat));
        i += 1;
    }
}

/// The digest that identifies a normalised state. `hashes` holds the digest of
/// each object's text.
pub fn sync_state_digest(
    manifest: &Table<String, String>,
    hashes: &Table<Pair, String>,
    blobs: &Table<String, Vec<u8>>,
) -> (r: Result<String, AppError>)
    ensures
        error::outcome(r) == state_digest(manifest@, hashes@, blobs@),
{
    if let Some(e) = refuse_formats(manifest) {
        return Err(e);
    }
    let mut input: Vec<u8> = Vec::new();
    frame_manifest(&mut input, manifest);
    frame_objects(&mut input, hashes);
    let ghost middle = input@;
    let k = blobs.len();
    let ghost names = blobs.keys();
    proof {
        table::lemma_ordered_is::<String>(names, blobs@.dom());
        assert(input@ =~= middle + blobs_input(blobs@, names, 0));
    }
    let mut b: usize = 0;
    while b < k
        invariant
            b <= k == names.len(),
            names == blobs.keys(),
            blob_fault(blobs@, names, b as nat) is None,
            input@ == middle + blobs_input(blobs@, names, b as nat),
        decreases k - b,
    {
        let name = blobs.key_at(b);
        let content = blobs.value_at(b);
        proof {
            if blob_fault(blobs@, names, (b + 1) as nat) is Some {
                lemma_fault_stays(blobs@, names, (b + 1) as nat, names.len());
            }
        }
        if utf8_text(content).is_none() {
            return fail(ErrorCode::SyncStateInvalid, "Sync source content is not UTF-8");
        }
        if !same_text(sha256(content.as_slice()).as_str(), promised(name.as_str()).as_str()) {
            let message = join2("Sync blob checksum differs for ", name.as_str());
            return fail(ErrorCode::SyncChecksumMismatch, message.as_str());
        }
        push_framed(&mut input, name.as_str().as_bytes());
        push_framed(&mut input, natural_text(content.len() as u128).as_str().as_bytes());
        push_framed(&mut input, content.as_slice());
        assert(input@ =~= middle + blobs_input(blobs@, names, (b + 1) as nat));
        b += 1;
    }
    proof {
        let keys = table::ordered::<String>(manifest@.dom());
        let objects = table::ordered::<Pair>(hashes@.dom());
        assert(input@ =~= manifest_input(manifest@, keys, keys.len()) + objects_input(
            hashes@,
            objects,
            objects.len(),
        ) + blobs_input(blobs@, names, names.len()));
    }
    Ok(sha256(input.as_slice()))
}

// ---------------------------------------------------------------------------
// The shape of a file
// ---------------------------------------------------------------------------

/// A column of a table, as the file declares it.
pub struct Column {
    pub name: String,
    pub declared: String,
    pub not_null: i64,
    pub primary_key: i64,
}

#[verifier::ext_equal]
pub struct ColumnView {
    pub name: Seq<char>,
    pub declared: Seq<char>,
    pub not_null: int,
    pub primary_key: int,
}

impl View for Column {
    type V = ColumnView;

    open spec fn view(&self) -> ColumnView {
        ColumnView {
            name: self.name@,
            declared: self.declared@,
            not_null: self.not_null as int,
            primary_key: self.primary_key as int,
        }
    }
}

/// What a file says of its own shape.
pub struct FileShape {
    pub regular: bool,
    pub integrity: String,
    pub schema: Vec<Pair>,
    pub manifest: Vec<Column>,
    pub objects: Vec<Column>,
    pub blobs: Vec<Column>,
    pub manifest_keys: Vec<String>,
}

pub open spec fn column(
    name: Seq<char>,
    declared: Seq<char>,
    not_null: int,
    primary_key: int,
) -> ColumnView {
    ColumnView { name, declared, not_null, primary_key }
}

pub open spec fn manifest_columns() -> Seq<ColumnView> {
    seq![column("key"@, "TEXT"@, 1, 1), column("value"@, "TEXT"@, 1, 0)]
}

pub open spec fn object_columns() -> Seq<ColumnView> {
    seq![
        column("kind"@, "TEXT"@, 1, 1),
        column("logical_key"@, "TEXT"@, 1, 2),
        column("payload_json"@, "TEXT"@, 1, 0),
        column("payload_hash"@, "TEXT"@, 1, 0),
    ]
}

pub open spec fn blob_columns() -> Seq<ColumnView> {
    seq![column("content_hash"@, "TEXT"@, 1, 1), column("content"@, "BLOB"@, 1, 0)]
}

pub open spec fn file_schema() -> Seq<PairView> {
    seq![
        table::pair("table"@, "sync_blobs"@),
        table::pair("table"@, "sync_manifest"@),
        table::pair("table"@, "sync_objects"@),
    ]
}

/// What is wrong with the shape of a file, if anything.
pub open spec fn shape_check(shape: FileShape) -> Result<(), AppErrorView> {
    let bad = |message: Seq<char>| error::refused(ErrorCode::SyncStateInvalid, message);
    if !shape.regular {
        bad("normalized Sync state must be a regular non-symlink file"@)
    } else if shape.integrity@ != "ok"@ {
        bad("normalized Sync state integrity check failed: "@ + shape.integrity@)
    } else if text::views(shape.schema@) != file_schema() {
        bad("unexpected normalized Sync schema"@)
    } else if text::views(shape.manifest@) != manifest_columns() {
        bad("unexpected normalized Sync schema for sync_manifest"@)
    } else if text::views(shape.objects@) != object_columns() {
        bad("unexpected normalized Sync schema for sync_objects"@)
    } else if text::views(shape.blobs@) != blob_columns() {
        bad("unexpected normalized Sync schema for sync_blobs"@)
    } else if text::views(shape.manifest_keys@) != seq!["format"@, "store_format"@] {
        bad("unexpected normalized Sync manifest keys"@)
    } else {
        Ok(())
    }
}

fn make_column(name: &str, declared: &str, not_null: i64, primary_key: i64) -> (r: Column)
    ensures
        r@ == column(name@, declared@, not_null as int, primary_key as int),
{
    Column { name: owned(name), declared: owned(declared), not_null, primary_key }
}

fn same_columns(a: &Vec<Column>, b: &Vec<Column>) -> (r: bool)
    ensures
        r == (text::views(a@) == text::views(b@)),
{
    if a.len() != b.len() {
        assert(text::views(a@).len() != text::views(b@).len());
        return false;
    }
    let mut i: usize = 0;
    while i < a.len()
        invariant
            i <= a@.len(),
            a@.len() == b@.len(),
            forall|j: int| 0 <= j < i ==> #[trigger] a@[j]@ == b@[j]@,
        decreases a@.len() - i,
    {
        let x = &a[i];
        let y = &b[i];
        if !same_text(x.name.as_str(), y.name.as_str()) || !same_text(
            x.declared.as_str(),
            y.declared.as_str(),
        ) || x.not_null != y.not_null || x.primary_key != y.primary_key {
            assert(text::views(a@)[i as int] != text::views(b@)[i as int]);
            return false;
        }
        i += 1;
    }
    assert(text::views(a@) =~= text::views(b@));
    true
}

fn same_pairs(a: &Vec<Pair>, b: &Vec<Pair>) -> (r: bool)
    ensures
        r == (text::views(a@) == text::views(b@)),
{
    if a.len() != b.len() {
        assert(text::views(a@).len() != text::views(b@).len());
        return false;
    }
    let mut i: usize = 0;
    while i < a.len()
        invariant
            i <= a@.len(),
            a@.len() == b@.len(),
            forall|j: int| 0 <= j < i ==> #[trigger] a@[j]@ == b@[j]@,
        decreases a@.len() - i,
    {
        if !same_text(a[i].first.as_str(), b[i].first.as_str()) || !same_text(
            a[i].second.as_str(),
            b[i].second.as_str(),
        ) {
            assert(text::views(a@)[i as int] != text::views(b@)[i as int]);
            return false;
        }
        i += 1;
    }
    assert(text::views(a@) =~= text::views(b@));
    true
}

/// Checks the shape of a file that should hold a normalised state.
pub fn validate_sync_state_file(shape: &FileShape) -> (r: Result<(), AppError>)
    ensures
        error::outcome(r) == shape_check(*shape),
{
    if !shape.regular {
        return fail(
            ErrorCode::SyncStateInvalid,
            "normalized Sync state must be a regular non-symlink file",
        );
    }
    if !same_text(shape.integrity.as_str(), "ok") {
        let message = join2(
            "normalized Sync state integrity check failed: ",
            shape.integrity.as_str(),
        );
        return fail(ErrorCode::SyncStateInvalid, message.as_str());
    }
    let mut schema: Vec<Pair> = Vec::new();
    schema.push(Pair::new("table", "sync_blobs"));
    schema.push(Pair::new("table", "sync_manifest"));
    schema.push(Pair::new("table", "sync_objects"));
    assert(text::views(schema@) =~= file_schema());
    if !same_pairs(&shape.schema, &schema) {
        return fail(ErrorCode::SyncStateInvalid, "unexpected normalized Sync schema");
    }
    let mut manifest: Vec<Column> = Vec::new();
    manifest.push(make_column("key", "TEXT", 1, 1));
    manifest.push(make_column("value", "TEXT", 1, 0));
    assert(text::views(manifest@) =~= manifest_columns());
    if !same_columns(&shape.manifest, &manifest) {
        return fail(
            ErrorCode::SyncStateInvalid,
            "unexpected normalized Sync schema for sync_manifest",
        );
    }
    let mut objects: Vec<Column> = Vec::new();
    objects.push(make_column("kind", "TEXT", 1, 1));
    objects.push(make_column("logical_key", "TEXT", 1, 2));
    objects.push(make_column("payload_json", "TEXT", 1, 0));
    objects.push(make_column("payload_hash", "TEXT", 1, 0));
    assert(text::views(objects@) =~= object_columns());
    if !same_columns(&shape.objects, &objects) {
        return fail(
            ErrorCode::SyncStateInvalid,
            "unexpected normalized Sync schema for sync_objects",
        );
    }
    let mut blobs: Vec<Column> = Vec::new();
    blobs.push(make_column("content_hash", "TEXT", 1, 1));
    blobs.push(make_column("content", "BLOB", 1, 0));
    assert(text::views(blobs@) =~= blob_columns());
    if !same_columns(&shape.blobs, &blobs) {
        return fail(
            ErrorCode::SyncStateInvalid,
            "unexpected normalized Sync schema for sync_blobs",
        );
    }
    let mut keys: Vec<String> = Vec::new();
    keys.push(owned("format"));
    keys.push(owned("store_format"));
    assert(text::views(keys@) =~= seq!["format"@, "store_format"@]);
    if !text::same_texts(&shape.manifest_keys, &keys) {
        return fail(
            ErrorCode::SyncStateInvalid,
            "unexpected normalized Sync manifest keys",
        );
    }
    Ok(())
}

// ---------------------------------------------------------------------------
// Transfers
// ---------------------------------------------------------------------------

/// Whether a transfer carries a whole state or what changed since a baseline.
#[derive(Clone, Copy, PartialEq, Eq, Structural, Debug)]
pub enum SyncTransferKind {
    Full,
    Delta,
}

/// The kind of a transfer: what changed where that is smaller than the state.
pub fn select_sync_transfer(delta_bytes: Option<u64>, full_bytes: u64) -> (r: SyncTransferKind)
    ensures
        r == (if delta_bytes is Some && delta_bytes->0 < full_bytes {
            SyncTransferKind::Delta
        } else {
            SyncTransferKind::Full
        }),
{
    match delta_bytes {
        Some(n) => if n < full_bytes {
            SyncTransferKind::Delta
        } else {
            SyncTransferKind::Full
        },
        None => SyncTransferKind::Full,
    }
}

/// The formats of the stores behind a baseline and a state must be the same.
pub fn ensure_sync_store_format_matches(baseline: &str, current: &str) -> (r: Result<(), AppError>)
    ensures
        error::outcome(r) == (if baseline@ == current@ {
            Ok::<(), AppErrorView>(())
        } else {
            error::refused(ErrorCode::SyncBaselineMismatch, "normalized store formats differ"@)
        }),
{
    if same_text(baseline, current) {
        Ok(())
    } else {
        fail(ErrorCode::SyncBaselineMismatch, "normalized store formats differ")
    }
}

/// Whether a transfer of this kind can be applied: a delta only to the baseline
/// it was made against. `promised` is the baseline digest that the transfer
/// names, `actual` that of the baseline at hand.
pub fn check_transfer_baseline(
    kind: SyncTransferKind,
    promised: &Option<String>,
    actual: &Option<String>,
) -> (r: Result<(), AppError>)
    ensures
        error::outcome(r) == (if kind == SyncTransferKind::Full {
            Ok::<(), AppErrorView>(())
        } else if actual is None {
            error::refused(
                ErrorCode::SyncBaselineMissing,
                "a delta requires its confirmed baseline"@,
            )
        } else if text::opt_text(*promised) != text::opt_text(*actual) {
            error::refused(
                ErrorCode::SyncBaselineMismatch,
                "the delta baseline checksum differs"@,
            )
        } else {
            Ok(())
        }),
{
    match kind {
        SyncTransferKind::Full => Ok(()),
        SyncTransferKind::Delta => {
            if actual.is_none() {
                return fail(
                    ErrorCode::SyncBaselineMissing,
                    "a delta requires its confirmed baseline",
                );
            }
            if !text::same_opt(promised, actual) {
                return fail(
                    ErrorCode::SyncBaselineMismatch,
                    "the delta baseline checksum differs",
                );
            }
            Ok(())
        },
    }
}

/// What a transfer rebuilt must have the digest that it promised.
pub fn check_transfer_result(rebuilt: &str, promised: &str) -> (r: Result<(), AppError>)
    ensures
        error::outcome(r) == (if rebuilt@ == promised@ {
            Ok::<(), AppErrorView>(())
        } else {
            error::refused(
                ErrorCode::SyncChecksumMismatch,
                "reconstructed Sync state checksum differs"@,
            )
        }),
{
    if same_text(rebuilt, promised) {
        Ok(())
    } else {
        fail(
            ErrorCode::SyncChecksumMismatch,
            "reconstructed Sync state checksum differs",
        )
    }
}

} // verus!
