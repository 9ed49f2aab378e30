//! Checkpoints: their names, what they hold, and what a store becomes when one of them
//! is put in its place.
use crate::changeset_log::ChangesetRollbackState;
use crate::changesets::{ChangesetHistoryState, HistoryView};
use crate::error;
use crate::error::{AppError, AppErrorView, ErrorCode};
use crate::json;
use crate::json::{Json, JsonView};
use crate::publish;
use crate::spans::{Segments, SegmentsView};
use crate::sparse_inverse;
use crate::sparse_inverse::{validate_changeset_id, InversePayload, InverseView};
use crate::sparse_rollback;
use crate::sparse_rollback::{ChangesetRollbackInput, RollbackInputView};
use crate::store;
use crate::store::{Store, StoreView};
use crate::table;
use crate::table::{Pair, PairView, Record, Table};
use crate::text;
use crate::text::{
    any_control, byte_len, chars_of, ends_with, has_char, has_text, join2, join3, join4, join5,
    natural_text, owned, same_text, slice_text, trim,
};
use vstd::prelude::*;

verus! {

// ---------------------------------------------------------------------------
// Names
// ---------------------------------------------------------------------------

/// A name that is one plain segment of a path.
pub open spec fn is_checkpoint_name(name: Seq<char>) -> bool {
    &&& 0 < text::byte_count(name) <= 80
    &&& name.len() > 0
    &&& name == text::trimmed(name)
    &&& name != "."@
    &&& name != ".."@
    &&& !name.contains('/')
    &&& !name.contains('\\')
    &&& !text::has_control(name)
}

pub open spec fn name_checked(name: Seq<char>) -> Result<(), AppErrorView> {
    if is_checkpoint_name(name) {
        Ok(())
    } else {
        error::refused(
            ErrorCode::CheckpointNameInvalid,
            "checkpoint name must be one safe filename segment of at most 80 bytes"@,
        )
    }
}

/// Checks the name of a checkpoint.
pub fn validate_checkpoint_name(name: &str) -> (r: Result<(), AppError>)
    ensures
        error::outcome(r) == name_checked(name@),
{
    let bytes = byte_len(name);
    let sound = 0 < bytes && bytes <= 80 && chars_of(name).len() > 0 && same_text(
        name,
        trim(name).as_str(),
    ) && !same_text(name, ".") && !same_text(name, "..") && !has_char(name, '/') && !has_char(
        name,
        '\\',
    ) && !any_control(name);
    if sound {
        Ok(())
    } else {
        Err(
            AppError::new(
                ErrorCode::CheckpointNameInvalid,
                "checkpoint name must be one safe filename segment of at most 80 bytes",
            ),
        )
    }
}

/// The file of a checkpoint in a directory.
pub open spec fn checkpoint_file(directory: Seq<char>, name: Seq<char>) -> Seq<char> {
    directory + "/"@ + name + ".db"@
}

/// The file of a checkpoint in a directory, where its name is sound.
pub fn checkpoint_path(directory: &str, name: &str) -> (r: Result<String, AppError>)
    ensures
        match name_checked(name@) {
            Ok(_) => r matches Ok(path) && path@ == checkpoint_file(directory@, name@),
            Err(e) => r matches Err(got) && got@ == e,
        },
{
    match validate_checkpoint_name(name) {
        Ok(_) => Ok(join4(directory, "/", name, ".db")),
        Err(e) => Err(e),
    }
}

/// The name to try after `turn` others, for a time in milliseconds.
pub open spec fn name_tried(prefix: Seq<char>, millis: nat, turn: nat) -> Seq<char> {
    if turn == 0 {
        prefix + "-"@ + text::natural(millis)
    } else {
        prefix + "-"@ + text::natural(millis) + "-"@ + text::natural(turn)
    }
}

/// The first name from a turn on that no checkpoint has.
pub open spec fn first_free(
    prefix: Seq<char>,
    millis: nat,
    taken: Seq<Seq<char>>,
    turn: nat,
) -> Result<Seq<char>, AppErrorView>
    decreases 1000 - turn,
{
    if turn >= 1000 {
        error::refused(
            ErrorCode::CheckpointCreateFailed,
            "could not allocate a safety checkpoint name"@,
        )
    } else {
        let name = name_tried(prefix, millis, turn);
        match name_checked(name) {
            Err(e) => Err(e),
            Ok(_) => if taken.contains(name) {
                first_free(prefix, millis, taken, turn + 1)
            } else {
                Ok(name)
            },
        }
    }
}

/// A name that no checkpoint has.
pub open spec fn fresh_name(prefix: Seq<char>, millis: nat, taken: Seq<Seq<char>>) -> Result<
    Seq<char>,
    AppErrorView,
> {
    match name_checked(prefix) {
        Err(e) => Err(e),
        Ok(_) => first_free(prefix, millis, taken, 0),
    }
}

/// A name that no checkpoint has, made of a prefix and the time in milliseconds.
pub fn fresh_checkpoint_name(prefix: &str, millis: u64, taken: &Vec<String>) -> (r: Result<
    String,
    AppError,
>)
    ensures
        error::outcome(r) == fresh_name(prefix@, millis as nat, text::views(taken@)),
{
    if let Err(e) = validate_checkpoint_name(prefix) {
        return Err(e);
    }
    let time = natural_text(millis as u128);
    let mut turn: u64 = 0;
    while turn < 1000
        invariant
            turn <= 1000,
            time@ == text::natural(millis as nat),
            first_free(prefix@, millis as nat, text::views(taken@), 0) == first_free(
                prefix@,
                millis as nat,
                text::views(taken@),
                turn as nat,
            ),
        decreases 1000 - turn,
    {
        let name = if turn == 0 {
            join3(prefix, "-", time.as_str())
        } else {
            join5(prefix, "-", time.as_str(), "-", natural_text(turn as u128).as_str())
        };
        if let Err(e) = validate_checkpoint_name(name.as_str()) {
            return Err(e);
        }
        if !has_text(taken, name.as_str()) {
            return Ok(name);
        }
        turn += 1;
    }
    Err(
        AppError::new(
            ErrorCode::CheckpointCreateFailed,
            "could not allocate a safety checkpoint name",
        ),
    )
}

// ---------------------------------------------------------------------------
// Making checkpoints
// ---------------------------------------------------------------------------

/// A checkpoint of a store, and the one that keeps what it replaced.
pub struct CheckpointResponse {
    pub scope: String,
    pub database: String,
    pub checkpoint: String,
    pub path: String,
    pub safety_checkpoint: Option<String>,
}

#[verifier::ext_equal]
pub struct CheckpointView {
    pub scope: Seq<char>,
    pub database: Seq<char>,
    pub checkpoint: Seq<char>,
    pub path: Seq<char>,
    pub safety_checkpoint: Option<Seq<char>>,
}

impl View for CheckpointResponse {
    type V = CheckpointView;

    open spec fn view(&self) -> CheckpointView {
        CheckpointView {
            scope: self.scope@,
            database: self.database@,
            checkpoint: self.checkpoint@,
            path: self.path@,
            safety_checkpoint: text::opt_text(self.safety_checkpoint),
        }
    }
}

/// A new checkpoint, and what it holds.
pub struct NewCheckpoint {
    pub response: CheckpointResponse,
    pub snapshot: Store,
}

pub open spec fn response_of(
    store: StoreView,
    directory: Seq<char>,
    name: Seq<char>,
    safety: Option<Seq<char>>,
) -> CheckpointView {
    CheckpointView {
        scope: store.scope,
        database: store.database,
        checkpoint: name,
        path: checkpoint_file(directory, name),
        safety_checkpoint: safety,
    }
}

/// What making a checkpoint of a name comes to.
pub open spec fn create_goal(
    store: StoreView,
    directory: Seq<char>,
    taken: Seq<Seq<char>>,
    name: Seq<char>,
) -> Result<CheckpointView, AppErrorView> {
    match name_checked(name) {
        Err(e) => Err(e),
        Ok(_) => if taken.contains(name) {
            error::refused(
                ErrorCode::CheckpointExists,
                "cannot create "@ + checkpoint_file(directory, name) + ": file exists"@,
            )
        } else {
            Ok(response_of(store, directory, name, None))
        },
    }
}

/// A checkpoint was made: the response is as wanted, and it holds the whole store.
pub open spec fn made(
    store: StoreView,
    r: Result<NewCheckpoint, AppError>,
    goal: Result<CheckpointView, AppErrorView>,
) -> bool {
    match goal {
        Ok(view) => r matches Ok(got) && got.response@ == view && got.snapshot@ == store,
        Err(e) => r matches Err(got) && got@ == e,
    }
}

/// The name of the checkpoint from before something happens to a changeset.
pub open spec fn changeset_name(
    word: Seq<char>,
    id: Seq<char>,
    millis: nat,
    taken: Seq<Seq<char>>,
) -> Result<Seq<char>, AppErrorView> {
    if !text::is_hex(id, 64) {
        Err(sparse_inverse::bad_changeset_id())
    } else {
        fresh_name(word + id.take(12), millis, taken)
    }
}

/// The name of the checkpoint from before something happens to a changeset.
pub fn changeset_checkpoint_name(word: &str, id: &str, millis: u64, taken: &Vec<String>) -> (r:
    Result<String, AppError>)
    ensures
        error::outcome(r) == changeset_name(word@, id@, millis as nat, text::views(taken@)),
{
    if let Err(e) = validate_changeset_id(id) {
        return Err(e);
    }
    let chars = chars_of(id);
    let short = slice_text(&chars, 0, 12);
    assert(short@ =~= id@.take(12));
    fresh_checkpoint_name(join2(word, short.as_str()).as_str(), millis, taken)
}

/// What making a checkpoint for a changeset comes to.
pub open spec fn changeset_checkpoint_goal(
    store: StoreView,
    word: Seq<char>,
    directory: Seq<char>,
    taken: Seq<Seq<char>>,
    millis: nat,
    id: Seq<char>,
) -> Result<CheckpointView, AppErrorView> {
    match changeset_name(word, id, millis, taken) {
        Err(e) => Err(e),
        Ok(name) => Ok(response_of(store, directory, name, None)),
    }
}

// ---------------------------------------------------------------------------
// Listing checkpoints
// ---------------------------------------------------------------------------

/// An entry of the directory of checkpoints.
pub struct DirectoryEntry {
    pub file_name: String,
    pub path: String,
    /// It is a file, and not a link to one.
    pub regular: bool,
    pub bytes: u64,
}

#[verifier::ext_equal]
pub struct DirectoryEntryView {
    pub file_name: Seq<char>,
    pub path: Seq<char>,
    pub regular: bool,
    pub bytes: u64,
}

impl View for DirectoryEntry {
    type V = DirectoryEntryView;

    open spec fn view(&self) -> DirectoryEntryView {
        DirectoryEntryView {
            file_name: self.file_name@,
            path: self.path@,
            regular: self.regular,
            bytes: self.bytes,
        }
    }
}

/// A checkpoint as it lies in the directory.
pub struct CheckpointRecord {
    pub name: String,
    pub path: String,
    pub bytes: u64,
}

#[verifier::ext_equal]
pub struct CheckpointRecordView {
    pub name: Seq<char>,
    pub path: Seq<char>,
    pub bytes: u64,
}

impl View for CheckpointRecord {
    type V = CheckpointRecordView;

    open spec fn view(&self) -> CheckpointRecordView {
        CheckpointRecordView {
            name: self.name@,
            path: self.path@,
            bytes: self.bytes,
        }
    }
}

impl Record for CheckpointRecord {
    fn duplicate(&self) -> (r: Self) {
        CheckpointRecord {
            name: owned(self.name.as_str()),
            path: owned(self.path.as_str()),
            bytes: self.bytes,
        }
    }

    fn same(&self, other: &Self) -> (r: bool) {
        same_text(self.name.as_str(), other.name.as_str())
            && same_text(self.path.as_str(), other.path.as_str())
            && self.bytes == other.bytes
    }
}

/// The checkpoints of a store, by name.
pub struct CheckpointListResponse {
    pub scope: String,
    pub database: String,
    pub checkpoints: Vec<CheckpointRecord>,
}

/// The file is one of a checkpoint.
pub open spec fn is_checkpoint_file(name: Seq<char>) -> bool {
    name.len() > 3 && ".db"@.is_suffix_of(name)
}

/// The checkpoints among the first `count` entries of a directory, by name.
pub open spec fn checkpoints_among(entries: Seq<DirectoryEntryView>, count: nat) -> Map<
    Seq<char>,
    CheckpointRecordView,
>
    decreases count,
{
    if count == 0 || count > entries.len() {
        Map::empty()
    } else {
        let head = checkpoints_among(entries, (count - 1) as nat);
        let entry = entries[count - 1];
        if entry.regular && is_checkpoint_file(entry.file_name) {
            let name = entry.file_name.take(entry.file_name.len() - 3);
            head.insert(name, CheckpointRecordView { name, path: entry.path, bytes: entry.bytes })
        } else {
            head
        }
    }
}

/// The checkpoints among the entries of a directory, in the order of their names.
pub open spec fn listed(entries: Seq<DirectoryEntryView>) -> Seq<CheckpointRecordView> {
    let found = checkpoints_among(entries, entries.len());
    table::ordered::<String>(found.dom()).map_values(|name: Seq<char>| found[name])
}

fn find_checkpoints(entries: &Vec<DirectoryEntry>) -> (r: Table<String, CheckpointRecord>)
    ensures
        r@ == checkpoints_among(text::views(entries@), entries@.len()),
{
    let ghost all = text::views(entries@);
    let mut found: Table<String, CheckpointRecord> = Table::new();
    let mut i: usize = 0;
    while i < entries.len()
        invariant
            i <= entries@.len() == all.len(),
            all == text::views(entries@),
            found@ == checkpoints_among(all, i as nat),
        decreases entries@.len() - i,
    {
        let entry = &entries[i];
        assert(all[i as int] == entry@);
        let chars = chars_of(entry.file_name.as_str());
        if entry.regular && chars.len() > 3 && ends_with(entry.file_name.as_str(), ".db") {
            let name = slice_text(&chars, 0, chars.len() - 3);
            assert(name@ =~= entry.file_name@.take(entry.file_name@.len() - 3));
            let record = CheckpointRecord {
                name: owned(name.as_str()),
                path: owned(entry.path.as_str()),
                bytes: entry.bytes,
            };
            found.put(name, record);
        }
        i += 1;
    }
    found
}

// ---------------------------------------------------------------------------
// What is found where a checkpoint should be
// ---------------------------------------------------------------------------

/// What is found where a checkpoint should be.
pub enum CheckpointFile {
    /// Nothing can be read there, for a reason.
    Missing(String),
    /// It is no regular file.
    Irregular,
    /// An inverse patch of a sparse changeset.
    Inverse(InversePayload),
    /// A whole store.
    Snapshot(Store),
    /// Neither: what opening it as a store came to.
    Unreadable(AppError),
}

#[verifier::ext_equal]
pub enum CheckpointFileView {
    Missing(Seq<char>),
    Irregular,
    Inverse(InverseView),
    Snapshot(StoreView),
    Unreadable(AppErrorView),
}

impl View for CheckpointFile {
    type V = CheckpointFileView;

    open spec fn view(&self) -> CheckpointFileView {
        match self {
            CheckpointFile::Missing(reason) => CheckpointFileView::Missing(reason@),
            CheckpointFile::Irregular => CheckpointFileView::Irregular,
            CheckpointFile::Inverse(inverse) => CheckpointFileView::Inverse(inverse@),
            CheckpointFile::Snapshot(snapshot) => CheckpointFileView::Snapshot(snapshot@),
            CheckpointFile::Unreadable(cause) => CheckpointFileView::Unreadable(cause@),
        }
    }
}

/// Whether a changeset can be taken back with what is found where its checkpoint should
/// be, and whether that is an inverse patch.
pub open spec fn validated(
    history: HistoryView,
    store_id: Seq<char>,
    file: CheckpointFileView,
) -> Result<bool, AppErrorView> {
    match history.pre_commit_checkpoint {
        None => error::refused(
            ErrorCode::ChangesetCorrupt,
            "committed changeset has no pre-commit checkpoint"@,
        ),
        Some(name) => match name_checked(name) {
            Err(e) => Err(e),
            Ok(_) => match file {
                CheckpointFileView::Missing(reason) => error::refused(
                    ErrorCode::ChangesetCorrupt,
                    "pre-commit checkpoint is unavailable: "@ + reason,
                ),
                CheckpointFileView::Irregular => error::refused(
                    ErrorCode::ChangesetCorrupt,
                    "pre-commit checkpoint is not a regular file"@,
                ),
                CheckpointFileView::Inverse(inverse) => if inverse.store_id != store_id
                    || inverse.changeset_id != history.id {
                    error::refused(
                        ErrorCode::ChangesetCorrupt,
                        "sparse inverse patch belongs to another Wiki or changeset"@,
                    )
                } else {
                    Ok(true)
                },
                CheckpointFileView::Unreadable(cause) => error::refused(
                    ErrorCode::ChangesetCorrupt,
                    cause.message,
                ),
                CheckpointFileView::Snapshot(snapshot) => match store::live_identity(snapshot) {
                    Err(e) => Err(e),
                    Ok(identity) => if identity.store_id != store_id {
                        error::refused(
                            ErrorCode::ChangesetCorrupt,
                            "pre-commit checkpoint belongs to another Wiki"@,
                        )
                    } else {
                        Ok(false)
                    },
                },
            },
        },
    }
}

/// What taking a changeset back comes to. `entries` are the documents that the text index of a
/// snapshot has.
pub open spec fn changeset_rollback_goal(
    store: StoreView,
    file: CheckpointFileView,
    entries: Set<PairView>,
    input: RollbackInputView,
    segments: SegmentsView,
    now: Seq<char>,
    revision: Seq<char>,
) -> Result<sparse_rollback::RolledBackView, AppErrorView> {
    match validated(input.history, input.store_id, file) {
        Err(e) => Err(e),
        Ok(_) => match file {
            CheckpointFileView::Inverse(inverse) => sparse_rollback::rollback_goal(
                store,
                inverse,
                input,
                segments,
                now,
                revision,
            ),
            CheckpointFileView::Snapshot(snapshot) => publish::snapshot_goal(
                store,
                snapshot,
                segments,
                entries,
                input,
                now,
                revision,
            ),
            _ => Err(store::no_rows()),
        },
    }
}

// ---------------------------------------------------------------------------
// Restoring a checkpoint
// ---------------------------------------------------------------------------

/// The error of a checkpoint that cannot be restored.
pub open spec fn restore_unsafe(name: Seq<char>, cause: AppErrorView) -> AppErrorView {
    AppErrorView {
        code: ErrorCode::CheckpointInvalid,
        message: "checkpoint "@ + name + " cannot be restored safely: "@ + cause.message,
        details: Some(
            JsonView::Object(
                seq![
                    json::entry("cause"@, JsonView::Text(cause.code.text())),
                    json::entry("checkpoint"@, JsonView::Text(name)),
                    json::entry("checkpoint_restored"@, JsonView::Bool(false)),
                ],
            ),
        ),
    }
}

/// The error of a checkpoint that cannot be restored.
pub fn unsafe_restore(name: &str, cause: AppError) -> (r: AppError)
    ensures
        r@ == restore_unsafe(name@, cause@),
{
    let ghost goal = restore_unsafe(name@, cause@);
    let mut entries: Vec<(String, Json)> = Vec::new();
    entries.push((owned("cause"), Json::text(cause.code.as_str())));
    entries.push((owned("checkpoint"), Json::text(name)));
    entries.push((owned("checkpoint_restored"), Json::Bool(false)));
    assert(json::entry_views(entries@) =~= goal.details->0->Object_0);
    AppError {
        code: ErrorCode::CheckpointInvalid,
        message: join4("checkpoint ", name, " cannot be restored safely: ", cause.message.as_str()),
        details: Some(Json::object(entries)),
    }
}

/// A checkpoint with the note that it was restored, under the name of the store.
pub open spec fn restored(
    live: StoreView,
    snapshot: StoreView,
    name: Seq<char>,
    safety: Seq<char>,
    now: Seq<char>,
    revision: Seq<char>,
) -> Result<StoreView, AppErrorView> {
    store::recorded(
        StoreView { scope: live.scope, database: live.database, ..snapshot },
        "checkpoint_restore"@,
        name,
        JsonView::Object(seq![json::entry("safety_checkpoint"@, JsonView::Text(safety))]),
        now,
        revision,
    )
}

/// A restored checkpoint: the store after it, and the response.
#[verifier::ext_equal]
pub struct RestoredView {
    pub store: StoreView,
    pub response: CheckpointView,
}

/// What restoring a checkpoint comes to.
pub open spec fn restore_goal(
    live: StoreView,
    directory: Seq<char>,
    file: CheckpointFileView,
    taken: Seq<Seq<char>>,
    millis: nat,
    name: Seq<char>,
    now: Seq<char>,
    revision: Seq<char>,
) -> Result<RestoredView, AppErrorView> {
    match name_checked(name) {
        Err(e) => Err(e),
        Ok(_) => match file {
            CheckpointFileView::Missing(reason) => error::refused(
                ErrorCode::CheckpointNotFound,
                "checkpoint "@ + name + " is unavailable: "@ + reason,
            ),
            CheckpointFileView::Irregular => error::refused(
                ErrorCode::CheckpointInvalid,
                "checkpoint "@ + name + " is not a regular file"@,
            ),
            CheckpointFileView::Inverse(_) => error::refused(
                ErrorCode::DatabaseError,
                "file is not a database"@,
            ),
            CheckpointFileView::Unreadable(cause) => Err(cause),
            CheckpointFileView::Snapshot(snapshot) => match fresh_name(
                "pre-restore"@,
                millis,
                taken,
            ) {
                Err(e) => Err(e),
                Ok(safety) => match restored(live, snapshot, name, safety, now, revision) {
                    Err(cause) => Err(restore_unsafe(name, cause)),
                    Ok(store) => Ok(
                        RestoredView {
                            store,
                            response: response_of(live, directory, name, Some(safety)),
                        },
                    ),
                },
            },
        },
    }
}

/// What one step of copying a database came to.
#[derive(Clone, Copy, PartialEq, Eq, Structural, Debug)]
pub enum BackupStep {
    More,
    Done,
    Busy,
    Locked,
    Other,
}

/// What to do after a step of copying a database.
pub enum BackupAction {
    /// The phase is over.
    Go,
    /// Wait a moment, and take the step again.
    Wait,
    /// Take the next step at once.
    Again,
    Fail(AppError),
}

#[verifier::ext_equal]
pub enum BackupActionView {
    Go,
    Wait,
    Again,
    Fail(AppErrorView),
}

impl View for BackupAction {
    type V = BackupActionView;

    open spec fn view(&self) -> BackupActionView {
        match self {
            BackupAction::Go => BackupActionView::Go,
            BackupAction::Wait => BackupActionView::Wait,
            BackupAction::Again => BackupActionView::Again,
            BackupAction::Fail(e) => BackupActionView::Fail(e@),
        }
    }
}

/// The error of a store that is in use for too long.
pub open spec fn busy(message: Seq<char>) -> AppErrorView {
    AppErrorView {
        code: ErrorCode::DatabaseBusy,
        message,
        details: Some(
            JsonView::Object(
                seq![
                    json::entry("checkpoint_restored"@, JsonView::Bool(false)),
                    json::entry("retry_after_ms"@, JsonView::Int(100)),
                    json::entry("retryable"@, JsonView::Bool(true)),
                ],
            ),
        ),
    }
}

fn busy_error(message: &str) -> (r: AppError)
    ensures
        r@ == busy(message@),
{
    let ghost goal = busy(message@);
    let mut entries: Vec<(String, Json)> = Vec::new();
    entries.push((owned("checkpoint_restored"), Json::Bool(false)));
    entries.push((owned("retry_after_ms"), Json::Int(100)));
    entries.push((owned("retryable"), Json::Bool(true)));
    assert(json::entry_views(entries@) =~= goal.details->0->Object_0);
    AppError {
        code: ErrorCode::DatabaseBusy,
        message: owned(message),
        details: Some(Json::object(entries)),
    }
}

/// What to do after the step that takes the lock on the live store.
pub open spec fn lock_action(step: BackupStep, late: bool) -> BackupActionView {
    match step {
        BackupStep::More => BackupActionView::Go,
        BackupStep::Done => BackupActionView::Fail(
            error::app_error(
                ErrorCode::CheckpointInvalid,
                "checkpoint is too small to preserve a pre-restore safety snapshot"@,
            ),
        ),
        BackupStep::Busy | BackupStep::Locked => if late {
            BackupActionView::Fail(
                busy(
                    "the live Wiki stayed busy while checkpoint restore was acquiring its write lock"@,
                ),
            )
        } else {
            BackupActionView::Wait
        },
        BackupStep::Other => BackupActionView::Again,
    }
}

/// What to do after a step that copies the checkpoint.
pub open spec fn copy_action(step: BackupStep, late: bool) -> BackupActionView {
    match step {
        BackupStep::Done => BackupActionView::Go,
        BackupStep::Busy | BackupStep::Locked => if late {
            BackupActionView::Fail(busy("the live Wiki stayed busy during checkpoint restore"@))
        } else {
            BackupActionView::Wait
        },
        BackupStep::More | BackupStep::Other => BackupActionView::Again,
    }
}

/// What to do after the step that takes the lock on the live store.
pub fn after_lock_step(step: BackupStep, late: bool) -> (r: BackupAction)
    ensures
        r@ == lock_action(step, late),
{
    match step {
        BackupStep::More => BackupAction::Go,
        BackupStep::Done => BackupAction::Fail(
            AppError::new(
                ErrorCode::CheckpointInvalid,
                "checkpoint is too small to preserve a pre-restore safety snapshot",
            ),
        ),
        BackupStep::Busy | BackupStep::Locked => if late {
            BackupAction::Fail(
                busy_error(
                    "the live Wiki stayed busy while checkpoint restore was acquiring its write lock",
                ),
            )
        } else {
            BackupAction::Wait
        },
        BackupStep::Other => BackupAction::Again,
    }
}

/// What to do after a step that copies the checkpoint.
pub fn after_copy_step(step: BackupStep, late: bool) -> (r: BackupAction)
    ensures
        r@ == copy_action(step, late),
{
    match step {
        BackupStep::Done => BackupAction::Go,
        BackupStep::Busy | BackupStep::Locked => if late {
            BackupAction::Fail(busy_error("the live Wiki stayed busy during checkpoint restore"))
        } else {
            BackupAction::Wait
        },
        BackupStep::More | BackupStep::Other => BackupAction::Again,
    }
}

/// Checks that the live store is still what the safety checkpoint keeps.
pub fn check_restore_base(live_revision: &str, safety_revision: &str) -> (r: Result<(), AppError>)
    ensures
        if live_revision@ == safety_revision@ {
            r is Ok
        } else {
            r matches Err(e) && e@ == busy(
                "the live Wiki changed while checkpoint restore was preparing; retry the restore"@,
            )
        },
{
    if same_text(live_revision, safety_revision) {
        Ok(())
    } else {
        Err(
            busy_error(
                "the live Wiki changed while checkpoint restore was preparing; retry the restore",
            ),
        )
    }
}

impl Store {
    fn respond(&self, directory: &str, name: &str, safety: Option<String>) -> (r: CheckpointResponse)
        ensures
            r@ == response_of(self@, directory@, name@, text::opt_text(safety)),
    {
        CheckpointResponse {
            scope: owned(self.scope.as_str()),
            database: owned(self.database.as_str()),
            checkpoint: owned(name),
            path: join4(directory, "/", name, ".db"),
            safety_checkpoint: safety,
        }
    }

    /// A copy of the whole store.
    pub fn snapshot_to(&self) -> (r: Store)
        ensures
            r@ == self@,
    {
        self.duplicate()
    }

    /// Makes a checkpoint of a name.
    pub fn checkpoint_create(&self, directory: &str, taken: &Vec<String>, name: &str) -> (r: Result<
        NewCheckpoint,
        AppError,
    >)
        ensures
            made(self@, r, create_goal(self@, directory@, text::views(taken@), name@)),
    {
        if let Err(e) = validate_checkpoint_name(name) {
            return Err(e);
        }
        let response = self.respond(directory, name, None);
        if has_text(taken, name) {
            return Err(
                AppError::new(
                    ErrorCode::CheckpointExists,
                    join3("cannot create ", response.path.as_str(), ": file exists").as_str(),
                ),
            );
        }
        Ok(NewCheckpoint { response, snapshot: self.duplicate() })
    }

    /// The checkpoints in the directory of the store.
    pub fn checkpoint_list(&self, entries: &Vec<DirectoryEntry>) -> (r: CheckpointListResponse)
        ensures
            r.scope@ == self@.scope,
            r.database@ == self@.database,
            text::views(r.checkpoints@) == listed(text::views(entries@)),
    {
        let found = find_checkpoints(entries);
        assert(text::views(entries@).len() == entries@.len());
        let ghost goal = listed(text::views(entries@));
        let n = found.len();
        let ghost keys = found.keys();
        proof {
            table::lemma_ordered_is::<String>(keys, found@.dom());
        }
        let mut checkpoints: Vec<CheckpointRecord> = Vec::new();
        let mut i: usize = 0;
        while i < n
            invariant
                i <= n == keys.len() == goal.len(),
                keys == found.keys(),
                text::views(checkpoints@) =~= goal.take(i as int),
            decreases n - i,
        {
            let one = found.value_at(i).duplicate();
            proof {
                assert(one@ == goal[i as int]);
                text::lemma_views_push(checkpoints@, one);
                assert(goal.take(i + 1) =~= goal.take(i as int).push(goal[i as int]));
            }
            checkpoints.push(one);
            i += 1;
        }
        assert(goal.take(n as int) =~= goal);
        CheckpointListResponse {
            scope: owned(self.scope.as_str()),
            database: owned(self.database.as_str()),
            checkpoints,
        }
    }

    /// Puts a checkpoint in place of the store; another one is to keep what was there.
    pub fn checkpoint_restore(
        &mut self,
        directory: &str,
        file: &CheckpointFile,
        taken: &Vec<String>,
        millis: u64,
        name: &str,
        now: &str,
        revision: &str,
    ) -> (r: Result<CheckpointResponse, AppError>)
        ensures
            match restore_goal(
                old(self)@,
                directory@,
                file@,
                text::views(taken@),
                millis as nat,
                name@,
                now@,
                revision@,
            ) {
                Ok(done) => (r matches Ok(got) && got@ == done.response) && final(self)@
                    == done.store,
                Err(e) => (r matches Err(got) && got@ == e) && final(self)@ == old(self)@,
            },
    {
        if let Err(e) = validate_checkpoint_name(name) {
            return Err(e);
        }
        let snapshot = match file {
            CheckpointFile::Missing(reason) => {
                return Err(
                    AppError::new(
                        ErrorCode::CheckpointNotFound,
                        join4("checkpoint ", name, " is unavailable: ", reason.as_str()).as_str(),
                    ),
                );
            },
            CheckpointFile::Irregular => {
                return Err(
                    AppError::new(
                        ErrorCode::CheckpointInvalid,
                        join3("checkpoint ", name, " is not a regular file").as_str(),
                    ),
                );
            },
            CheckpointFile::Inverse(_) => {
                return Err(AppError::new(ErrorCode::DatabaseError, "file is not a database"));
            },
            CheckpointFile::Unreadable(cause) => {
                return Err(cause.duplicate());
            },
            CheckpointFile::Snapshot(snapshot) => snapshot,
        };
        let safety = match fresh_checkpoint_name("pre-restore", millis, taken) {
            Ok(safety) => safety,
            Err(e) => {
                return Err(e);
            },
        };
        let mut next = snapshot.duplicate();
        next.scope = owned(self.scope.as_str());
        next.database = owned(self.database.as_str());
        let note = Json::object1("safety_checkpoint", Json::text(safety.as_str()));
        if let Err(cause) = next.record_operation("checkpoint_restore", name, note, now, revision) {
            return Err(unsafe_restore(name, cause));
        }
        let response = self.respond(directory, name, Some(safety));
        *self = next;
        Ok(response)
    }

    /// Makes a checkpoint from before a changeset is committed.
    pub fn changeset_checkpoint_create(
        &self,
        directory: &str,
        taken: &Vec<String>,
        millis: u64,
        changeset_id: &str,
    ) -> (r: Result<NewCheckpoint, AppError>)
        ensures
            made(
                self@,
                r,
                changeset_checkpoint_goal(
                    self@,
                    "pre-changeset-"@,
                    directory@,
                    text::views(taken@),
                    millis as nat,
                    changeset_id@,
                ),
            ),
    {
        match changeset_checkpoint_name("pre-changeset-", changeset_id, millis, taken) {
            Err(e) => Err(e),
            Ok(name) => Ok(
                NewCheckpoint {
                    response: self.respond(directory, name.as_str(), None),
                    snapshot: self.duplicate(),
                },
            ),
        }
    }

    /// Makes a checkpoint from before a changeset is taken back.
    pub fn changeset_rollback_checkpoint_create(
        &self,
        directory: &str,
        taken: &Vec<String>,
        millis: u64,
        changeset_id: &str,
    ) -> (r: Result<NewCheckpoint, AppError>)
        ensures
            made(
                self@,
                r,
                changeset_checkpoint_goal(
                    self@,
                    "pre-rollback-"@,
                    directory@,
                    text::views(taken@),
                    millis as nat,
                    changeset_id@,
                ),
            ),
    {
        match changeset_checkpoint_name("pre-rollback-", changeset_id, millis, taken) {
            Err(e) => Err(e),
            Ok(name) => Ok(
                NewCheckpoint {
                    response: self.respond(directory, name.as_str(), None),
                    snapshot: self.duplicate(),
                },
            ),
        }
    }

    /// Whether a changeset can be taken back with what is found where its checkpoint
    /// should be, and whether that is an inverse patch.
    pub fn changeset_rollback_checkpoint_validate(
        &self,
        history: &ChangesetHistoryState,
        store_id: &str,
        file: &CheckpointFile,
    ) -> (r: Result<bool, AppError>)
        ensures
            match validated(history@, store_id@, file@) {
                Ok(sparse) => r == Ok::<bool, AppError>(sparse),
                Err(e) => r matches Err(got) && got@ == e,
            },
    {
        let name = match &history.pre_commit_checkpoint {
            Some(name) => name,
            None => {
                return Err(
                    AppError::new(
                        ErrorCode::ChangesetCorrupt,
                        "committed changeset has no pre-commit checkpoint",
                    ),
                );
            },
        };
        if let Err(e) = validate_checkpoint_name(name.as_str()) {
            return Err(e);
        }
        match file {
            CheckpointFile::Missing(reason) => Err(
                AppError::new(
                    ErrorCode::ChangesetCorrupt,
                    join2("pre-commit checkpoint is unavailable: ", reason.as_str()).as_str(),
                ),
            ),
            CheckpointFile::Irregular => Err(
                AppError::new(
                    ErrorCode::ChangesetCorrupt,
                    "pre-commit checkpoint is not a regular file",
                ),
            ),
            CheckpointFile::Unreadable(cause) => Err(
                AppError::new(ErrorCode::ChangesetCorrupt, cause.message.as_str()),
            ),
            CheckpointFile::Inverse(inverse) => {
                if same_text(inverse.store_id.as_str(), store_id) && same_text(
                    inverse.changeset_id.as_str(),
                    history.id.as_str(),
                ) {
                    Ok(true)
                } else {
                    Err(
                        AppError::new(
                            ErrorCode::ChangesetCorrupt,
                            "sparse inverse patch belongs to another Wiki or changeset",
                        ),
                    )
                }
            },
            CheckpointFile::Snapshot(snapshot) => match snapshot.identity() {
                Err(e) => Err(e),
                Ok(identity) => {
                    if same_text(identity.store_id.as_str(), store_id) {
                        Ok(false)
                    } else {
                        Err(
                            AppError::new(
                                ErrorCode::ChangesetCorrupt,
                                "pre-commit checkpoint belongs to another Wiki",
                            ),
                        )
                    }
                },
            },
        }
    }

    /// Takes a committed changeset back. `entries` are the documents that the text index of a
    /// snapshot has.
    pub fn changeset_rollback(
        &mut self,
        file: &CheckpointFile,
        entries: &Table<Pair, bool>,
        input: &ChangesetRollbackInput,
        segments: &Segments,
        now: &str,
        revision: &str,
    ) -> (r: Result<ChangesetRollbackState, AppError>)
        ensures
            match changeset_rollback_goal(
                old(self)@,
                file@,
                entries@.dom(),
                input@,
                segments@,
                now@,
                revision@,
            ) {
                Ok(done) => (r matches Ok(got) && got@ == done.state) && final(self)@
                    == done.store,
                Err(e) => (r matches Err(got) && got@ == e) && final(self)@ == old(self)@,
            },
    {
        if let Err(e) = self.changeset_rollback_checkpoint_validate(
            &input.history,
            input.store_id.as_str(),
            file,
        ) {
            return Err(e);
        }
        match file {
            CheckpointFile::Inverse(inverse) => self.rollback_sparse_changeset(
                inverse,
                input,
                segments,
                now,
                revision,
            ),
            CheckpointFile::Snapshot(snapshot) => self.rollback_attached_changeset(
                snapshot,
                segments,
                entries,
                input,
                now,
                revision,
            ),
            _ => Err(store::no_rows_error()),
        }
    }
}

/// The checkpoint that a file of the directory is.
pub open spec fn record_of(entry: DirectoryEntryView) -> CheckpointRecordView {
    CheckpointRecordView {
        name: entry.file_name.take(entry.file_name.len() - 3),
        path: entry.path,
        bytes: entry.bytes,
    }
}

/// An entry of the directory is the file of a checkpoint.
pub open spec fn holds_checkpoint(entry: DirectoryEntryView) -> bool {
    entry.regular && is_checkpoint_file(entry.file_name)
}

/// A directory has no two entries of one name.
pub open spec fn names_differ(entries: Seq<DirectoryEntryView>) -> bool {
    forall|i: int, j: int|
        0 <= i < j < entries.len() ==> entries[i].file_name != entries[j].file_name
}

proof fn lemma_stem(a: Seq<char>, b: Seq<char>)
    requires
        is_checkpoint_file(a),
        is_checkpoint_file(b),
        a.take(a.len() - 3) == b.take(b.len() - 3),
    ensures
        a == b,
{
    reveal_strlit(".db");
    assert(a =~= a.take(a.len() - 3) + ".db"@);
    assert(b =~= b.take(b.len() - 3) + ".db"@);
}

proof fn lemma_among(entries: Seq<DirectoryEntryView>, count: nat)
    requires
        count <= entries.len(),
        names_differ(entries),
    ensures
        checkpoints_among(entries, count).dom().finite(),
        forall|i: int|
            0 <= i < count && holds_checkpoint(#[trigger] entries[i]) ==> {
                let name = record_of(entries[i]).name;
                &&& checkpoints_among(entries, count).dom().contains(name)
                &&& checkpoints_among(entries, count)[name] == record_of(entries[i])
            },
        forall|name: Seq<char>| #[trigger]
            checkpoints_among(entries, count).dom().contains(name) ==> {
                &&& checkpoints_among(entries, count)[name].name == name
                &&& exists|i: int|
                    0 <= i < count && holds_checkpoint(#[trigger] entries[i]) && record_of(
                        entries[i],
                    ) == checkpoints_among(entries, count)[name]
            },
    decreases count,
{
    if count > 0 {
        let less = (count - 1) as nat;
        lemma_among(entries, less);
        let head = checkpoints_among(entries, less);
        let found = checkpoints_among(entries, count);
        let last = entries[count - 1];
        assert forall|i: int| 0 <= i < count && holds_checkpoint(#[trigger] entries[i]) implies {
            let name = record_of(entries[i]).name;
            &&& found.dom().contains(name)
            &&& found[name] == record_of(entries[i])
        } by {
            if i < less && holds_checkpoint(last) && record_of(entries[i]).name == record_of(
                last,
            ).name {
                lemma_stem(entries[i].file_name, last.file_name);
            }
        }
        assert forall|name: Seq<char>| #[trigger] found.dom().contains(name) implies {
            &&& found[name].name == name
            &&& exists|i: int|
                0 <= i < count && holds_checkpoint(#[trigger] entries[i]) && record_of(entries[i])
                    == found[name]
        } by {
            if holds_checkpoint(last) && name == record_of(last).name {
                assert(record_of(entries[count - 1]) == found[name]);
            } else {
                assert(head.dom().contains(name));
            }
        }
    }
}

/// The list has exactly one record for each file of a checkpoint in the directory, in ascending
/// order of the names. So a checkpoint that was made, and whose file still stands in the
/// directory, is on it under its name.
pub proof fn law_every_checkpoint_is_listed(
    store: StoreView,
    directory: Seq<char>,
    taken: Seq<Seq<char>>,
    name: Seq<char>,
    entries: Seq<DirectoryEntryView>,
    at: int,
)
    requires
        names_differ(entries),
    ensures
        forall|i: int|
            0 <= i < entries.len() && holds_checkpoint(#[trigger] entries[i]) ==> listed(
                entries,
            ).contains(record_of(entries[i])),
        forall|k: int|
            0 <= k < listed(entries).len() ==> exists|i: int|
                0 <= i < entries.len() && holds_checkpoint(#[trigger] entries[i]) && record_of(
                    entries[i],
                ) == #[trigger] listed(entries)[k],
        forall|j: int, k: int|
            0 <= j < k < listed(entries).len() ==> text::before(
                (#[trigger] listed(entries)[j]).name,
                (#[trigger] listed(entries)[k]).name,
            ),
        create_goal(store, directory, taken, name) matches Ok(done) ==> (0 <= at < entries.len()
            && entries[at].regular && entries[at].file_name == name + ".db"@ && entries[at].path
            == done.path ==> listed(entries).contains(
            (CheckpointRecordView { name, path: done.path, bytes: entries[at].bytes }),
        )),
        entries.len() == 0 ==> listed(entries).len() == 0,
{
    let found = checkpoints_among(entries, entries.len());
    lemma_among(entries, entries.len());
    table::lemma_has_order::<String>(found.dom());
    let names = table::ordered::<String>(found.dom());
    let list = listed(entries);
    assert forall|i: int| 0 <= i < entries.len() && holds_checkpoint(
        #[trigger] entries[i],
    ) implies list.contains(record_of(entries[i])) by {
        let one = record_of(entries[i]).name;
        assert(names.to_set().contains(one));
        let k = names.index_of(one);
        assert(list[k] == record_of(entries[i]));
    }
    assert forall|k: int| 0 <= k < list.len() implies exists|i: int|
        0 <= i < entries.len() && holds_checkpoint(#[trigger] entries[i]) && record_of(entries[i])
            == #[trigger] list[k] by {
        assert(names.to_set().contains(names[k]));
        assert(found.dom().contains(names[k]));
    }
    assert forall|j: int, k: int| 0 <= j < k < list.len() implies text::before(
        (#[trigger] list[j]).name,
        (#[trigger] list[k]).name,
    ) by {
        assert(names.to_set().contains(names[j]) && names.to_set().contains(names[k]));
        assert(found.dom().contains(names[j]) && found.dom().contains(names[k]));
        assert(<String as table::TableKey>::precedes(names[j], names[k]));
    }
    if create_goal(store, directory, taken, name) is Ok && 0 <= at < entries.len()
        && entries[at].regular && entries[at].file_name == name + ".db"@ {
        reveal_strlit(".db");
        let file = entries[at].file_name;
        assert(file.subrange(file.len() - 3, file.len() as int) =~= ".db"@);
        assert(file.take(file.len() - 3) =~= name);
        assert(holds_checkpoint(entries[at]));
    }
    if entries.len() == 0 {
        assert(found.dom() =~= Set::empty());
        let none = Seq::<Seq<char>>::empty();
        assert(none.to_set() =~= found.dom());
        table::lemma_ordered_is::<String>(none, found.dom());
    }
}

/// Restoring a checkpoint gives the store that it was made of back, with one operation
/// more in the log, which names the checkpoint.
pub proof fn law_restore_gives_back(
    made_of: StoreView,
    live: StoreView,
    directory: Seq<char>,
    taken: Seq<Seq<char>>,
    millis: nat,
    name: Seq<char>,
    now: Seq<char>,
    revision: Seq<char>,
)
    requires
        made_of.scope == live.scope,
        made_of.database == live.database,
    ensures
        restore_goal(
            live,
            directory,
            CheckpointFileView::Snapshot(made_of),
            taken,
            millis,
            name,
            now,
            revision,
        ) matches Ok(done) ==> {
            &&& done.store.operations.len() == made_of.operations.len() + 1
            &&& done.store.operations.last().action == "checkpoint_restore"@
            &&& done.store.operations.last().target == name
            &&& done.store == (StoreView {
                operations: done.store.operations,
                operation_sequence: (made_of.operation_sequence + 1) as i64,
                meta: made_of.meta.insert("store_revision"@, revision),
                ..made_of
            })
            &&& done.store.operations.drop_last() =~= made_of.operations
        },
{
}

} // verus!
