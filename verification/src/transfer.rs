//! Admission-controlled transfer of a file from the host to the stash.
//!
//! The engine decides and the caller acts: [`transfer_step`] takes what the
//! caller observed and answers with the next thing to do, until it answers
//! with the outcome.

use vstd::prelude::*;
use vstd::string::*;
use crate::error::{EngineError, ErrorView};
use crate::file_ops::{
    accepts_file_name, extension_of, file_extension, get_model_extensions, has_enough_space,
    is_model_file, model_extensions, required_with_margin, space_suffices,
};
use crate::text::same_text;
use crate::models::opt_text;

verus! {

/// A point in time as seconds and nanoseconds since the epoch.
#[derive(Clone, Copy, Debug, PartialEq, Eq, Structural)]
pub struct Timestamp {
    pub secs: i64,
    pub nanos: i64,
}

/// What the caller read of a file: its size and, where the system tells,
/// when it was last modified.
#[derive(Clone, Copy, Debug)]
pub struct FileStamp {
    pub size: u64,
    pub modified: Option<Timestamp>,
}

/// `a` is later than `b`.
pub open spec fn later(a: Timestamp, b: Timestamp) -> bool {
    a.secs > b.secs || (a.secs == b.secs && a.nanos > b.nanos)
}

/// The modification time `a` is strictly newer than `b`. An unknown time is
/// older than every known one.
pub open spec fn newer(a: Option<Timestamp>, b: Option<Timestamp>) -> bool {
    match (a, b) {
        (Some(a), Some(b)) => later(a, b),
        (Some(_), None) => true,
        (None, _) => false,
    }
}

/// Whether a model file must be copied: the destination is absent, or its
/// size differs from the source's, or the source is strictly newer.
pub open spec fn is_stale(source: FileStamp, destination: Option<FileStamp>) -> bool {
    match destination {
        None => true,
        Some(destination) => source.size != destination.size || newer(
            source.modified,
            destination.modified,
        ),
    }
}

/// Whether a manifest file must be mirrored: the destination is absent or the
/// source is strictly newer.
pub open spec fn is_outdated(source: FileStamp, destination: Option<FileStamp>) -> bool {
    match destination {
        None => true,
        Some(destination) => newer(source.modified, destination.modified),
    }
}

/// Decides [`newer`].
pub fn is_newer(a: &Option<Timestamp>, b: &Option<Timestamp>) -> (result: bool)
    ensures
        result == newer(*a, *b),
{
    match a {
        Some(a) => match b {
            Some(b) => a.secs > b.secs || (a.secs == b.secs && a.nanos > b.nanos),
            None => true,
        },
        None => false,
    }
}

/// Whether a model file must be copied to the stash.
pub fn needs_copy(source: &FileStamp, destination: &Option<FileStamp>) -> (stale: bool)
    ensures
        stale == is_stale(*source, *destination),
{
    match destination {
        None => true,
        Some(destination) => source.size != destination.size || is_newer(
            &source.modified,
            &destination.modified,
        ),
    }
}

/// Whether a manifest file must be mirrored into the stash.
pub fn needs_mirror(source: &FileStamp, destination: &Option<FileStamp>) -> (outdated: bool)
    ensures
        outdated == is_outdated(*source, *destination),
{
    match destination {
        None => true,
        Some(destination) => is_newer(&source.modified, &destination.modified),
    }
}

/// How a transfer treats a destination that exists.
#[derive(Clone, Copy, Debug, PartialEq, Eq, Structural)]
pub enum TransferMode {
    /// Copy only what is absent or stale, skip the rest.
    Sync,
    /// Copy unconditionally; a destination that exists is a conflict.
    Unconditional,
}

/// A transfer to decide on.
pub struct TransferRequest {
    /// The file name, for error messages.
    pub filename: String,
    pub source: FileStamp,
    /// The destination as it is before the transfer, if it exists.
    pub destination: Option<FileStamp>,
    /// The checksum that the catalog holds for the source, if any.
    pub known_checksum: Option<String>,
    pub mode: TransferMode,
}

/// How a transfer ended.
#[derive(Debug, Clone)]
pub enum Outcome {
    Copied,
    Skipped,
    Failed(EngineError),
}

/// Where a transfer stands.
#[derive(Clone, Copy, Debug, PartialEq, Eq, Structural)]
pub enum TransferState {
    Start,
    AwaitingSpace,
    AwaitingCopy,
    AwaitingChecksum,
    AwaitingRemoval,
    Finished,
}

/// What the caller is to do next.
#[derive(Debug, Clone)]
pub enum TransferAction {
    /// Report the free space at the destination.
    QuerySpace,
    /// Create the destination's parent directories and copy the source.
    Copy,
    /// Compute the checksum of the copy.
    Checksum,
    /// Delete the copy.
    RemoveDestination,
    /// Nothing more: the transfer has this outcome.
    Finish(Outcome),
}

/// What the caller observed.
pub enum TransferEvent {
    /// The transfer is to begin.
    Begin,
    /// The free space in bytes, or why it could not be read.
    Space(Result<u64, String>),
    /// The copy succeeded, or why it failed.
    Copied(Result<(), String>),
    /// The checksum of the copy, or why it could not be computed.
    Checksum(Result<String, String>),
    /// The copy was deleted, or why it could not be.
    Removed(Result<(), String>),
}

/// A transfer request as mathematical values.
pub struct RequestView {
    pub filename: Seq<char>,
    pub source: FileStamp,
    pub destination: Option<FileStamp>,
    pub known_checksum: Option<Seq<char>>,
    pub mode: TransferMode,
}

/// An outcome as mathematical values.
pub enum OutcomeView {
    Copied,
    Skipped,
    Failed(ErrorView),
}

/// An action as mathematical values.
pub enum ActionView {
    QuerySpace,
    Copy,
    Checksum,
    RemoveDestination,
    Finish(OutcomeView),
}

/// An event as mathematical values.
pub enum EventView {
    Begin,
    Space(Result<u64, Seq<char>>),
    Copied(Result<(), Seq<char>>),
    Checksum(Result<Seq<char>, Seq<char>>),
    Removed(Result<(), Seq<char>>),
}

impl View for TransferRequest {
    type V = RequestView;

    open spec fn view(&self) -> RequestView {
        RequestView {
            filename: self.filename@,
            source: self.source,
            destination: self.destination,
            known_checksum: opt_text(self.known_checksum),
            mode: self.mode,
        }
    }
}

impl View for Outcome {
    type V = OutcomeView;

    open spec fn view(&self) -> OutcomeView {
        match self {
            Outcome::Copied => OutcomeView::Copied,
            Outcome::Skipped => OutcomeView::Skipped,
            Outcome::Failed(error) => OutcomeView::Failed(error@),
        }
    }
}

impl View for TransferAction {
    type V = ActionView;

    open spec fn view(&self) -> ActionView {
        match self {
            TransferAction::QuerySpace => ActionView::QuerySpace,
            TransferAction::Copy => ActionView::Copy,
            TransferAction::Checksum => ActionView::Checksum,
            TransferAction::RemoveDestination => ActionView::RemoveDestination,
            TransferAction::Finish(outcome) => ActionView::Finish(outcome@),
        }
    }
}

impl View for TransferEvent {
    type V = EventView;

    open spec fn view(&self) -> EventView {
        match self {
            TransferEvent::Begin => EventView::Begin,
            TransferEvent::Space(space) => EventView::Space(
                match space {
                    Ok(bytes) => Ok(*bytes),
                    Err(reason) => Err(reason@),
                },
            ),
            TransferEvent::Copied(copied) => EventView::Copied(
                match copied {
                    Ok(_) => Ok(()),
                    Err(reason) => Err(reason@),
                },
            ),
            TransferEvent::Checksum(checksum) => EventView::Checksum(
                match checksum {
                    Ok(sum) => Ok(sum@),
                    Err(reason) => Err(reason@),
                },
            ),
            TransferEvent::Removed(removed) => EventView::Removed(
                match removed {
                    Ok(_) => Ok(()),
                    Err(reason) => Err(reason@),
                },
            ),
        }
    }
}

/// The bytes that an admission failure reports as required: the size with its
/// margin, held at the largest value where it would pass it.
pub open spec fn reported_requirement(size: u64) -> u64 {
    if required_with_margin(size as int) > u64::MAX {
        u64::MAX
    } else {
        required_with_margin(size as int) as u64
    }
}

/// The failure of a transfer whose copy is corrupt and could not be deleted:
/// the copy is still at the destination, and the failure says so with the
/// system's reason.
pub open spec fn left_behind(reason: Seq<char>) -> ErrorView {
    ErrorView::IOFailure("corrupt copy could not be removed: "@ + reason)
}

/// The failure that ends a transfer when an event does not fit its state.
pub open spec fn out_of_turn() -> ErrorView {
    ErrorView::IOFailure("event does not fit the state of the transfer"@)
}

/// The state after an event and the action that answers it.
///
/// A transfer begins by testing whether anything is to be copied. It then
/// asks for the free space and admits the copy only if that exceeds the size
/// with its margin. After the copy, if a checksum of the source is known, it
/// asks for the checksum of the copy; when the two differ it has the copy
/// deleted and reports the integrity failure only once the copy is reported
/// gone. A corrupt copy that could not be deleted is reported as left behind.
pub open spec fn next_step(request: RequestView, state: TransferState, event: EventView) -> (
    TransferState,
    ActionView,
) {
    match (state, event) {
        (TransferState::Start, EventView::Begin) => {
            if request.mode == TransferMode::Unconditional && request.destination is Some {
                (
                    TransferState::Finished,
                    ActionView::Finish(OutcomeView::Failed(ErrorView::Conflict(request.filename))),
                )
            } else if request.mode == TransferMode::Sync && !is_stale(
                request.source,
                request.destination,
            ) {
                (TransferState::Finished, ActionView::Finish(OutcomeView::Skipped))
            } else {
                (TransferState::AwaitingSpace, ActionView::QuerySpace)
            }
        },
        (TransferState::AwaitingSpace, EventView::Space(Ok(available))) => {
            if space_suffices(available as int, request.source.size as int) {
                (TransferState::AwaitingCopy, ActionView::Copy)
            } else {
                (
                    TransferState::Finished,
                    ActionView::Finish(
                        OutcomeView::Failed(
                            ErrorView::InsufficientSpace {
                                required: reported_requirement(request.source.size),
                                available,
                            },
                        ),
                    ),
                )
            }
        },
        (TransferState::AwaitingSpace, EventView::Space(Err(reason))) => (
            TransferState::Finished,
            ActionView::Finish(OutcomeView::Failed(ErrorView::IOFailure(reason))),
        ),
        (TransferState::AwaitingCopy, EventView::Copied(Ok(_))) => {
            if request.known_checksum is Some {
                (TransferState::AwaitingChecksum, ActionView::Checksum)
            } else {
                (TransferState::Finished, ActionView::Finish(OutcomeView::Copied))
            }
        },
        (TransferState::AwaitingCopy, EventView::Copied(Err(reason))) => (
            TransferState::Finished,
            ActionView::Finish(OutcomeView::Failed(ErrorView::IOFailure(reason))),
        ),
        (TransferState::AwaitingChecksum, EventView::Checksum(Ok(sum))) => {
            if request.known_checksum == Some(sum) {
                (TransferState::Finished, ActionView::Finish(OutcomeView::Copied))
            } else {
                (TransferState::AwaitingRemoval, ActionView::RemoveDestination)
            }
        },
        (TransferState::AwaitingChecksum, EventView::Checksum(Err(reason))) => (
            TransferState::Finished,
            ActionView::Finish(OutcomeView::Failed(ErrorView::IOFailure(reason))),
        ),
        (TransferState::AwaitingRemoval, EventView::Removed(Ok(_))) => (
            TransferState::Finished,
            ActionView::Finish(OutcomeView::Failed(ErrorView::IntegrityFailure)),
        ),
        (TransferState::AwaitingRemoval, EventView::Removed(Err(reason))) => (
            TransferState::Finished,
            ActionView::Finish(OutcomeView::Failed(left_behind(reason))),
        ),
        _ => (TransferState::Finished, ActionView::Finish(OutcomeView::Failed(out_of_turn()))),
    }
}

/// The size with its margin as an admission failure reports it.
pub fn requirement_to_report(size: u64) -> (required: u64)
    ensures
        required == reported_requirement(size),
{
    match size.checked_add(size / 10) {
        Some(total) => total,
        None => u64::MAX,
    }
}

/// Ends a transfer with a failure.
fn fail(error: EngineError) -> (step: (TransferState, TransferAction))
    ensures
        step.0 == TransferState::Finished,
        step.1@ == ActionView::Finish(OutcomeView::Failed(error@)),
{
    (TransferState::Finished, TransferAction::Finish(Outcome::Failed(error)))
}

/// Advances a transfer by one event: returns the new state and what the
/// caller is to do next.
pub fn transfer_step(request: &TransferRequest, state: TransferState, event: TransferEvent) -> (step: (
    TransferState,
    TransferAction,
))
    ensures
        (step.0, step.1@) == next_step(request@, state, event@),
{
    match state {
        TransferState::Start => match event {
            TransferEvent::Begin => {
                if request.mode == TransferMode::Unconditional && request.destination.is_some() {
                    fail(EngineError::Conflict(request.filename.clone()))
                } else if request.mode == TransferMode::Sync && !needs_copy(
                    &request.source,
                    &request.destination,
                ) {
                    (TransferState::Finished, TransferAction::Finish(Outcome::Skipped))
                } else {
                    (TransferState::AwaitingSpace, TransferAction::QuerySpace)
                }
            },
            _ => fail(unexpected_event()),
        },
        TransferState::AwaitingSpace => match event {
            TransferEvent::Space(Ok(available)) => {
                if has_enough_space(available, request.source.size) {
                    (TransferState::AwaitingCopy, TransferAction::Copy)
                } else {
                    fail(
                        EngineError::InsufficientSpace {
                            required: requirement_to_report(request.source.size),
                            available,
                        },
                    )
                }
            },
            TransferEvent::Space(Err(reason)) => fail(EngineError::IOFailure(reason)),
            _ => fail(unexpected_event()),
        },
        TransferState::AwaitingCopy => match event {
            TransferEvent::Copied(Ok(_)) => {
                if request.known_checksum.is_some() {
                    (TransferState::AwaitingChecksum, TransferAction::Checksum)
                } else {
                    (TransferState::Finished, TransferAction::Finish(Outcome::Copied))
                }
            },
            TransferEvent::Copied(Err(reason)) => fail(EngineError::IOFailure(reason)),
            _ => fail(unexpected_event()),
        },
        TransferState::AwaitingChecksum => match event {
            TransferEvent::Checksum(Ok(sum)) => {
                let same: bool = match &request.known_checksum {
                    Some(known) => *known == sum,
                    None => false,
                };
                if same {
                    (TransferState::Finished, TransferAction::Finish(Outcome::Copied))
                } else {
                    (TransferState::AwaitingRemoval, TransferAction::RemoveDestination)
                }
            },
            TransferEvent::Checksum(Err(reason)) => fail(EngineError::IOFailure(reason)),
            _ => fail(unexpected_event()),
        },
        TransferState::AwaitingRemoval => match event {
            TransferEvent::Removed(Ok(_)) => fail(EngineError::IntegrityFailure),
            TransferEvent::Removed(Err(reason)) => fail(
                EngineError::IOFailure(
                    "corrupt copy could not be removed: ".to_string().concat(reason.as_str()),
                ),
            ),
            _ => fail(unexpected_event()),
        },
        TransferState::Finished => fail(unexpected_event()),
    }
}

/// The failure for an event that does not fit the state.
fn unexpected_event() -> (error: EngineError)
    ensures
        error@ == out_of_turn(),
{
    EngineError::IOFailure("event does not fit the state of the transfer".to_string())
}

/// The state that a transfer reaches on a sequence of events, and the actions
/// that it answered with, one per event.
pub open spec fn run(request: RequestView, events: Seq<EventView>) -> (TransferState, Seq<ActionView>)
    decreases events.len(),
{
    if events.len() == 0 {
        (TransferState::Start, Seq::empty())
    } else {
        let before = run(request, events.drop_last());
        let step = next_step(request, before.0, events.last());
        (step.0, before.1.push(step.1))
    }
}

/// Admission control: when the size to copy exceeds nine tenths of the free
/// space and the free space does not exceed the size with its margin, the
/// transfer never asks for a copy, whatever else happens, so no file, whole
/// or partial, is left at the destination; and once the free space is
/// reported the transfer ends with the failure that names both sizes.
pub proof fn lemma_refused_transfer_copies_nothing(
    request: RequestView,
    available: u64,
    events: Seq<EventView>,
)
    requires
        10 * request.source.size > 9 * available,
        !space_suffices(available as int, request.source.size as int),
        forall|i: int|
            0 <= i < events.len() && (#[trigger] events[i]) is Space ==> events[i]
                == EventView::Space(Ok(available)),
    ensures
        !run(request, events).1.contains(ActionView::Copy),
        run(request, events).0 != TransferState::AwaitingCopy,
        next_step(request, TransferState::AwaitingSpace, EventView::Space(Ok(available))) == (
            TransferState::Finished,
            ActionView::Finish(
                OutcomeView::Failed(
                    ErrorView::InsufficientSpace {
                        required: reported_requirement(request.source.size),
                        available,
                    },
                ),
            ),
        ),
    decreases events.len(),
{
    lemma_refused_run(request, available, events);
}

/// A transfer whose free space never suffices stays before the copy.
proof fn lemma_refused_run(request: RequestView, available: u64, events: Seq<EventView>)
    requires
        !space_suffices(available as int, request.source.size as int),
        forall|i: int|
            0 <= i < events.len() && (#[trigger] events[i]) is Space ==> events[i]
                == EventView::Space(Ok(available)),
    ensures
        !run(request, events).1.contains(ActionView::Copy),
        run(request, events).0 == TransferState::Start || run(request, events).0
            == TransferState::AwaitingSpace || run(request, events).0 == TransferState::Finished,
    decreases events.len(),
{
    if events.len() > 0 {
        let front = events.drop_last();
        assert forall|i: int| 0 <= i < front.len() && (#[trigger] front[i]) is Space implies front[i]
            == EventView::Space(Ok(available)) by {
            assert(front[i] == events[i]);
        }
        lemma_refused_run(request, available, front);
        let before = run(request, front);
        let step = next_step(request, before.0, events.last());
        assert(events[events.len() - 1] == events.last());
        assert(step.1 != ActionView::Copy);
        let actions = before.1.push(step.1);
        if actions.contains(ActionView::Copy) {
            let i = choose|i: int| 0 <= i < actions.len() && actions[i] == ActionView::Copy;
            if i < before.1.len() {
                assert(before.1[i] == ActionView::Copy);
            }
        }
    }
}

/// Integrity: a transfer reports an integrity failure only in answer to the
/// report that the copy was deleted, which it had asked for just before; so
/// the destination does not exist when the failure is returned. No action
/// ever touches the source.
pub proof fn lemma_integrity_failure_follows_removal(request: RequestView, events: Seq<EventView>)
    ensures
        run(request, events).1.len() == events.len(),
        forall|i: int|
            0 <= i < events.len() && (#[trigger] run(request, events).1[i]) == ActionView::Finish(
                OutcomeView::Failed(ErrorView::IntegrityFailure),
            ) ==> i > 0 && run(request, events).1[i - 1] == ActionView::RemoveDestination
                && events[i] == EventView::Removed(Ok(())),
        run(request, events).0 == TransferState::AwaitingRemoval ==> events.len() > 0 && run(
            request,
            events,
        ).1.last() == ActionView::RemoveDestination,
    decreases events.len(),
{
    if events.len() > 0 {
        let front = events.drop_last();
        lemma_integrity_failure_follows_removal(request, front);
        let before = run(request, front);
        let step = next_step(request, before.0, events.last());
        let actions = run(request, events).1;
        assert(actions == before.1.push(step.1));
        assert forall|i: int|
            0 <= i < events.len() && (#[trigger] actions[i]) == ActionView::Finish(
                OutcomeView::Failed(ErrorView::IntegrityFailure),
            ) implies i > 0 && actions[i - 1] == ActionView::RemoveDestination && events[i]
            == EventView::Removed(Ok(())) by {
            if i < before.1.len() {
                assert(before.1[i] == actions[i]);
                assert(before.1[i - 1] == actions[i - 1]);
                assert(front[i] == events[i]);
            } else {
                let last = events.last();
                assert(events[i] == last);
                assert(step.1 == ActionView::Finish(
                    OutcomeView::Failed(ErrorView::IntegrityFailure),
                ));
                assert(before.0 == TransferState::AwaitingRemoval);
                assert(last is Removed && last->Removed_0 is Ok);
                assert(last->Removed_0->Ok_0 == ());
                assert(last == EventView::Removed(Ok(())));
                assert(actions[i - 1] == before.1.last());
            }
        }
    }
}

/// A copy whose checksum differs from the known one is to be removed; once it
/// is reported gone the transfer fails with the integrity failure, and while
/// it cannot be removed the transfer fails with the notice that it was left
/// behind.
pub proof fn lemma_mismatch_removes_copy(request: RequestView, sum: Seq<char>, reason: Seq<char>)
    requires
        request.known_checksum != Some(sum),
    ensures
        next_step(request, TransferState::AwaitingChecksum, EventView::Checksum(Ok(sum))) == (
            TransferState::AwaitingRemoval,
            ActionView::RemoveDestination,
        ),
        next_step(request, TransferState::AwaitingRemoval, EventView::Removed(Ok(()))) == (
            TransferState::Finished,
            ActionView::Finish(OutcomeView::Failed(ErrorView::IntegrityFailure)),
        ),
        next_step(request, TransferState::AwaitingRemoval, EventView::Removed(Err(reason))) == (
            TransferState::Finished,
            ActionView::Finish(OutcomeView::Failed(left_behind(reason))),
        ),
{
}

/// A file of a directory with what the caller read of it.
pub struct StampedFile {
    pub name: String,
    /// Whether the entry is a regular file.
    pub is_file: bool,
    pub stamp: FileStamp,
}

/// Which test decides whether a file is copied.
#[derive(Clone, Copy, Debug, PartialEq, Eq, Structural)]
pub enum Staleness {
    /// Model files: by size or modification time.
    BySizeOrTime,
    /// Manifest files: by modification time alone.
    ByTime,
}

/// What is to be copied from one directory to another.
pub struct TransferPlan {
    /// The names of the files to copy, in the order of the source listing.
    pub to_copy: Vec<String>,
    /// How many files are up to date and left alone.
    pub skipped: usize,
}

/// The stamp of the first file of a listing with the given name.
pub open spec fn stamp_in(listing: Seq<StampedFile>, name: Seq<char>) -> Option<FileStamp>
    decreases listing.len(),
{
    if listing.len() == 0 {
        None
    } else if listing.first().name@ == name {
        Some(listing.first().stamp)
    } else {
        stamp_in(listing.drop_first(), name)
    }
}

/// Whether the rule asks for a copy.
pub open spec fn wants_copy(rule: Staleness, source: FileStamp, destination: Option<FileStamp>) -> bool {
    match rule {
        Staleness::BySizeOrTime => is_stale(source, destination),
        Staleness::ByTime => is_outdated(source, destination),
    }
}

/// Which files of a directory a transfer is about.
#[derive(Clone, Copy, Debug, PartialEq, Eq, Structural)]
pub enum Scope {
    /// The manifest files: regular files with the extension `json`.
    ManifestFiles,
    /// The managed model files: regular files that are not hidden and whose
    /// extension, without regard to case, is on the whitelist of models.
    ModelFiles,
}

/// Whether an entry of a listing takes part in a transfer of the given
/// scope. Directories and other entries that are no regular files never do.
pub open spec fn takes_part(name: Seq<char>, is_file: bool, scope: Scope) -> bool {
    match scope {
        Scope::ManifestFiles => is_file && extension_of(name) == Some("json"@),
        Scope::ModelFiles => is_model_file(name, is_file, model_extensions("model"@)),
    }
}

/// Decides [`takes_part`].
pub fn is_in_scope(name: &str, is_file: bool, scope: Scope) -> (inside: bool)
    ensures
        inside == takes_part(name@, is_file, scope),
{
    if !is_file {
        return false;
    }
    match scope {
        Scope::ManifestFiles => match file_extension(name) {
            Some(found) => same_text(found.as_str(), "json"),
            None => false,
        },
        Scope::ModelFiles => {
            let whitelist: Vec<&'static str> = get_model_extensions("model");
            accepts_file_name(name, whitelist.as_slice())
        },
    }
}

/// The names to copy among the source files, in order.
pub open spec fn planned_copies(
    sources: Seq<StampedFile>,
    destinations: Seq<StampedFile>,
    scope: Scope,
    rule: Staleness,
) -> Seq<Seq<char>>
    decreases sources.len(),
{
    if sources.len() == 0 {
        Seq::empty()
    } else {
        let earlier = planned_copies(sources.drop_last(), destinations, scope, rule);
        let file = sources.last();
        if takes_part(file.name@, file.is_file, scope) && wants_copy(
            rule,
            file.stamp,
            stamp_in(destinations, file.name@),
        ) {
            earlier.push(file.name@)
        } else {
            earlier
        }
    }
}

/// The number of source files that take part and are up to date.
pub open spec fn planned_skips(
    sources: Seq<StampedFile>,
    destinations: Seq<StampedFile>,
    scope: Scope,
    rule: Staleness,
) -> nat
    decreases sources.len(),
{
    if sources.len() == 0 {
        0
    } else {
        let earlier = planned_skips(sources.drop_last(), destinations, scope, rule);
        let file = sources.last();
        if takes_part(file.name@, file.is_file, scope) && !wants_copy(
            rule,
            file.stamp,
            stamp_in(destinations, file.name@),
        ) {
            earlier + 1
        } else {
            earlier
        }
    }
}

/// Looks a file up in a listing.
pub fn find_stamp(listing: &Vec<StampedFile>, name: &str) -> (stamp: Option<FileStamp>)
    ensures
        stamp == stamp_in(listing@, name@),
{
    let wanted: String = name.to_owned();
    let mut at: usize = 0;
    assert(listing@.skip(0) =~= listing@);
    while at < listing.len()
        invariant
            at <= listing.len(),
            wanted@ == name@,
            stamp_in(listing@, name@) == stamp_in(listing@.skip(at as int), name@),
        decreases listing.len() - at,
    {
        proof {
            assert(listing@.skip(at as int).first() == listing@[at as int]);
            assert(listing@.skip(at as int).drop_first() =~= listing@.skip(at + 1));
        }
        if listing[at].name == wanted {
            return Some(listing[at].stamp);
        }
        at += 1;
    }
    assert(listing@.skip(at as int).len() == 0);
    None
}

/// Plans the transfer of a directory: of the source files in scope, those
/// that are absent from the destination or stale by the rule are to be
/// copied, the others are counted as up to date.
pub fn plan_transfers(
    sources: &Vec<StampedFile>,
    destinations: &Vec<StampedFile>,
    scope: Scope,
    rule: Staleness,
) -> (plan: TransferPlan)
    ensures
        plan.to_copy.deep_view() == planned_copies(sources@, destinations@, scope, rule),
        plan.skipped == planned_skips(sources@, destinations@, scope, rule),
{
    let mut to_copy: Vec<String> = Vec::new();
    let mut skipped: usize = 0;
    let mut at: usize = 0;
    assert(to_copy.deep_view() =~= Seq::empty());
    while at < sources.len()
        invariant
            at <= sources.len(),
            to_copy.deep_view() == planned_copies(
                sources@.take(at as int),
                destinations@,
                scope,
                rule,
            ),
            skipped == planned_skips(sources@.take(at as int), destinations@, scope, rule),
            skipped <= at,
        decreases sources.len() - at,
    {
        proof {
            assert(sources@.take(at + 1).drop_last() =~= sources@.take(at as int));
            assert(sources@.take(at + 1).last() == sources@[at as int]);
        }
        let file: &StampedFile = &sources[at];
        if is_in_scope(file.name.as_str(), file.is_file, scope) {
            let destination: Option<FileStamp> = find_stamp(destinations, file.name.as_str());
            let copy: bool = match rule {
                Staleness::BySizeOrTime => needs_copy(&file.stamp, &destination),
                Staleness::ByTime => needs_mirror(&file.stamp, &destination),
            };
            if copy {
                let ghost before = to_copy.deep_view();
                to_copy.push(file.name.clone());
                assert(to_copy.deep_view() =~= before.push(file.name@));
            } else {
                skipped += 1;
            }
        }
        at += 1;
    }
    assert(sources@.take(at as int) =~= sources@);
    TransferPlan { to_copy, skipped }
}

/// What a run of transfers did, in numbers.
#[derive(Clone, Copy, Debug, PartialEq, Eq, Structural)]
pub struct TransferTally {
    pub copied: usize,
    pub skipped: usize,
    pub errors: usize,
}

/// The number of outcomes of a list that satisfy a test.
pub open spec fn count_outcomes(outcomes: Seq<OutcomeView>, test: spec_fn(OutcomeView) -> bool) -> nat
    decreases outcomes.len(),
{
    if outcomes.len() == 0 {
        0
    } else {
        count_outcomes(outcomes.drop_last(), test) + if test(outcomes.last()) {
            1nat
        } else {
            0nat
        }
    }
}

/// The views of a list of outcomes.
pub open spec fn outcome_views(outcomes: Seq<Outcome>) -> Seq<OutcomeView> {
    outcomes.map_values(|o: Outcome| o@)
}

/// Counts how many transfers copied, skipped and failed.
pub fn tally_outcomes(outcomes: &Vec<Outcome>) -> (tally: TransferTally)
    ensures
        tally.copied == count_outcomes(outcome_views(outcomes@), |o: OutcomeView| o is Copied),
        tally.skipped == count_outcomes(outcome_views(outcomes@), |o: OutcomeView| o is Skipped),
        tally.errors == count_outcomes(outcome_views(outcomes@), |o: OutcomeView| o is Failed),
        tally.copied + tally.skipped + tally.errors == outcomes.len(),
{
    let ghost views = outcome_views(outcomes@);
    let mut tally = TransferTally { copied: 0, skipped: 0, errors: 0 };
    let mut at: usize = 0;
    while at < outcomes.len()
        invariant
            at <= outcomes.len(),
            views == outcome_views(outcomes@),
            tally.copied == count_outcomes(views.take(at as int), |o: OutcomeView| o is Copied),
            tally.skipped == count_outcomes(views.take(at as int), |o: OutcomeView| o is Skipped),
            tally.errors == count_outcomes(views.take(at as int), |o: OutcomeView| o is Failed),
            tally.copied + tally.skipped + tally.errors == at,
        decreases outcomes.len() - at,
    {
        proof {
            assert(views.take(at + 1).drop_last() =~= views.take(at as int));
            assert(views.take(at + 1).last() == outcomes@[at as int]@);
        }
        match &outcomes[at] {
            Outcome::Copied => {
                tally.copied += 1;
            },
            Outcome::Skipped => {
                tally.skipped += 1;
            },
            Outcome::Failed(_) => {
                tally.errors += 1;
            },
        }
        at += 1;
    }
    assert(views.take(at as int) =~= views);
    tally
}

/// What a run of transfers amounts to.
#[derive(Clone, Copy, Debug, PartialEq, Eq, Structural)]
pub enum TransferReport {
    /// Some files were copied.
    Copied { copied: usize, up_to_date: usize, errors: usize },
    /// Nothing was copied and some files were up to date.
    UpToDate { count: usize },
    /// No file took part.
    NothingFound,
}

/// Sums a tally up: copies are reported first, then files found up to date,
/// and a run without either found nothing.
pub fn report_of(tally: TransferTally) -> (report: TransferReport)
    ensures
        report == (if tally.copied > 0 {
            TransferReport::Copied {
                copied: tally.copied,
                up_to_date: tally.skipped,
                errors: tally.errors,
            }
        } else if tally.skipped > 0 {
            TransferReport::UpToDate { count: tally.skipped }
        } else {
            TransferReport::NothingFound
        }),
{
    if tally.copied > 0 {
        TransferReport::Copied {
            copied: tally.copied,
            up_to_date: tally.skipped,
            errors: tally.errors,
        }
    } else if tally.skipped > 0 {
        TransferReport::UpToDate { count: tally.skipped }
    } else {
        TransferReport::NothingFound
    }
}

} // verus!
