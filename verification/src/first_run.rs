//! The synchronisation run: the order of its steps, what a failure of a step
//! means for the rest, and the status that is persisted for observers.

use vstd::prelude::*;
use vstd::string::*;
use crate::catalog::{lemma_with_config, Catalog, CatalogView};
use crate::commands::{
    created_count, discoveries_of, import_all, import_errors, import_files, ScanResult, ScannedFile,
};
use crate::dt_json::DrawThingsConfig;
use crate::file_ops::ListedEntry;
use crate::registry::ModelTypeRegistry;
use crate::transfer::{
    is_in_scope, plan_transfers, planned_copies, planned_skips, takes_part, Scope, Staleness,
    StampedFile, TransferPlan,
};

verus! {

/// The status of a run as observers see it.
#[derive(Clone, Copy, Debug, PartialEq, Eq, Structural)]
pub enum SyncStatus {
    NotStarted,
    InProgress,
    Complete,
    Error,
}

/// The steps of a run, in their order.
#[derive(Clone, Copy, Debug, PartialEq, Eq, Structural)]
pub enum SyncStep {
    /// Make sure that the stash directory exists.
    EnsureStash,
    /// Mirror the manifest files that are newer on the host.
    MirrorManifests,
    /// Transfer the model files that are missing or stale in the stash.
    TransferModels,
    /// Scan both locations and import what was found.
    ScanAndImport,
    /// Resolve the dependency edges among the entries that now exist.
    ResolveRelationships,
}

/// A run of the synchronisation.
pub struct SyncRun {
    pub status: SyncStatus,
    /// The step to carry out next; `None` before the run begins and after it
    /// has ended.
    pub pending: Option<SyncStep>,
    /// The failures recorded so far.
    pub errors: Vec<String>,
}

/// A run as mathematical values.
pub struct SyncRunView {
    pub status: SyncStatus,
    pub pending: Option<SyncStep>,
    pub errors: Seq<Seq<char>>,
}

impl View for SyncRun {
    type V = SyncRunView;

    open spec fn view(&self) -> SyncRunView {
        SyncRunView { status: self.status, pending: self.pending, errors: self.errors.deep_view() }
    }
}

/// The step after a step, if there is one.
pub open spec fn following(step: SyncStep) -> Option<SyncStep> {
    match step {
        SyncStep::EnsureStash => Some(SyncStep::MirrorManifests),
        SyncStep::MirrorManifests => Some(SyncStep::TransferModels),
        SyncStep::TransferModels => Some(SyncStep::ScanAndImport),
        SyncStep::ScanAndImport => Some(SyncStep::ResolveRelationships),
        SyncStep::ResolveRelationships => None,
    }
}

/// The name under which a status is persisted.
pub open spec fn status_name(status: SyncStatus) -> Seq<char> {
    match status {
        SyncStatus::NotStarted => "not_started"@,
        SyncStatus::InProgress => "in_progress"@,
        SyncStatus::Complete => "complete"@,
        SyncStatus::Error => "error"@,
    }
}

/// A run that has just begun.
pub open spec fn begun() -> SyncRunView {
    SyncRunView {
        status: SyncStatus::InProgress,
        pending: Some(SyncStep::EnsureStash),
        errors: Seq::empty(),
    }
}

/// The run after its pending step was carried out with the given failures.
///
/// The failures are recorded. A stash directory that cannot be made ends the
/// run at once, since every later step needs it; a failure of any other step
/// leaves the later steps to run. After the last step the run is complete if
/// no failure was recorded in any step, and in error otherwise. A run without
/// a pending step has ended or not begun and stays as it is.
pub open spec fn after_step(run: SyncRunView, failures: Seq<Seq<char>>) -> SyncRunView {
    match run.pending {
        None => run,
        Some(step) => {
            let errors = run.errors + failures;
            if step == SyncStep::EnsureStash && failures.len() > 0 {
                SyncRunView { status: SyncStatus::Error, pending: None, errors }
            } else {
                match following(step) {
                    Some(next) => SyncRunView {
                        status: SyncStatus::InProgress,
                        pending: Some(next),
                        errors,
                    },
                    None => SyncRunView {
                        status: if errors.len() == 0 {
                            SyncStatus::Complete
                        } else {
                            SyncStatus::Error
                        },
                        pending: None,
                        errors,
                    },
                }
            }
        },
    }
}

/// The run after a sequence of steps, each with its failures.
pub open spec fn after_steps(run: SyncRunView, results: Seq<Seq<Seq<char>>>) -> SyncRunView
    decreases results.len(),
{
    if results.len() == 0 {
        run
    } else {
        after_step(after_steps(run, results.drop_last()), results.last())
    }
}

/// What holds of a run at every moment: it is in progress exactly while a
/// step is pending, and it is complete only without recorded failures.
pub open spec fn consistent(run: SyncRunView) -> bool {
    &&& run.pending is Some <==> run.status == SyncStatus::InProgress
    &&& run.status == SyncStatus::Complete ==> run.errors.len() == 0
}

/// Every run that began and then carried out steps is consistent: it ends
/// complete only if no step recorded a failure, and once it has ended no
/// further report changes it, so that its end is reported once.
pub proof fn lemma_run_is_consistent(results: Seq<Seq<Seq<char>>>)
    ensures
        consistent(after_steps(begun(), results)),
        forall|failures: Seq<Seq<char>>|
            after_steps(begun(), results).pending is None ==> after_step(
                after_steps(begun(), results),
                failures,
            ) == after_steps(begun(), results),
    decreases results.len(),
{
    if results.len() > 0 {
        lemma_run_is_consistent(results.drop_last());
    }
}

/// A run whose five steps record no failure ends complete.
pub proof fn lemma_clean_run_completes()
    ensures
        after_steps(begun(), Seq::new(5, |i: int| Seq::<Seq<char>>::empty())).status
            == SyncStatus::Complete,
{
    let none = Seq::<Seq<char>>::empty();
    let results = Seq::new(5, |i: int| none);
    let r0 = begun();
    let r1 = after_step(r0, none);
    let r2 = after_step(r1, none);
    let r3 = after_step(r2, none);
    let r4 = after_step(r3, none);
    let r5 = after_step(r4, none);
    assert(r0.errors + none =~= r0.errors);
    assert(results.take(0) =~= Seq::empty());
    assert(after_steps(r0, results.take(0)) == r0);
    assert(results.take(1).drop_last() =~= results.take(0));
    assert(after_steps(r0, results.take(1)) == r1);
    assert(results.take(2).drop_last() =~= results.take(1));
    assert(after_steps(r0, results.take(2)) == r2);
    assert(results.take(3).drop_last() =~= results.take(2));
    assert(after_steps(r0, results.take(3)) == r3);
    assert(results.take(4).drop_last() =~= results.take(3));
    assert(after_steps(r0, results.take(4)) == r4);
    assert(results.take(5).drop_last() =~= results.take(4));
    assert(after_steps(r0, results.take(5)) == r5);
    assert(results.take(5) =~= results);
}

/// A failure that was recorded keeps the run from ever being complete.
pub proof fn lemma_failure_prevents_completion(run: SyncRunView, failures: Seq<Seq<char>>)
    requires
        consistent(run),
        run.errors.len() > 0 || (run.pending is Some && failures.len() > 0),
    ensures
        after_step(run, failures).status != SyncStatus::Complete,
        after_step(run, failures).errors.len() > 0,
{
}

impl SyncStatus {
    /// The name under which the status is persisted.
    pub fn as_str(self) -> (name: &'static str)
        ensures
            name@ == status_name(self),
    {
        match self {
            SyncStatus::NotStarted => "not_started",
            SyncStatus::InProgress => "in_progress",
            SyncStatus::Complete => "complete",
            SyncStatus::Error => "error",
        }
    }
}

impl SyncRun {
    /// Begins a run: it is in progress and its first step is pending.
    pub fn begin() -> (run: SyncRun)
        ensures
            run@ == begun(),
    {
        let run = SyncRun {
            status: SyncStatus::InProgress,
            pending: Some(SyncStep::EnsureStash),
            errors: Vec::new(),
        };
        assert(run.errors.deep_view() =~= Seq::empty());
        run
    }

    /// Records that the pending step was carried out, with the failures that
    /// occurred in it, and moves on to the next step or ends the run.
    pub fn complete_step(&mut self, failures: Vec<String>)
        ensures
            final(self)@ == after_step(old(self)@, failures.deep_view()),
    {
        match self.pending {
            None => {},
            Some(step) => {
                let failed: bool = failures.len() > 0;
                let ghost before = self.errors.deep_view();
                let mut failures = failures;
                let ghost added = failures.deep_view();
                self.errors.append(&mut failures);
                assert(self.errors.deep_view() =~= before + added);
                if step == SyncStep::EnsureStash && failed {
                    self.status = SyncStatus::Error;
                    self.pending = None;
                } else {
                    let next: Option<SyncStep> = match step {
                        SyncStep::EnsureStash => Some(SyncStep::MirrorManifests),
                        SyncStep::MirrorManifests => Some(SyncStep::TransferModels),
                        SyncStep::TransferModels => Some(SyncStep::ScanAndImport),
                        SyncStep::ScanAndImport => Some(SyncStep::ResolveRelationships),
                        SyncStep::ResolveRelationships => None,
                    };
                    match next {
                        Some(_) => {
                            self.status = SyncStatus::InProgress;
                        },
                        None => {
                            self.status = if self.errors.len() == 0 {
                                SyncStatus::Complete
                            } else {
                                SyncStatus::Error
                            };
                        },
                    }
                    self.pending = next;
                }
            },
        }
    }
}

/// The setting that holds the status of the run.
pub open spec fn status_key() -> Seq<char> {
    "INIT_STATUS"@
}

/// The setting that tells whether the stash has been set up.
pub open spec fn stash_key() -> Seq<char> {
    "STASH_EXISTS"@
}

/// The setting that holds the failures recorded in the run.
pub open spec fn errors_key() -> Seq<char> {
    "INIT_ERRORS"@
}

/// Lines joined into one text, a line feed between each two.
pub open spec fn joined_lines(lines: Seq<Seq<char>>) -> Seq<char>
    decreases lines.len(),
{
    if lines.len() == 0 {
        Seq::empty()
    } else if lines.len() == 1 {
        lines[0]
    } else {
        joined_lines(lines.drop_last()) + seq!['\n'] + lines.last()
    }
}

/// Joins lines into one text.
pub fn join_lines(lines: &Vec<String>) -> (text: String)
    ensures
        text@ == joined_lines(lines.deep_view()),
{
    let ghost all = lines.deep_view();
    let mut text: String = String::new();
    let mut at: usize = 0;
    assert(all.take(0) =~= Seq::empty());
    while at < lines.len()
        invariant
            at <= lines.len(),
            all == lines.deep_view(),
            text@ == joined_lines(all.take(at as int)),
        decreases lines.len() - at,
    {
        proof {
            reveal_strlit("\n");
            assert(all.take(at + 1).drop_last() =~= all.take(at as int));
            assert(all.take(at + 1).last() == lines[at as int]@);
        }
        if at > 0 {
            text.append("\n");
            assert("\n"@ =~= seq!['\n']);
        } else {
            assert(Seq::<char>::empty() + lines[at as int]@ =~= lines[at as int]@);
        }
        text.append(lines[at].as_str());
        at += 1;
    }
    assert(all.take(at as int) =~= all);
    text
}

/// The catalog after the status of a run was persisted: the failures
/// recorded so far under the errors key, the status under the status key,
/// and for a run that ended complete the mark that the stash is set up.
pub open spec fn with_status(catalog: CatalogView, run: SyncRunView) -> CatalogView {
    let marked = if run.status == SyncStatus::Complete {
        catalog.with_config(stash_key(), "true"@)
    } else {
        catalog
    };
    marked.with_config(errors_key(), joined_lines(run.errors)).with_config(
        status_key(),
        status_name(run.status),
    )
}

/// Persists the status of a run so that it can be observed, and retried
/// after a crash: the status, and with it the messages of the failures that
/// the steps recorded, one per line. A run that ended complete also records
/// that the stash is set up.
pub fn record_status(catalog: &mut Catalog, run: &SyncRun)
    requires
        old(catalog).wf(),
    ensures
        final(catalog).wf(),
        final(catalog)@ == with_status(old(catalog)@, run@),
        final(catalog)@.config_value(status_key()) == Some(status_name(run.status)),
        final(catalog)@.config_value(errors_key()) == Some(joined_lines(run@.errors)),
{
    if run.status == SyncStatus::Complete {
        catalog.set_config("STASH_EXISTS", "true");
    }
    let messages: String = join_lines(&run.errors);
    catalog.set_config("INIT_ERRORS", messages.as_str());
    proof {
        reveal_strlit("INIT_ERRORS");
        reveal_strlit("INIT_STATUS");
        assert("INIT_ERRORS"@[5] != "INIT_STATUS"@[5]);
        lemma_with_config(catalog@, status_key(), status_name(run.status));
    }
    catalog.set_config("INIT_STATUS", run.status.as_str());
}

/// Whether a listing of the stash holds no managed model file, which marks
/// the first run.
pub open spec fn holds_no_model_file(entries: Seq<ListedEntry>) -> bool {
    forall|i: int|
        0 <= i < entries.len() ==> !takes_part(
            (#[trigger] entries[i]).name@,
            entries[i].is_file,
            Scope::ModelFiles,
        )
}

/// Whether the stash is empty in the sense of a first run: none of the
/// entries listed in it is a managed model file. A stash directory that does
/// not exist is listed without entries and is empty.
pub fn is_stash_empty(entries: &Vec<ListedEntry>) -> (empty: bool)
    ensures
        empty == holds_no_model_file(entries@),
{
    let mut at: usize = 0;
    while at < entries.len()
        invariant
            at <= entries.len(),
            forall|i: int|
                0 <= i < at ==> !takes_part(
                    (#[trigger] entries[i]).name@,
                    entries[i].is_file,
                    Scope::ModelFiles,
                ),
        decreases entries.len() - at,
    {
        if is_in_scope(entries[at].name.as_str(), entries[at].is_file, Scope::ModelFiles) {
            return false;
        }
        at += 1;
    }
    true
}

/// What the scans of the two locations report.
pub struct LocationScans {
    pub host: ScanResult,
    pub stash: ScanResult,
}

/// Imports what was found on the host and then what was found in the stash.
/// A file found in both locations gets one entry with both location flags.
pub fn scan_and_import_models(
    catalog: &mut Catalog,
    host_files: &Vec<ScannedFile>,
    stash_files: &Vec<ScannedFile>,
    dt_config: &DrawThingsConfig,
    registry: &ModelTypeRegistry,
) -> (scans: LocationScans)
    requires
        old(catalog).wf(),
    ensures
        final(catalog).wf(),
        final(catalog)@ == import_all(
            import_all(old(catalog)@, discoveries_of(host_files@, true, *dt_config, *registry)),
            discoveries_of(stash_files@, false, *dt_config, *registry),
        ),
        scans.host.scanned_count == host_files.len(),
        scans.host.imported_count == created_count(
            old(catalog)@,
            discoveries_of(host_files@, true, *dt_config, *registry),
        ),
        scans.host.errors.deep_view() == import_errors(
            old(catalog)@,
            host_files@,
            discoveries_of(host_files@, true, *dt_config, *registry),
        ),
        scans.stash.scanned_count == stash_files.len(),
        scans.stash.imported_count == created_count(
            import_all(old(catalog)@, discoveries_of(host_files@, true, *dt_config, *registry)),
            discoveries_of(stash_files@, false, *dt_config, *registry),
        ),
        scans.stash.errors.deep_view() == import_errors(
            import_all(old(catalog)@, discoveries_of(host_files@, true, *dt_config, *registry)),
            stash_files@,
            discoveries_of(stash_files@, false, *dt_config, *registry),
        ),
{
    let host: ScanResult = import_files(catalog, host_files, true, dt_config, registry);
    let stash: ScanResult = import_files(catalog, stash_files, false, dt_config, registry);
    LocationScans { host, stash }
}

/// Plans the mirroring of the manifest files: of the files with the extension
/// `json` on the host, those that the stash lacks or holds in an older
/// version are to be copied.
pub fn copy_json_files(sources: &Vec<StampedFile>, destinations: &Vec<StampedFile>) -> (plan: TransferPlan)
    ensures
        plan.to_copy.deep_view() == planned_copies(
            sources@,
            destinations@,
            Scope::ManifestFiles,
            Staleness::ByTime,
        ),
        plan.skipped == planned_skips(
            sources@,
            destinations@,
            Scope::ManifestFiles,
            Staleness::ByTime,
        ),
{
    plan_transfers(sources, destinations, Scope::ManifestFiles, Staleness::ByTime)
}

/// Plans the transfer of the model files: every managed model file of the
/// host, whatever its whitelisted extension and however that is cased, is to
/// be transferred if the stash lacks it, holds it in another size or holds it
/// in an older version; the others are counted as up to date.
pub fn transfer_model_files(sources: &Vec<StampedFile>, destinations: &Vec<StampedFile>) -> (plan: TransferPlan)
    ensures
        plan.to_copy.deep_view() == planned_copies(
            sources@,
            destinations@,
            Scope::ModelFiles,
            Staleness::BySizeOrTime,
        ),
        plan.skipped == planned_skips(
            sources@,
            destinations@,
            Scope::ModelFiles,
            Staleness::BySizeOrTime,
        ),
{
    plan_transfers(sources, destinations, Scope::ModelFiles, Staleness::BySizeOrTime)
}

} // verus!
