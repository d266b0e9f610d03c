//! The deploy pipeline: archive a module, transfer it, stage it on the device
//! and restart, as a linear state machine.
//!
//! The library decides; the caller acts. A run starts at `DeployJob::start`.
//! While the pipeline is running at some stage, `DeployJob::action` says what
//! is to be done there, and `DeployJob::advance` takes the report of how it
//! went and gives the progress made: the next stage, or the outcome. Nothing
//! that was done on the device is undone when a later stage fails.

use crate::devices::{
    adb_reports_device,
    fastboot_reports_device,
    has_adb_device,
    has_fastboot_device,
};
use crate::text::push_char;
use vstd::prelude::*;
use vstd::string::*;

verus! {

/// `leaf` below the directory `dir`: the two joined by one slash, unless `dir`
/// is empty or ends in a slash already.
pub open spec fn joined(dir: Seq<char>, leaf: Seq<char>) -> Seq<char> {
    if dir.len() == 0 {
        leaf
    } else if dir.last() == '/' {
        dir + leaf
    } else {
        dir.push('/') + leaf
    }
}

/// Gives the path of `leaf` below the directory `dir`.
pub fn join_path(dir: &str, leaf: &str) -> (r: String)
    ensures
        r@ == joined(dir@, leaf@),
{
    let n = dir.unicode_len();
    let mut r = String::from_str(dir);
    if n > 0 && dir.get_char(n - 1) != '/' {
        push_char(&mut r, '/');
    }
    r.append(leaf);
    proof {
        if n == 0 {
            assert(dir@ + leaf@ =~= leaf@);
        }
    }
    r
}

/// One build-and-push invocation.
#[derive(Clone, Debug, PartialEq, Eq)]
pub struct DeployJob {
    /// The module's name.
    pub name: String,
    /// The directory that holds the module's directory and receives the
    /// archive.
    pub project_path: String,
    /// Keep the local archive after the restart.
    pub no_clear: bool,
    /// Stop once the archive is built: transfer nothing.
    pub no_push: bool,
    /// Do not restart the device.
    pub no_reboot: bool,
    /// Go on though no device was found.
    pub ignore_adb: bool,
}

/// The stages of a run, in the order in which they are passed.
#[derive(Clone, Copy, Debug, PartialEq, Eq, Structural)]
pub enum Stage {
    /// Ask the general listing for a ready device.
    DeviceCheck,
    /// Ask the bootloader listing for a device.
    BootloaderCheck,
    /// Tell the operator that no device was found.
    NoDeviceNotice,
    /// Build the archive.
    Archive,
    /// Push the archive to the device.
    Transfer,
    /// Create the staging directory on the device.
    StagingDir,
    /// Unpack the archive into the staging directory.
    Unpack,
    /// Create the update marker in the staging directory.
    Marker,
    /// Restart the device.
    Restart,
    /// Remove the local archive.
    Cleanup,
}

/// How a run ended.
#[derive(Clone, Copy, Debug, PartialEq, Eq, Structural)]
pub enum Outcome {
    /// Every stage that was not skipped went through.
    Completed,
    /// No device was found and the job does not go on without one.
    NoDevice,
    /// The run was aborted at this stage.
    Failed(Stage),
}

/// Where a run stands.
#[derive(Clone, Copy, Debug, PartialEq, Eq, Structural)]
pub enum Progress {
    /// The action of this stage is due.
    Running(Stage),
    /// The run is over.
    Finished(Outcome),
}

/// What the caller reports of an action.
#[derive(Clone, Debug, PartialEq, Eq)]
pub enum Report {
    /// A listing ran; this is what it printed.
    Listing(String),
    /// A command ran and ended with this exit status.
    Exit(i32),
    /// A local step was carried out.
    Done,
    /// The step could not be carried out: the command could not be started,
    /// or a local file operation failed.
    Failed,
}

/// What the caller is to do.
#[derive(Clone, Debug, PartialEq, Eq)]
pub enum Action {
    /// Run the general device listing and report what it prints.
    ListDevices,
    /// Run the bootloader device listing and report what it prints.
    ListBootloaderDevices,
    /// Tell the operator that no device was found.
    ReportNoDevice,
    /// Archive the directory `source_dir` into the file `archive_path`.
    BuildArchive { source_dir: String, archive_path: String },
    /// Transfer the file `local` to `remote` on the device.
    PushFile { local: String, remote: String },
    /// Run `command` on the device with elevated privilege.
    RunPrivileged { command: String },
    /// Restart the device.
    Restart,
    /// Remove the local file `path`.
    RemoveFile { path: String },
}

/// An action as the contracts see it.
pub enum ActionView {
    ListDevices,
    ListBootloaderDevices,
    ReportNoDevice,
    BuildArchive { source_dir: Seq<char>, archive_path: Seq<char> },
    PushFile { local: Seq<char>, remote: Seq<char> },
    RunPrivileged { command: Seq<char> },
    Restart,
    RemoveFile { path: Seq<char> },
}

impl View for Action {
    type V = ActionView;

    open spec fn view(&self) -> ActionView {
        match *self {
            Action::ListDevices => ActionView::ListDevices,
            Action::ListBootloaderDevices => ActionView::ListBootloaderDevices,
            Action::ReportNoDevice => ActionView::ReportNoDevice,
            Action::BuildArchive { source_dir, archive_path } => ActionView::BuildArchive {
                source_dir: source_dir@,
                archive_path: archive_path@,
            },
            Action::PushFile { local, remote } => ActionView::PushFile {
                local: local@,
                remote: remote@,
            },
            Action::RunPrivileged { command } => ActionView::RunPrivileged { command: command@ },
            Action::Restart => ActionView::Restart,
            Action::RemoveFile { path } => ActionView::RemoveFile { path: path@ },
        }
    }
}

impl Report {
    /// Whether the report is of a step that went through: a local step that
    /// was carried out, or a command that ended with exit status zero.
    pub open spec fn succeeded(self) -> bool {
        match self {
            Report::Done => true,
            Report::Exit(code) => code == 0,
            _ => false,
        }
    }

    /// Tells whether the report is of a step that went through.
    pub fn is_success(&self) -> (r: bool)
        ensures
            r == self.succeeded(),
    {
        match self {
            Report::Done => true,
            Report::Exit(code) => *code == 0,
            _ => false,
        }
    }
}

impl DeployJob {
    /// The archive's file name: the module's name and `.zip`.
    pub open spec fn spec_archive_name(self) -> Seq<char> {
        self.name@ + ".zip"@
    }

    /// The directory that is archived: the module's, below the project path.
    pub open spec fn spec_source_dir(self) -> Seq<char> {
        joined(self.project_path@, self.name@)
    }

    /// The archive's local path, below the project path.
    pub open spec fn spec_archive_path(self) -> Seq<char> {
        joined(self.project_path@, self.spec_archive_name())
    }

    /// Where the archive is pushed to on the device.
    pub open spec fn spec_remote_archive(self) -> Seq<char> {
        "/sdcard/"@ + self.spec_archive_name()
    }

    /// The staging directory on the device: the module's name below the fixed
    /// base directory.
    pub open spec fn spec_staging_dir(self) -> Seq<char> {
        "/data/adb/modules_update/"@ + self.name@
    }

    /// The command that creates the staging directory, and succeeds if it is
    /// there already.
    pub open spec fn spec_mkdir_command(self) -> Seq<char> {
        "mkdir -p "@ + self.spec_staging_dir()
    }

    /// The command that unpacks the pushed archive into the staging
    /// directory, over what is there.
    pub open spec fn spec_unpack_command(self) -> Seq<char> {
        "unzip -o "@ + self.spec_remote_archive() + " -d "@ + self.spec_staging_dir()
    }

    /// The command that creates the empty marker file `update` in the staging
    /// directory.
    pub open spec fn spec_marker_command(self) -> Seq<char> {
        "touch "@ + self.spec_staging_dir() + "/update"@
    }

    /// What is to be done at `stage`.
    pub open spec fn spec_action(self, stage: Stage) -> ActionView {
        match stage {
            Stage::DeviceCheck => ActionView::ListDevices,
            Stage::BootloaderCheck => ActionView::ListBootloaderDevices,
            Stage::NoDeviceNotice => ActionView::ReportNoDevice,
            Stage::Archive => ActionView::BuildArchive {
                source_dir: self.spec_source_dir(),
                archive_path: self.spec_archive_path(),
            },
            Stage::Transfer => ActionView::PushFile {
                local: self.spec_archive_path(),
                remote: self.spec_remote_archive(),
            },
            Stage::StagingDir => ActionView::RunPrivileged { command: self.spec_mkdir_command() },
            Stage::Unpack => ActionView::RunPrivileged { command: self.spec_unpack_command() },
            Stage::Marker => ActionView::RunPrivileged { command: self.spec_marker_command() },
            Stage::Restart => ActionView::Restart,
            Stage::Cleanup => ActionView::RemoveFile { path: self.spec_archive_path() },
        }
    }

    /// The progress made at `stage` once `report` has come in.
    ///
    /// A device check that cannot be carried out aborts the run. Without a
    /// device the run goes on only if the job says so. A stage from the
    /// archive to the marker must go through, or the run is aborted there.
    /// The restart only has to be started: its exit status is not waited for.
    /// A cleanup that fails is passed over.
    pub open spec fn next(self, stage: Stage, report: Report) -> Progress {
        match stage {
            Stage::DeviceCheck => match report {
                Report::Listing(out) => if adb_reports_device(out@) {
                    Progress::Running(Stage::Archive)
                } else {
                    Progress::Running(Stage::BootloaderCheck)
                },
                _ => Progress::Finished(Outcome::Failed(stage)),
            },
            Stage::BootloaderCheck => match report {
                Report::Listing(out) => if fastboot_reports_device(out@) {
                    Progress::Running(Stage::Archive)
                } else {
                    Progress::Running(Stage::NoDeviceNotice)
                },
                _ => Progress::Finished(Outcome::Failed(stage)),
            },
            Stage::NoDeviceNotice => if self.ignore_adb {
                Progress::Running(Stage::Archive)
            } else {
                Progress::Finished(Outcome::NoDevice)
            },
            Stage::Archive => if !report.succeeded() {
                Progress::Finished(Outcome::Failed(stage))
            } else if self.no_push {
                Progress::Finished(Outcome::Completed)
            } else {
                Progress::Running(Stage::Transfer)
            },
            Stage::Transfer => if report.succeeded() {
                Progress::Running(Stage::StagingDir)
            } else {
                Progress::Finished(Outcome::Failed(stage))
            },
            Stage::StagingDir => if report.succeeded() {
                Progress::Running(Stage::Unpack)
            } else {
                Progress::Finished(Outcome::Failed(stage))
            },
            Stage::Unpack => if report.succeeded() {
                Progress::Running(Stage::Marker)
            } else {
                Progress::Finished(Outcome::Failed(stage))
            },
            Stage::Marker => if !report.succeeded() {
                Progress::Finished(Outcome::Failed(stage))
            } else if self.no_reboot {
                Progress::Finished(Outcome::Completed)
            } else {
                Progress::Running(Stage::Restart)
            },
            Stage::Restart => if report is Failed {
                Progress::Finished(Outcome::Failed(stage))
            } else if self.no_clear {
                Progress::Finished(Outcome::Completed)
            } else {
                Progress::Running(Stage::Cleanup)
            },
            Stage::Cleanup => Progress::Finished(Outcome::Completed),
        }
    }

    /// Where a run stands after the reports `reports`, one for each action
    /// that was due, in order. Reports that come in after the end change
    /// nothing.
    pub open spec fn progress_after(self, reports: Seq<Report>) -> Progress
        decreases reports.len(),
    {
        if reports.len() == 0 {
            Progress::Running(Stage::DeviceCheck)
        } else {
            match self.progress_after(reports.drop_last()) {
                Progress::Running(stage) => self.next(stage, reports.last()),
                Progress::Finished(outcome) => Progress::Finished(outcome),
            }
        }
    }

    /// The archive's file name.
    pub fn archive_name(&self) -> (r: String)
        ensures
            r@ == self.spec_archive_name(),
    {
        let mut r = self.name.clone();
        r.append(".zip");
        r
    }

    /// The directory that is archived.
    pub fn source_dir(&self) -> (r: String)
        ensures
            r@ == self.spec_source_dir(),
    {
        join_path(self.project_path.as_str(), self.name.as_str())
    }

    /// The archive's local path.
    pub fn archive_path(&self) -> (r: String)
        ensures
            r@ == self.spec_archive_path(),
    {
        let name = self.archive_name();
        join_path(self.project_path.as_str(), name.as_str())
    }

    /// Where the archive is pushed to on the device.
    pub fn remote_archive(&self) -> (r: String)
        ensures
            r@ == self.spec_remote_archive(),
    {
        let name = self.archive_name();
        let mut r = String::from_str("/sdcard/");
        r.append(name.as_str());
        r
    }

    /// The staging directory on the device.
    pub fn staging_dir(&self) -> (r: String)
        ensures
            r@ == self.spec_staging_dir(),
    {
        let mut r = String::from_str("/data/adb/modules_update/");
        r.append(self.name.as_str());
        r
    }

    /// The command that creates the staging directory.
    pub fn mkdir_command(&self) -> (r: String)
        ensures
            r@ == self.spec_mkdir_command(),
    {
        let dir = self.staging_dir();
        let mut r = String::from_str("mkdir -p ");
        r.append(dir.as_str());
        r
    }

    /// The command that unpacks the pushed archive into the staging directory.
    pub fn unpack_command(&self) -> (r: String)
        ensures
            r@ == self.spec_unpack_command(),
    {
        let archive = self.remote_archive();
        let dir = self.staging_dir();
        let mut r = String::from_str("unzip -o ");
        r.append(archive.as_str());
        r.append(" -d ");
        r.append(dir.as_str());
        r
    }

    /// The command that creates the update marker.
    pub fn marker_command(&self) -> (r: String)
        ensures
            r@ == self.spec_marker_command(),
    {
        let dir = self.staging_dir();
        let mut r = String::from_str("touch ");
        r.append(dir.as_str());
        r.append("/update");
        r
    }

    /// Where every run starts: at the device check.
    pub fn start(&self) -> (p: Progress)
        ensures
            p == self.progress_after(Seq::empty()),
            p == Progress::Running(Stage::DeviceCheck),
    {
        Progress::Running(Stage::DeviceCheck)
    }

    /// Says what is to be done at `stage`.
    pub fn action(&self, stage: Stage) -> (a: Action)
        ensures
            a@ == self.spec_action(stage),
    {
        match stage {
            Stage::DeviceCheck => Action::ListDevices,
            Stage::BootloaderCheck => Action::ListBootloaderDevices,
            Stage::NoDeviceNotice => Action::ReportNoDevice,
            Stage::Archive => Action::BuildArchive {
                source_dir: self.source_dir(),
                archive_path: self.archive_path(),
            },
            Stage::Transfer => Action::PushFile {
                local: self.archive_path(),
                remote: self.remote_archive(),
            },
            Stage::StagingDir => Action::RunPrivileged { command: self.mkdir_command() },
            Stage::Unpack => Action::RunPrivileged { command: self.unpack_command() },
            Stage::Marker => Action::RunPrivileged { command: self.marker_command() },
            Stage::Restart => Action::Restart,
            Stage::Cleanup => Action::RemoveFile { path: self.archive_path() },
        }
    }

    /// Takes the report of the action of `stage` and gives the progress made.
    pub fn advance(&self, stage: Stage, report: &Report) -> (p: Progress)
        ensures
            p == self.next(stage, *report),
    {
        let ok = report.is_success();
        match stage {
            Stage::DeviceCheck => match report {
                Report::Listing(out) => if has_adb_device(out.as_str()) {
                    Progress::Running(Stage::Archive)
                } else {
                    Progress::Running(Stage::BootloaderCheck)
                },
                _ => Progress::Finished(Outcome::Failed(stage)),
            },
            Stage::BootloaderCheck => match report {
                Report::Listing(out) => if has_fastboot_device(out.as_str()) {
                    Progress::Running(Stage::Archive)
                } else {
                    Progress::Running(Stage::NoDeviceNotice)
                },
                _ => Progress::Finished(Outcome::Failed(stage)),
            },
            Stage::NoDeviceNotice => if self.ignore_adb {
                Progress::Running(Stage::Archive)
            } else {
                Progress::Finished(Outcome::NoDevice)
            },
            Stage::Archive => if !ok {
                Progress::Finished(Outcome::Failed(stage))
            } else if self.no_push {
                Progress::Finished(Outcome::Completed)
            } else {
                Progress::Running(Stage::Transfer)
            },
            Stage::Transfer => if ok {
                Progress::Running(Stage::StagingDir)
            } else {
                Progress::Finished(Outcome::Failed(stage))
            },
            Stage::StagingDir => if ok {
                Progress::Running(Stage::Unpack)
            } else {
                Progress::Finished(Outcome::Failed(stage))
            },
            Stage::Unpack => if ok {
                Progress::Running(Stage::Marker)
            } else {
                Progress::Finished(Outcome::Failed(stage))
            },
            Stage::Marker => if !ok {
                Progress::Finished(Outcome::Failed(stage))
            } else if self.no_reboot {
                Progress::Finished(Outcome::Completed)
            } else {
                Progress::Running(Stage::Restart)
            },
            Stage::Restart => match report {
                Report::Failed => Progress::Finished(Outcome::Failed(stage)),
                _ => if self.no_clear {
                    Progress::Finished(Outcome::Completed)
                } else {
                    Progress::Running(Stage::Cleanup)
                },
            },
            Stage::Cleanup => Progress::Finished(Outcome::Completed),
        }
    }

    /// Replays a run: gives where it stands after `reports`.
    pub fn replay(&self, reports: &Vec<Report>) -> (p: Progress)
        ensures
            p == self.progress_after(reports@),
    {
        let mut p = self.start();
        let mut k: usize = 0;
        while k < reports.len()
            invariant
                k <= reports.len(),
                p == self.progress_after(reports@.take(k as int)),
            decreases reports.len() - k,
        {
            proof {
                assert(reports@.take(k + 1).drop_last() =~= reports@.take(k as int));
            }
            if let Progress::Running(stage) = p {
                p = self.advance(stage, &reports[k]);
            }
            k = k + 1;
        }
        proof {
            assert(reports@.take(reports@.len() as int) =~= reports@);
        }
        p
    }
}

/// Whether the device checks at the start of a run found a device: the first
/// report is a general listing with a ready device, or it is one without and
/// the second report is a bootloader listing with a device.
pub open spec fn device_found(reports: Seq<Report>) -> bool {
    &&& reports.len() >= 1
    &&& reports[0] matches Report::Listing(first)
    &&& (adb_reports_device(first@) || {
        &&& reports.len() >= 2
        &&& reports[1] matches Report::Listing(second)
        &&& fastboot_reports_device(second@)
    })
}

/// Whether a run at `p` has done nothing but look for a device: it is at one
/// of the device checks or at the notice, or it ended there.
pub open spec fn before_archive(p: Progress) -> bool {
    match p {
        Progress::Running(stage) => stage is DeviceCheck || stage is BootloaderCheck
            || stage is NoDeviceNotice,
        Progress::Finished(outcome) => match outcome {
            Outcome::NoDevice => true,
            Outcome::Failed(stage) => stage is DeviceCheck || stage is BootloaderCheck,
            Outcome::Completed => false,
        },
    }
}

/// Whether `stage` comes after the archive is built: the transfer, the
/// staging on the device, the marker, the restart and the cleanup.
pub open spec fn after_archive(stage: Stage) -> bool {
    stage is Transfer || stage is StagingDir || stage is Unpack || stage is Marker
        || stage is Restart || stage is Cleanup
}

/// Whether a run at `p` is at, or was aborted at, a stage that comes after
/// the archive is built.
pub open spec fn went_past_archive(p: Progress) -> bool {
    match p {
        Progress::Running(stage) => after_archive(stage),
        Progress::Finished(outcome) => outcome matches Outcome::Failed(stage) && after_archive(
            stage,
        ),
    }
}

/// The place of `stage` in the order of the stages.
pub open spec fn position(stage: Stage) -> nat {
    match stage {
        Stage::DeviceCheck => 0,
        Stage::BootloaderCheck => 1,
        Stage::NoDeviceNotice => 2,
        Stage::Archive => 3,
        Stage::Transfer => 4,
        Stage::StagingDir => 5,
        Stage::Unpack => 6,
        Stage::Marker => 7,
        Stage::Restart => 8,
        Stage::Cleanup => 9,
    }
}

/// One more report moves a run by one step, unless it is over.
pub proof fn lemma_progress_step(job: DeployJob, reports: Seq<Report>, k: int)
    requires
        0 <= k < reports.len(),
    ensures
        job.progress_after(reports.take(k + 1)) == match job.progress_after(reports.take(k)) {
            Progress::Running(stage) => job.next(stage, reports[k]),
            Progress::Finished(outcome) => Progress::Finished(outcome),
        },
{
    assert(reports.take(k + 1).drop_last() =~= reports.take(k));
    assert(reports.take(k + 1).last() == reports[k]);
}

/// A run whose checks found no device, for a job that does not go on without
/// one, never gets to the archive: after any number of its reports it is
/// still looking for a device, or it ended without one. So no archive is
/// built and nothing is transferred.
pub proof fn lemma_no_device_stops_the_run(job: DeployJob, reports: Seq<Report>, k: int)
    requires
        !job.ignore_adb,
        !device_found(reports),
        0 <= k <= reports.len(),
    ensures
        before_archive(job.progress_after(reports.take(k))),
        job.progress_after(reports.take(k)) == Progress::Running(Stage::DeviceCheck) ==> k == 0,
        job.progress_after(reports.take(k)) == Progress::Running(Stage::BootloaderCheck) ==> k
            == 1,
        job.progress_after(reports.take(k)) == Progress::Running(Stage::NoDeviceNotice) ==> k
            == 2,
    decreases k,
{
    if k > 0 {
        lemma_no_device_stops_the_run(job, reports, k - 1);
        lemma_progress_step(job, reports, k - 1);
    }
}

/// A job that skips the transfer never gets past the archive: no stage after
/// it is reached, so no staging directory and no marker are made and no
/// restart is asked for. A run that builds its archive ends there, completed.
pub proof fn lemma_skipped_transfer_ends_at_archive(job: DeployJob, reports: Seq<Report>, k: int)
    requires
        job.no_push,
        0 <= k <= reports.len(),
    ensures
        !went_past_archive(job.progress_after(reports.take(k))),
        k < reports.len() && job.progress_after(reports.take(k)) == Progress::Running(
            Stage::Archive,
        ) && reports[k].succeeded() ==> job.progress_after(reports.take(k + 1))
            == Progress::Finished(Outcome::Completed),
    decreases k,
{
    if k > 0 {
        lemma_skipped_transfer_ends_at_archive(job, reports, k - 1);
        lemma_progress_step(job, reports, k - 1);
    }
    if k < reports.len() {
        lemma_progress_step(job, reports, k);
    }
}

/// The marker stage is entered exactly when the unpack went through: a run
/// stands at the marker after a report if and only if it stood at the unpack
/// before it and the report is of a success. A run never starts there.
pub proof fn lemma_marker_only_after_unpack(job: DeployJob, reports: Seq<Report>, k: int)
    requires
        0 <= k < reports.len(),
    ensures
        job.progress_after(reports.take(k + 1)) == Progress::Running(Stage::Marker) <==> (
        job.progress_after(reports.take(k)) == Progress::Running(Stage::Unpack)
            && reports[k].succeeded()),
        job.progress_after(reports.take(0)) != Progress::Running(Stage::Marker),
{
    lemma_progress_step(job, reports, k);
    assert(reports.take(0) =~= Seq::<Report>::empty());
}

/// A run that is over stays over: further reports change nothing.
pub proof fn lemma_finished_is_final(job: DeployJob, reports: Seq<Report>, k: int)
    requires
        0 <= k <= reports.len(),
        job.progress_after(reports.take(k)) is Finished,
    ensures
        job.progress_after(reports) == job.progress_after(reports.take(k)),
    decreases reports.len() - k,
{
    if k < reports.len() {
        lemma_progress_step(job, reports, k);
        lemma_finished_is_final(job, reports, k + 1);
    } else {
        assert(reports.take(k) =~= reports);
    }
}

/// Every step leads on: the stage after a report, if there is one, comes
/// later in the order of the stages. No stage is passed twice.
pub proof fn lemma_steps_lead_on(job: DeployJob, stage: Stage, report: Report)
    ensures
        job.next(stage, report) matches Progress::Running(then) ==> position(then) > position(
            stage,
        ),
{
}

/// A run is over after ten reports at the latest; while it is running it
/// has passed a stage for each report.
pub proof fn lemma_run_ends(job: DeployJob, reports: Seq<Report>, k: int)
    requires
        0 <= k <= reports.len(),
    ensures
        job.progress_after(reports.take(k)) matches Progress::Running(stage) ==> position(stage)
            >= k,
        k >= 10 ==> job.progress_after(reports.take(k)) is Finished,
    decreases k,
{
    if k > 0 {
        lemma_run_ends(job, reports, k - 1);
        lemma_progress_step(job, reports, k - 1);
        if let Progress::Running(stage) = job.progress_after(reports.take(k - 1)) {
            lemma_steps_lead_on(job, stage, reports[k - 1]);
        }
    } else {
        assert(reports.take(0) =~= Seq::<Report>::empty());
    }
}

} // verus!
