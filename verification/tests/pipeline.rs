use module_manager::pipeline::{
    join_path, Action, DeployJob, Outcome, Progress, Report, Stage,
};

const ADB_READY: &str = "List of devices attached\nemulator-5554\tdevice\n\n";
const ADB_NONE: &str = "List of devices attached\n\n";
const FASTBOOT_READY: &str = "0123456789ABCDEF\tfastboot\n";
const FASTBOOT_NONE: &str = "";

fn job() -> DeployJob {
    DeployJob {
        name: "demo".to_string(),
        project_path: "work".to_string(),
        no_clear: false,
        no_push: false,
        no_reboot: false,
        ignore_adb: false,
    }
}

fn listing(text: &str) -> Report {
    Report::Listing(text.to_string())
}

/// Runs the job against scripted reports and gives the actions that came
/// due, with the progress at the end.
fn run(job: &DeployJob, reports: &[Report]) -> (Vec<Action>, Progress) {
    let mut actions = Vec::new();
    let mut progress = job.start();
    let mut next = 0;
    while let Progress::Running(stage) = progress {
        actions.push(job.action(stage));
        if next == reports.len() {
            break;
        }
        progress = job.advance(stage, &reports[next]);
        next += 1;
    }
    (actions, progress)
}

fn privileged(command: &str) -> Action {
    Action::RunPrivileged { command: command.to_string() }
}

#[test]
fn names_are_derived_from_the_module_name() {
    let j = job();
    assert_eq!(j.archive_name(), "demo.zip");
    assert_eq!(j.source_dir(), "work/demo");
    assert_eq!(j.archive_path(), "work/demo.zip");
    assert_eq!(j.remote_archive(), "/sdcard/demo.zip");
    assert_eq!(j.staging_dir(), "/data/adb/modules_update/demo");
}

#[test]
fn commands_name_the_staging_directory() {
    let j = job();
    assert_eq!(j.mkdir_command(), "mkdir -p /data/adb/modules_update/demo");
    assert_eq!(
        j.unpack_command(),
        "unzip -o /sdcard/demo.zip -d /data/adb/modules_update/demo"
    );
    assert_eq!(j.marker_command(), "touch /data/adb/modules_update/demo/update");
}

#[test]
fn paths_are_joined_by_one_slash() {
    assert_eq!(join_path("work", "demo"), "work/demo");
    assert_eq!(join_path("work/", "demo"), "work/demo");
    assert_eq!(join_path("", "demo"), "demo");
    assert_eq!(join_path("/", "demo"), "/demo");
    assert_eq!(join_path("a/b", "c.zip"), "a/b/c.zip");
    assert_eq!(join_path("work", ""), "work/");
}

#[test]
fn every_stage_has_its_action() {
    let j = job();
    assert_eq!(j.action(Stage::DeviceCheck), Action::ListDevices);
    assert_eq!(j.action(Stage::BootloaderCheck), Action::ListBootloaderDevices);
    assert_eq!(j.action(Stage::NoDeviceNotice), Action::ReportNoDevice);
    assert_eq!(
        j.action(Stage::Archive),
        Action::BuildArchive {
            source_dir: "work/demo".to_string(),
            archive_path: "work/demo.zip".to_string()
        }
    );
    assert_eq!(
        j.action(Stage::Transfer),
        Action::PushFile {
            local: "work/demo.zip".to_string(),
            remote: "/sdcard/demo.zip".to_string()
        }
    );
    assert_eq!(j.action(Stage::StagingDir), privileged("mkdir -p /data/adb/modules_update/demo"));
    assert_eq!(
        j.action(Stage::Unpack),
        privileged("unzip -o /sdcard/demo.zip -d /data/adb/modules_update/demo")
    );
    assert_eq!(j.action(Stage::Marker), privileged("touch /data/adb/modules_update/demo/update"));
    assert_eq!(j.action(Stage::Restart), Action::Restart);
    assert_eq!(j.action(Stage::Cleanup), Action::RemoveFile { path: "work/demo.zip".to_string() });
}

#[test]
fn a_run_starts_at_the_device_check() {
    assert_eq!(job().start(), Progress::Running(Stage::DeviceCheck));
    assert_eq!(job().replay(&Vec::new()), Progress::Running(Stage::DeviceCheck));
}

#[test]
fn full_run_passes_every_stage_in_order() {
    let j = job();
    let reports = [
        listing(ADB_READY),
        Report::Done,
        Report::Exit(0),
        Report::Exit(0),
        Report::Exit(0),
        Report::Exit(0),
        Report::Exit(0),
        Report::Done,
    ];
    let (actions, end) = run(&j, &reports);
    assert_eq!(end, Progress::Finished(Outcome::Completed));
    assert_eq!(
        actions,
        vec![
            j.action(Stage::DeviceCheck),
            j.action(Stage::Archive),
            j.action(Stage::Transfer),
            j.action(Stage::StagingDir),
            j.action(Stage::Unpack),
            j.action(Stage::Marker),
            j.action(Stage::Restart),
            j.action(Stage::Cleanup),
        ]
    );
    assert_eq!(j.replay(&reports.to_vec()), end);
}

#[test]
fn bootloader_listing_is_asked_when_the_general_one_has_no_device() {
    let j = job();
    let (actions, end) = run(&j, &[listing(ADB_NONE), listing(FASTBOOT_READY)]);
    assert_eq!(end, Progress::Running(Stage::Archive));
    assert_eq!(
        actions,
        vec![Action::ListDevices, Action::ListBootloaderDevices, j.action(Stage::Archive)]
    );
}

#[test]
fn bootloader_listing_is_not_asked_when_a_device_is_ready() {
    let j = job();
    assert_eq!(
        j.advance(Stage::DeviceCheck, &listing(ADB_READY)),
        Progress::Running(Stage::Archive)
    );
}

#[test]
fn no_device_and_no_leave_ends_the_run_before_the_archive() {
    let j = job();
    let reports = [listing(ADB_NONE), listing(FASTBOOT_NONE), Report::Done];
    let (actions, end) = run(&j, &reports);
    assert_eq!(end, Progress::Finished(Outcome::NoDevice));
    assert_eq!(
        actions,
        vec![Action::ListDevices, Action::ListBootloaderDevices, Action::ReportNoDevice]
    );
    for a in &actions {
        assert!(!matches!(a, Action::BuildArchive { .. }));
        assert!(!matches!(a, Action::PushFile { .. }));
    }
}

#[test]
fn no_device_with_leave_goes_on_to_the_archive() {
    let mut j = job();
    j.ignore_adb = true;
    let reports = [listing(ADB_NONE), listing(FASTBOOT_NONE), Report::Done];
    let (actions, end) = run(&j, &reports);
    assert_eq!(end, Progress::Running(Stage::Archive));
    assert_eq!(actions[2], Action::ReportNoDevice);
    assert!(matches!(actions[3], Action::BuildArchive { .. }));
}

#[test]
fn a_listing_that_cannot_run_aborts_the_run() {
    let j = job();
    assert_eq!(
        j.advance(Stage::DeviceCheck, &Report::Failed),
        Progress::Finished(Outcome::Failed(Stage::DeviceCheck))
    );
    assert_eq!(
        j.advance(Stage::BootloaderCheck, &Report::Failed),
        Progress::Finished(Outcome::Failed(Stage::BootloaderCheck))
    );
    assert_eq!(
        j.advance(Stage::DeviceCheck, &Report::Exit(0)),
        Progress::Finished(Outcome::Failed(Stage::DeviceCheck))
    );
}

#[test]
fn skipped_transfer_ends_after_the_archive() {
    let mut j = job();
    j.no_push = true;
    let reports = [listing(ADB_READY), Report::Done, Report::Exit(0), Report::Exit(0)];
    let (actions, end) = run(&j, &reports);
    assert_eq!(end, Progress::Finished(Outcome::Completed));
    assert_eq!(actions, vec![Action::ListDevices, j.action(Stage::Archive)]);
    for a in &actions {
        assert!(!matches!(a, Action::PushFile { .. }));
        assert!(!matches!(a, Action::RunPrivileged { .. }));
        assert!(!matches!(a, Action::Restart));
    }
    assert_eq!(j.replay(&reports.to_vec()), Progress::Finished(Outcome::Completed));
}

#[test]
fn failed_archive_aborts_the_run() {
    let j = job();
    let (actions, end) = run(&j, &[listing(ADB_READY), Report::Failed]);
    assert_eq!(end, Progress::Finished(Outcome::Failed(Stage::Archive)));
    assert_eq!(actions.len(), 2);
    let mut skipping = job();
    skipping.no_push = true;
    assert_eq!(
        skipping.advance(Stage::Archive, &Report::Failed),
        Progress::Finished(Outcome::Failed(Stage::Archive))
    );
}

#[test]
fn nonzero_exit_aborts_at_each_staging_step() {
    let j = job();
    for stage in [Stage::Transfer, Stage::StagingDir, Stage::Unpack, Stage::Marker] {
        assert_eq!(
            j.advance(stage, &Report::Exit(1)),
            Progress::Finished(Outcome::Failed(stage))
        );
        assert_eq!(
            j.advance(stage, &Report::Exit(-1)),
            Progress::Finished(Outcome::Failed(stage))
        );
        assert_eq!(j.advance(stage, &Report::Failed), Progress::Finished(Outcome::Failed(stage)));
    }
}

#[test]
fn marker_is_made_only_after_a_successful_unpack() {
    let j = job();
    let before_unpack =
        [listing(ADB_READY), Report::Done, Report::Exit(0), Report::Exit(0)];
    let mut failing = before_unpack.to_vec();
    failing.push(Report::Exit(1));
    let (actions, end) = run(&j, &failing);
    assert_eq!(end, Progress::Finished(Outcome::Failed(Stage::Unpack)));
    assert!(!actions.contains(&j.action(Stage::Marker)));
    assert_eq!(actions.last(), Some(&j.action(Stage::Unpack)));

    let mut passing = before_unpack.to_vec();
    passing.push(Report::Exit(0));
    let (actions, end) = run(&j, &passing);
    assert_eq!(end, Progress::Running(Stage::Marker));
    assert_eq!(actions.last(), Some(&j.action(Stage::Marker)));
    assert_eq!(actions.iter().filter(|a| **a == j.action(Stage::Marker)).count(), 1);
}

#[test]
fn skipped_restart_ends_after_the_marker() {
    let mut j = job();
    j.no_reboot = true;
    assert_eq!(j.advance(Stage::Marker, &Report::Exit(0)), Progress::Finished(Outcome::Completed));
    assert_eq!(
        job().advance(Stage::Marker, &Report::Exit(0)),
        Progress::Running(Stage::Restart)
    );
}

#[test]
fn restart_only_has_to_start() {
    let j = job();
    assert_eq!(j.advance(Stage::Restart, &Report::Exit(0)), Progress::Running(Stage::Cleanup));
    assert_eq!(j.advance(Stage::Restart, &Report::Exit(255)), Progress::Running(Stage::Cleanup));
    assert_eq!(
        j.advance(Stage::Restart, &Report::Failed),
        Progress::Finished(Outcome::Failed(Stage::Restart))
    );
}

#[test]
fn cleanup_follows_a_restart_unless_skipped() {
    let mut j = job();
    j.no_clear = true;
    assert_eq!(j.advance(Stage::Restart, &Report::Exit(0)), Progress::Finished(Outcome::Completed));
    let mut k = job();
    k.no_reboot = true;
    let reports = [
        listing(ADB_READY),
        Report::Done,
        Report::Exit(0),
        Report::Exit(0),
        Report::Exit(0),
        Report::Exit(0),
    ];
    let (actions, end) = run(&k, &reports);
    assert_eq!(end, Progress::Finished(Outcome::Completed));
    assert!(!actions.iter().any(|a| matches!(a, Action::RemoveFile { .. })));
}

#[test]
fn failed_cleanup_is_passed_over() {
    let j = job();
    assert_eq!(j.advance(Stage::Cleanup, &Report::Failed), Progress::Finished(Outcome::Completed));
    assert_eq!(j.advance(Stage::Cleanup, &Report::Done), Progress::Finished(Outcome::Completed));
}

#[test]
fn reports_after_the_end_change_nothing() {
    let j = job();
    let reports = vec![
        listing(ADB_NONE),
        listing(FASTBOOT_NONE),
        Report::Done,
        Report::Done,
        Report::Exit(0),
    ];
    assert_eq!(j.replay(&reports), Progress::Finished(Outcome::NoDevice));
}

#[test]
fn success_is_a_zero_exit_or_a_step_done() {
    assert!(Report::Done.is_success());
    assert!(Report::Exit(0).is_success());
    assert!(!Report::Exit(1).is_success());
    assert!(!Report::Failed.is_success());
    assert!(!listing("").is_success());
}

#[test]
fn every_run_is_over_after_ten_reports() {
    let mut j = job();
    j.ignore_adb = true;
    let reports = vec![
        listing(ADB_NONE),
        listing(FASTBOOT_NONE),
        Report::Done,
        Report::Done,
        Report::Exit(0),
        Report::Exit(0),
        Report::Exit(0),
        Report::Exit(0),
        Report::Exit(0),
    ];
    assert_eq!(j.replay(&reports), Progress::Running(Stage::Cleanup));
    let mut ten = reports.clone();
    ten.push(Report::Failed);
    assert_eq!(j.replay(&ten), Progress::Finished(Outcome::Completed));
    let (actions, _) = run(&j, &ten);
    assert_eq!(actions.len(), 10);
}
