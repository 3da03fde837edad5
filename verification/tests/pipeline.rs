use std::collections::HashMap;
use vmprep::commands::{BuildStep, CommandLine};
use vmprep::patch::{PatchMode, Substitution};
use vmprep::pipeline::{checked_step, start, step, Action, Event, PipelineError, State};
use vmprep::tree::{qemu_tree, PatchSpec, SourceTree};

/// A host held in memory: the tree's directory, the files in it, the marker,
/// and how each outside action is to end.
struct Host {
    tree_exists: bool,
    marker: bool,
    files: HashMap<String, String>,
    upstream: HashMap<String, String>,
    answer: bool,
    remove_ok: bool,
    clone_ok: bool,
    checkout_ok: bool,
    write_ok: bool,
    diff_ok: bool,
    mark_ok: bool,
    statuses: Vec<Option<i32>>,
    log: Vec<String>,
}

impl Host {
    fn new(upstream: &[(&str, &str)]) -> Host {
        Host {
            tree_exists: false,
            marker: false,
            files: HashMap::new(),
            upstream: upstream.iter().map(|(f, t)| (f.to_string(), t.to_string())).collect(),
            answer: false,
            remove_ok: true,
            clone_ok: true,
            checkout_ok: true,
            write_ok: true,
            diff_ok: true,
            mark_ok: true,
            statuses: Vec::new(),
            log: Vec::new(),
        }
    }

    fn perform(&mut self, tree: &SourceTree, action: Action) -> Result<Event, Result<(), PipelineError>> {
        let file_of = |i: usize| match &tree.patch {
            PatchSpec::Substitutions(subs) => subs[i].file.clone(),
            PatchSpec::Diff(_) => panic!("no substitutions"),
        };
        let outcome = |ok: bool| if ok { Event::Done } else { Event::Failed };
        match action {
            Action::ProbeTree => {
                self.log.push("probe tree".to_string());
                Ok(Event::Exists(self.tree_exists))
            }
            Action::Confirm(prompt) => {
                self.log.push(format!("confirm {}", prompt));
                Ok(Event::Answered(self.answer))
            }
            Action::RemoveTree => {
                self.log.push("remove".to_string());
                if self.remove_ok {
                    self.tree_exists = false;
                    self.marker = false;
                    self.files.clear();
                }
                Ok(outcome(self.remove_ok))
            }
            Action::Clone => {
                self.log.push("clone".to_string());
                if self.clone_ok {
                    self.tree_exists = true;
                    self.files = self.upstream.clone();
                }
                Ok(outcome(self.clone_ok))
            }
            Action::Checkout => {
                self.log.push("checkout".to_string());
                Ok(outcome(self.checkout_ok))
            }
            Action::ProbeMarker => {
                self.log.push("probe marker".to_string());
                Ok(Event::Exists(self.marker))
            }
            Action::ReadFile(i) => {
                self.log.push(format!("read {}", i));
                match self.files.get(&file_of(i)) {
                    Some(text) => Ok(Event::Content(text.clone())),
                    None => Ok(Event::Failed),
                }
            }
            Action::WriteFile(i, text) => {
                self.log.push(format!("write {}", i));
                if self.write_ok {
                    self.files.insert(file_of(i), text);
                }
                Ok(outcome(self.write_ok))
            }
            Action::WarnSkipped(i) => {
                self.log.push(format!("warn {}", i));
                Ok(Event::Done)
            }
            Action::ApplyDiff => {
                self.log.push("apply diff".to_string());
                Ok(outcome(self.diff_ok))
            }
            Action::CreateMarker => {
                self.log.push("mark".to_string());
                if self.mark_ok {
                    self.marker = true;
                }
                Ok(outcome(self.mark_ok))
            }
            Action::Run(k) => {
                self.log.push(format!("run {}", k));
                match self.statuses.get(k).copied().unwrap_or(Some(0)) {
                    Some(status) => Ok(Event::Exited(status)),
                    None => Ok(Event::Failed),
                }
            }
            Action::Finish(result) => Err(result),
        }
    }

    fn run(&mut self, tree: &SourceTree, mode: PatchMode) -> Result<(), PipelineError> {
        self.log.clear();
        let (mut state, mut action) = start();
        let mut steps = 0;
        loop {
            let event = match self.perform(tree, action) {
                Ok(event) => event,
                Err(result) => {
                    assert_eq!(state, State::Finished);
                    assert!(steps <= 2 * tree.substitution_count() + tree.build.len() + 8);
                    return result;
                }
            };
            let (next_state, next_action) =
                checked_step(tree, mode, state, event).expect("the event answers the action");
            state = next_state;
            action = next_action;
            steps += 1;
        }
    }
}

fn tree() -> SourceTree {
    SourceTree {
        url: "https://example.org/hv.git".to_string(),
        path: "./hv".to_string(),
        tag: "v1".to_string(),
        patch: PatchSpec::Substitutions(vec![
            Substitution::new("a.c", "QEMU", "WOOT"),
            Substitution::new("b.c", "BOCHS", "ALASKA"),
            Substitution::new("a.c", "WOOT HARDDISK", "WDC"),
        ]),
        name: "hv".to_string(),
        build: vec![
            BuildStep {
                command: CommandLine { program: "./configure".to_string(), args: vec![] },
                subdir: String::new(),
            },
            BuildStep {
                command: CommandLine { program: "make".to_string(), args: vec!["-j2".to_string()] },
                subdir: String::new(),
            },
        ],
    }
}

const UPSTREAM: [(&str, &str); 2] = [("a.c", "vendor QEMU HARDDISK;"), ("b.c", "name BOCHS;")];

fn log(lines: &[&str]) -> Vec<String> {
    lines.iter().map(|l| l.to_string()).collect()
}

#[test]
fn absent_tree_is_cloned_patched_and_built_and_not_patched_twice() {
    let tree = tree();
    let mut host = Host::new(&UPSTREAM);
    assert!(!host.marker);
    assert_eq!(host.run(&tree, PatchMode::Strict), Ok(()));
    assert_eq!(
        host.log,
        log(&[
            "probe tree", "clone", "checkout", "probe marker", "read 0", "write 0", "read 1", "write 1",
            "read 2", "write 2", "mark", "run 0", "run 1",
        ])
    );
    assert!(host.marker);
    assert_eq!(host.files["a.c"], "vendor WDC;");
    assert_eq!(host.files["b.c"], "name ALASKA;");

    let before = host.files.clone();
    assert_eq!(host.run(&tree, PatchMode::Strict), Err(PipelineError::AlreadyPatched));
    assert_eq!(
        host.log,
        log(&["probe tree", "confirm Would you like to re-clone the hv GitHub repository? (y/N)", "probe marker"])
    );
    assert_eq!(host.files, before);
}

#[test]
fn declined_tree_is_left_as_it_is() {
    let tree = tree();
    let mut host = Host::new(&UPSTREAM);
    host.tree_exists = true;
    host.files.insert("a.c".to_string(), "local QEMU HARDDISK edit".to_string());
    host.files.insert("b.c".to_string(), "local BOCHS".to_string());
    host.answer = false;
    assert_eq!(host.run(&tree, PatchMode::Strict), Ok(()));
    assert!(!host.log.contains(&"clone".to_string()));
    assert!(!host.log.contains(&"remove".to_string()));
    assert!(!host.log.contains(&"checkout".to_string()));
    assert_eq!(host.log[2], "probe marker");
    assert_eq!(host.files["a.c"], "local WDC edit");
}

#[test]
fn accepted_tree_is_removed_before_it_is_cloned_again() {
    let tree = tree();
    let mut host = Host::new(&UPSTREAM);
    host.tree_exists = true;
    host.marker = true;
    host.files.insert("a.c".to_string(), "vendor WDC;".to_string());
    host.answer = true;
    assert_eq!(host.run(&tree, PatchMode::Strict), Ok(()));
    assert_eq!(
        host.log[..5].to_vec(),
        log(&[
            "probe tree",
            "confirm Would you like to re-clone the hv GitHub repository? (y/N)",
            "remove",
            "clone",
            "checkout",
        ])
    );
    assert!(host.log.contains(&"write 2".to_string()));
    assert!(host.marker);
    assert_eq!(host.files["a.c"], "vendor WDC;");
    assert_eq!(host.files["b.c"], "name ALASKA;");
}

#[test]
fn failures_of_the_acquire_phase() {
    let tree = tree();
    let mut host = Host::new(&UPSTREAM);
    host.clone_ok = false;
    assert_eq!(host.run(&tree, PatchMode::Strict), Err(PipelineError::CloneError));
    assert_eq!(host.log, log(&["probe tree", "clone"]));

    let mut host = Host::new(&UPSTREAM);
    host.checkout_ok = false;
    assert_eq!(host.run(&tree, PatchMode::Strict), Err(PipelineError::CheckoutError));
    assert_eq!(host.log, log(&["probe tree", "clone", "checkout"]));

    let mut host = Host::new(&UPSTREAM);
    host.tree_exists = true;
    host.answer = true;
    host.remove_ok = false;
    assert_eq!(host.run(&tree, PatchMode::Strict), Err(PipelineError::Io));
    assert!(!host.log.contains(&"clone".to_string()));
}

#[test]
fn missing_file_ends_the_patch_phase() {
    let tree = tree();
    let mut host = Host::new(&[("a.c", "vendor QEMU HARDDISK;")]);
    for mode in [PatchMode::Strict, PatchMode::BestEffort] {
        host.tree_exists = false;
        assert_eq!(host.run(&tree, mode), Err(PipelineError::PatchTargetMissing { index: 1 }));
        assert!(!host.marker);
        assert!(!host.log.contains(&"mark".to_string()));
        assert!(!host.log.contains(&"run 0".to_string()));
    }
}

#[test]
fn missing_old_text_ends_the_strict_mode() {
    let tree = tree();
    let mut host = Host::new(&[("a.c", "vendor QEMU HARDDISK;"), ("b.c", "name SEABIOS;")]);
    assert_eq!(host.run(&tree, PatchMode::Strict), Err(PipelineError::PatchTextNotFound { index: 1 }));
    assert_eq!(
        host.log,
        log(&["probe tree", "clone", "checkout", "probe marker", "read 0", "write 0", "read 1"])
    );
    assert!(!host.marker);
    assert_eq!(host.files["b.c"], "name SEABIOS;");
}

#[test]
fn missing_old_text_is_skipped_in_the_other_mode() {
    let tree = tree();
    let mut host = Host::new(&[("a.c", "vendor QEMU HARDDISK;"), ("b.c", "name SEABIOS;")]);
    assert_eq!(host.run(&tree, PatchMode::BestEffort), Ok(()));
    assert_eq!(
        host.log,
        log(&[
            "probe tree", "clone", "checkout", "probe marker", "read 0", "write 0", "read 1", "warn 1",
            "read 2", "write 2", "mark", "run 0", "run 1",
        ])
    );
    assert!(host.marker);
    assert_eq!(host.files["a.c"], "vendor WDC;");
    assert_eq!(host.files["b.c"], "name SEABIOS;");
}

#[test]
fn substitutions_of_one_file_are_applied_in_order() {
    let mut tree = tree();
    tree.patch = PatchSpec::Substitutions(vec![
        Substitution::new("a.c", "WOOT HARDDISK", "WDC"),
        Substitution::new("a.c", "QEMU", "WOOT"),
    ]);
    let mut host = Host::new(&UPSTREAM);
    assert_eq!(host.run(&tree, PatchMode::Strict), Err(PipelineError::PatchTextNotFound { index: 0 }));
    assert_eq!(host.files["a.c"], "vendor QEMU HARDDISK;");
}

#[test]
fn write_and_marker_failures_are_io_errors() {
    let tree = tree();
    let mut host = Host::new(&UPSTREAM);
    host.write_ok = false;
    assert_eq!(host.run(&tree, PatchMode::Strict), Err(PipelineError::Io));
    assert_eq!(host.log.last().unwrap(), "write 0");

    let mut host = Host::new(&UPSTREAM);
    host.mark_ok = false;
    assert_eq!(host.run(&tree, PatchMode::Strict), Err(PipelineError::Io));
    assert_eq!(host.log.last().unwrap(), "mark");
    assert!(!host.log.contains(&"run 0".to_string()));
}

#[test]
fn diff_is_applied_in_one_action() {
    let mut tree = tree();
    tree.patch = PatchSpec::Diff(b"--- a\n+++ b\n".to_vec());
    let mut host = Host::new(&UPSTREAM);
    assert_eq!(host.run(&tree, PatchMode::Strict), Ok(()));
    assert_eq!(
        host.log,
        log(&["probe tree", "clone", "checkout", "probe marker", "apply diff", "mark", "run 0", "run 1"])
    );

    let mut host = Host::new(&UPSTREAM);
    host.diff_ok = false;
    assert_eq!(host.run(&tree, PatchMode::BestEffort), Err(PipelineError::PatchApplyConflict));
    assert!(!host.marker);
}

#[test]
fn build_step_that_fails_ends_the_build() {
    let tree = tree();
    let mut host = Host::new(&UPSTREAM);
    host.statuses = vec![Some(2)];
    assert_eq!(host.run(&tree, PatchMode::Strict), Err(PipelineError::BuildFailed { command: 0, status: 2 }));
    assert_eq!(host.log.last().unwrap(), "run 0");
    assert!(host.marker);

    let mut host = Host::new(&UPSTREAM);
    host.statuses = vec![Some(0), Some(-9)];
    assert_eq!(host.run(&tree, PatchMode::Strict), Err(PipelineError::BuildFailed { command: 1, status: -9 }));

    let mut host = Host::new(&UPSTREAM);
    host.statuses = vec![None];
    assert_eq!(host.run(&tree, PatchMode::Strict), Err(PipelineError::Io));
    assert_eq!(host.log.last().unwrap(), "run 0");
}

#[test]
fn tree_without_patch_and_build_only_gets_its_marker() {
    let mut tree = tree();
    tree.patch = PatchSpec::Substitutions(Vec::new());
    tree.build = Vec::new();
    let mut host = Host::new(&UPSTREAM);
    assert_eq!(host.run(&tree, PatchMode::Strict), Ok(()));
    assert_eq!(host.log, log(&["probe tree", "clone", "checkout", "probe marker", "mark"]));
}

#[test]
fn hypervisor_tree_runs_through_its_table() {
    let tree = qemu_tree(3);
    let mut upstream: HashMap<String, String> = HashMap::new();
    if let PatchSpec::Substitutions(subs) = &tree.patch {
        for sub in subs {
            let text = upstream.entry(sub.file.clone()).or_default();
            text.push_str("/* head */\n");
            text.push_str(&sub.old_text);
            text.push_str("\n/* tail */\n");
        }
    }
    let mut host = Host::new(&[]);
    host.upstream = upstream;
    assert_eq!(host.run(&tree, PatchMode::Strict), Ok(()));
    assert_eq!(host.log.iter().filter(|l| l.starts_with("write")).count(), 13);
    assert_eq!(host.log.last().unwrap(), "run 1");
    assert!(host.files["target/i386/kvm/kvm.c"].contains("GenuineIntel"));
    assert!(!host.files["target/i386/kvm/kvm.c"].contains("KVMKVMKVM"));
    assert!(host.files["hw/scsi/scsi-disk.c"].contains("\"<WOOT>\""));
    assert!(host.files["hw/scsi/scsi-disk.c"].contains("WDC WD20EARS"));
    assert!(host.files["hw/scsi/scsi-disk.c"].contains("TOSHIBA DVD-ROM"));
}

#[test]
fn step_answers_each_event_of_a_state() {
    let tree = tree();
    let (state, action) = start();
    assert_eq!(state, State::Probing);
    assert!(matches!(action, Action::ProbeTree));
    let (state, action) = step(&tree, PatchMode::Strict, State::Probing, Event::Exists(true));
    assert_eq!(state, State::Prompting);
    assert!(matches!(action, Action::Confirm(p) if p == "Would you like to re-clone the hv GitHub repository? (y/N)"));
    let (state, action) = step(&tree, PatchMode::Strict, State::Prompting, Event::Answered(false));
    assert_eq!(state, State::CheckingMarker);
    assert!(matches!(action, Action::ProbeMarker));
    let (state, action) = step(&tree, PatchMode::Strict, State::Prompting, Event::Answered(true));
    assert_eq!(state, State::Removing);
    assert!(matches!(action, Action::RemoveTree));
    let (state, action) = step(&tree, PatchMode::Strict, State::CheckingMarker, Event::Exists(true));
    assert_eq!(state, State::Finished);
    assert!(matches!(action, Action::Finish(Err(PipelineError::AlreadyPatched))));
    let (state, action) =
        step(&tree, PatchMode::Strict, State::Reading(2), Event::Content("x WOOT HARDDISK y".to_string()));
    assert_eq!(state, State::Writing(2));
    assert!(matches!(action, Action::WriteFile(2, text) if text == "x WDC y"));
    let (state, action) = step(&tree, PatchMode::Strict, State::Writing(2), Event::Done);
    assert_eq!(state, State::Marking);
    assert!(matches!(action, Action::CreateMarker));
    let (state, action) = step(&tree, PatchMode::Strict, State::Writing(0), Event::Done);
    assert_eq!(state, State::Reading(1));
    assert!(matches!(action, Action::ReadFile(1)));
    let (state, action) = step(&tree, PatchMode::Strict, State::Building(1), Event::Exited(0));
    assert_eq!(state, State::Finished);
    assert!(matches!(action, Action::Finish(Ok(()))));
}

#[test]
fn checked_step_refuses_what_does_not_fit() {
    let tree = tree();
    let mode = PatchMode::Strict;
    assert!(checked_step(&tree, mode, State::Probing, Event::Done).is_none());
    assert!(checked_step(&tree, mode, State::Prompting, Event::Exists(true)).is_none());
    assert!(checked_step(&tree, mode, State::Cloning, Event::Content(String::new())).is_none());
    assert!(checked_step(&tree, mode, State::Warning(0), Event::Failed).is_none());
    assert!(checked_step(&tree, mode, State::Reading(0), Event::Done).is_none());
    assert!(checked_step(&tree, mode, State::Building(0), Event::Done).is_none());
    assert!(checked_step(&tree, mode, State::Finished, Event::Done).is_none());
    assert!(checked_step(&tree, mode, State::Reading(3), Event::Failed).is_none());
    assert!(checked_step(&tree, mode, State::Writing(usize::MAX), Event::Done).is_none());
    assert!(checked_step(&tree, mode, State::Building(2), Event::Exited(0)).is_none());
    assert!(checked_step(&tree, mode, State::ApplyingDiff, Event::Done).is_none());
    assert!(checked_step(&tree, mode, State::Reading(2), Event::Failed).is_some());
    assert!(checked_step(&tree, mode, State::Building(1), Event::Exited(1)).is_some());
    assert!(State::Reading(2).fits_tree(&tree));
    assert!(!State::Reading(3).fits_tree(&tree));
    assert!(State::Marking.accepts(&Event::Failed));
    assert!(!State::Marking.accepts(&Event::Exited(0)));
}

#[test]
fn marker_is_seen_only_after_it_was_created() {
    let hypervisor = qemu_tree(1);
    let firmware = vmprep::tree::edk2_tree(1);
    let mut paths: std::collections::HashSet<String> = std::collections::HashSet::new();
    assert!(!paths.contains(&hypervisor.marker_path()));
    paths.insert(hypervisor.marker_path());
    assert!(paths.contains(&hypervisor.marker_path()));
    assert!(paths.contains(&qemu_tree(64).marker_path()));
    assert!(!paths.contains(&firmware.marker_path()));

    let tree = tree();
    let mut host = Host::new(&UPSTREAM);
    let (state, action) = step(&tree, PatchMode::Strict, State::CheckingOut, Event::Done);
    let event = host.perform(&tree, action).unwrap();
    assert!(matches!(event, Event::Exists(false)));
    assert_eq!(state, State::CheckingMarker);
    let event = host.perform(&tree, Action::CreateMarker).unwrap();
    assert!(matches!(event, Event::Done));
    let event = host.perform(&tree, Action::ProbeMarker).unwrap();
    assert!(matches!(event, Event::Exists(true)));
}
