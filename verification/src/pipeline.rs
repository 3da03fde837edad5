//! The pipeline of one source tree: acquire, patch, build.
//!
//! The pipeline is a machine that decides and never acts. The caller performs
//! the pending action (probe a path, ask the operator, clone, read or write a
//! file, run a command) and reports what happened as an event; `step` answers
//! with the next state and the next action. The run ends with the action
//! `Finish`, which carries the result for the tree.

use crate::patch::{apply_substitution, replaced, Applied, PatchMode};
use crate::text::lemma_first_occurrence_exists;
use crate::tree::{PatchSpec, PatchSpecView, SourceTree, SourceTreeView};
use vstd::prelude::*;

verus! {

/// Why the pipeline of a tree ended without success.
#[derive(Clone, Copy, Debug, PartialEq, Eq, Structural)]
pub enum PipelineError {
    /// The remote could not be cloned.
    CloneError,
    /// The tag could not be checked out.
    CheckoutError,
    /// The tree holds its patch marker: there is nothing to do.
    AlreadyPatched,
    /// The file of the substitution `index` could not be read.
    PatchTargetMissing { index: usize },
    /// The old text of the substitution `index` is not in its file.
    PatchTextNotFound { index: usize },
    /// The diff did not apply to the tree.
    PatchApplyConflict,
    /// The build step `command` ended with the status `status`, which is not
    /// zero.
    BuildFailed { command: usize, status: i32 },
    /// The tree could not be removed or written to, or a build step could
    /// not be started.
    Io,
}

/// Where the pipeline stands. Every state but `Finished` waits for the event
/// that reports on the action issued with it.
#[derive(Clone, Copy, Debug, PartialEq, Eq, Structural)]
pub enum State {
    /// Waits to learn whether the tree's directory exists.
    Probing,
    /// Waits for the operator's answer on cloning again.
    Prompting,
    /// Waits for the removal of the tree's directory.
    Removing,
    /// Waits for the clone.
    Cloning,
    /// Waits for the checkout of the tag.
    CheckingOut,
    /// Waits to learn whether the patch marker exists.
    CheckingMarker,
    /// Waits for the text of the file of the substitution with this index.
    Reading(usize),
    /// Waits for the new text of that file to be written.
    Writing(usize),
    /// Waits for the warning that this substitution was skipped.
    Warning(usize),
    /// Waits for the diff to be applied.
    ApplyingDiff,
    /// Waits for the patch marker to be created.
    Marking,
    /// Waits for the build step with this index to end.
    Building(usize),
    /// The pipeline has ended.
    Finished,
}

/// What the caller reports.
#[derive(Clone, Debug)]
pub enum Event {
    /// Whether the path probed exists.
    Exists(bool),
    /// Whether the operator agreed.
    Answered(bool),
    /// The action was carried out.
    Done,
    /// The action could not be carried out.
    Failed,
    /// The text of the file read.
    Content(String),
    /// The exit status of the command run.
    Exited(i32),
}

/// What an `Event` holds, its text as a character sequence.
pub enum EventView {
    Exists(bool),
    Answered(bool),
    Done,
    Failed,
    Content(Seq<char>),
    Exited(i32),
}

impl View for Event {
    type V = EventView;

    open spec fn view(&self) -> EventView {
        match self {
            Event::Exists(b) => EventView::Exists(*b),
            Event::Answered(b) => EventView::Answered(*b),
            Event::Done => EventView::Done,
            Event::Failed => EventView::Failed,
            Event::Content(text) => EventView::Content(text@),
            Event::Exited(status) => EventView::Exited(*status),
        }
    }
}

/// What the caller is asked to do next.
#[derive(Debug)]
pub enum Action {
    /// Report whether the tree's directory exists.
    ProbeTree,
    /// Put this question to the operator and report the answer.
    Confirm(String),
    /// Remove the tree's directory with all that it holds.
    RemoveTree,
    /// Clone the remote into the tree's directory, which is absent. A clone
    /// that fails is to leave no directory behind.
    Clone,
    /// Check out the tree's tag.
    Checkout,
    /// Report whether the tree's patch marker exists.
    ProbeMarker,
    /// Read the file of the substitution with this index and report its text.
    ReadFile(usize),
    /// Write this text to the file of the substitution with this index.
    WriteFile(usize, String),
    /// Warn that the substitution with this index was skipped.
    WarnSkipped(usize),
    /// Apply the tree's diff to the whole tree.
    ApplyDiff,
    /// Create the tree's patch marker, an empty file.
    CreateMarker,
    /// Run the build step with this index, wait for it, and report its exit
    /// status.
    Run(usize),
    /// Nothing more: this is the result for the tree.
    Finish(Result<(), PipelineError>),
}

/// What an `Action` holds, its texts as character sequences.
pub enum ActionView {
    ProbeTree,
    Confirm(Seq<char>),
    RemoveTree,
    Clone,
    Checkout,
    ProbeMarker,
    ReadFile(usize),
    WriteFile(usize, Seq<char>),
    WarnSkipped(usize),
    ApplyDiff,
    CreateMarker,
    Run(usize),
    Finish(Result<(), PipelineError>),
}

impl View for Action {
    type V = ActionView;

    open spec fn view(&self) -> ActionView {
        match self {
            Action::ProbeTree => ActionView::ProbeTree,
            Action::Confirm(prompt) => ActionView::Confirm(prompt@),
            Action::RemoveTree => ActionView::RemoveTree,
            Action::Clone => ActionView::Clone,
            Action::Checkout => ActionView::Checkout,
            Action::ProbeMarker => ActionView::ProbeMarker,
            Action::ReadFile(i) => ActionView::ReadFile(*i),
            Action::WriteFile(i, text) => ActionView::WriteFile(*i, text@),
            Action::WarnSkipped(i) => ActionView::WarnSkipped(*i),
            Action::ApplyDiff => ActionView::ApplyDiff,
            Action::CreateMarker => ActionView::CreateMarker,
            Action::Run(k) => ActionView::Run(*k),
            Action::Finish(result) => ActionView::Finish(*result),
        }
    }
}

impl State {
    /// Whether the state speaks of a substitution or a build step that the
    /// tree has.
    pub open spec fn fits(self, tree: SourceTreeView) -> bool {
        match self {
            State::Reading(i) | State::Writing(i) | State::Warning(i) => i
                < tree.substitutions().len(),
            State::ApplyingDiff => tree.patch is Diff,
            State::Building(k) => k < tree.build.len(),
            _ => true,
        }
    }

    /// Whether `event` reports on the action that the state waits for.
    pub open spec fn expects(self, event: EventView) -> bool {
        match self {
            State::Probing | State::CheckingMarker => event is Exists,
            State::Prompting => event is Answered,
            State::Removing
            | State::Cloning
            | State::CheckingOut
            | State::Writing(_)
            | State::ApplyingDiff
            | State::Marking => event is Done || event is Failed,
            State::Warning(_) => event is Done,
            State::Reading(_) => event is Content || event is Failed,
            State::Building(_) => event is Exited || event is Failed,
            State::Finished => false,
        }
    }

    /// Whether the state belongs to the acquire phase.
    pub open spec fn acquiring(self) -> bool {
        self is Probing || self is Prompting || self is Removing || self is Cloning
            || self is CheckingOut
    }

    /// An upper bound on the number of steps that the pipeline of `tree` can
    /// still take from this state.
    pub open spec fn remaining(self, tree: SourceTreeView) -> int {
        let n = tree.substitutions().len() as int;
        let m = tree.build.len() as int;
        match self {
            State::Probing => 2 * n + m + 8,
            State::Prompting => 2 * n + m + 7,
            State::Removing => 2 * n + m + 6,
            State::Cloning => 2 * n + m + 5,
            State::CheckingOut => 2 * n + m + 4,
            State::CheckingMarker => 2 * n + m + 3,
            State::Reading(i) => 2 * (n - i) + m + 1,
            State::Writing(i) | State::Warning(i) => 2 * (n - i) + m,
            State::ApplyingDiff => m + 2,
            State::Marking => m + 1,
            State::Building(k) => m - k,
            State::Finished => 0,
        }
    }

    /// Whether the state speaks of a substitution or a build step that
    /// `tree` has.
    pub fn fits_tree(self, tree: &SourceTree) -> (b: bool)
        ensures
            b == self.fits(tree@),
    {
        match self {
            State::Reading(i) | State::Writing(i) | State::Warning(i) => match &tree.patch {
                PatchSpec::Substitutions(subs) => i < subs.len(),
                PatchSpec::Diff(_) => false,
            },
            State::ApplyingDiff => match &tree.patch {
                PatchSpec::Substitutions(_) => false,
                PatchSpec::Diff(_) => true,
            },
            State::Building(k) => {
                assert(tree@.build.len() == tree.build@.len());
                k < tree.build.len()
            },
            _ => true,
        }
    }

    /// Whether `event` reports on the action that the state waits for.
    pub fn accepts(self, event: &Event) -> (b: bool)
        ensures
            b == self.expects(event@),
    {
        match self {
            State::Probing | State::CheckingMarker => match event {
                Event::Exists(_) => true,
                _ => false,
            },
            State::Prompting => match event {
                Event::Answered(_) => true,
                _ => false,
            },
            State::Removing
            | State::Cloning
            | State::CheckingOut
            | State::Writing(_)
            | State::ApplyingDiff
            | State::Marking => match event {
                Event::Done | Event::Failed => true,
                _ => false,
            },
            State::Warning(_) => match event {
                Event::Done => true,
                _ => false,
            },
            State::Reading(_) => match event {
                Event::Content(_) | Event::Failed => true,
                _ => false,
            },
            State::Building(_) => match event {
                Event::Exited(_) | Event::Failed => true,
                _ => false,
            },
            State::Finished => false,
        }
    }
}

/// The end of the pipeline with the error `error`.
pub open spec fn failed(error: PipelineError) -> (State, ActionView) {
    (State::Finished, ActionView::Finish(Err(error)))
}

/// What follows once the substitutions before `i` are done with: the file of
/// the substitution `i` is read, or, where there is none left, the marker is
/// created.
pub open spec fn patch_from(tree: SourceTreeView, i: int) -> (State, ActionView) {
    if i < tree.substitutions().len() {
        (State::Reading(i as usize), ActionView::ReadFile(i as usize))
    } else {
        (State::Marking, ActionView::CreateMarker)
    }
}

/// What follows once the build steps before `k` have succeeded: the step `k`
/// is run, or, where there is none left, the pipeline ends with success.
pub open spec fn build_from(tree: SourceTreeView, k: int) -> (State, ActionView) {
    if k < tree.build.len() {
        (State::Building(k as usize), ActionView::Run(k as usize))
    } else {
        (State::Finished, ActionView::Finish(Ok(())))
    }
}

/// The state and the action with which the pipeline of a tree begins.
pub open spec fn first() -> (State, ActionView) {
    (State::Probing, ActionView::ProbeTree)
}

/// The state and the action that follow `state` on `event`.
///
/// Acquire: a tree whose directory is absent is cloned and its tag checked
/// out. Where the directory exists the operator is asked: on a yes it is
/// removed and the tree cloned again, on any other answer the tree is used
/// as it is.
///
/// Patch: a tree that holds its marker ends with `AlreadyPatched`. Else the
/// substitutions are applied in order, each to the text of its file as it is
/// then, and the marker is created after the last. A file that cannot be read
/// ends the pipeline. An old text that is not found ends it in the strict
/// mode, and is skipped with a warning in the other.
///
/// Build: the steps run in order, and the first that does not exit with zero
/// ends the pipeline.
pub open spec fn next(tree: SourceTreeView, mode: PatchMode, state: State, event: EventView) -> (
    State,
    ActionView,
) {
    match (state, event) {
        (State::Probing, EventView::Exists(true)) => (
            State::Prompting,
            ActionView::Confirm(tree.prompt()),
        ),
        (State::Probing, _) => (State::Cloning, ActionView::Clone),
        (State::Prompting, EventView::Answered(true)) => (State::Removing, ActionView::RemoveTree),
        (State::Prompting, _) => (State::CheckingMarker, ActionView::ProbeMarker),
        (State::Removing, EventView::Done) => (State::Cloning, ActionView::Clone),
        (State::Removing, _) => failed(PipelineError::Io),
        (State::Cloning, EventView::Done) => (State::CheckingOut, ActionView::Checkout),
        (State::Cloning, _) => failed(PipelineError::CloneError),
        (State::CheckingOut, EventView::Done) => (State::CheckingMarker, ActionView::ProbeMarker),
        (State::CheckingOut, _) => failed(PipelineError::CheckoutError),
        (State::CheckingMarker, EventView::Exists(true)) => failed(PipelineError::AlreadyPatched),
        (State::CheckingMarker, _) => match tree.patch {
            PatchSpecView::Diff(_) => (State::ApplyingDiff, ActionView::ApplyDiff),
            PatchSpecView::Substitutions(_) => patch_from(tree, 0),
        },
        (State::Reading(i), EventView::Content(text)) => {
            let sub = tree.substitutions()[i as int];
            match replaced(text, sub.old_text, sub.new_text) {
                Some(patched) => (State::Writing(i), ActionView::WriteFile(i, patched)),
                None => match mode {
                    PatchMode::Strict => failed(PipelineError::PatchTextNotFound { index: i }),
                    PatchMode::BestEffort => (State::Warning(i), ActionView::WarnSkipped(i)),
                },
            }
        },
        (State::Reading(i), _) => failed(PipelineError::PatchTargetMissing { index: i }),
        (State::Writing(i), EventView::Done) => patch_from(tree, i + 1),
        (State::Writing(_), _) => failed(PipelineError::Io),
        (State::Warning(i), _) => patch_from(tree, i + 1),
        (State::ApplyingDiff, EventView::Done) => (State::Marking, ActionView::CreateMarker),
        (State::ApplyingDiff, _) => failed(PipelineError::PatchApplyConflict),
        (State::Marking, EventView::Done) => build_from(tree, 0),
        (State::Marking, _) => failed(PipelineError::Io),
        (State::Building(k), EventView::Exited(status)) => if status == 0 {
            build_from(tree, k + 1)
        } else {
            failed(PipelineError::BuildFailed { command: k, status })
        },
        (State::Building(_), _) => failed(PipelineError::Io),
        (State::Finished, _) => (State::Finished, ActionView::Finish(Ok(()))),
    }
}

/// Every step brings the pipeline nearer to its end, and leads to a state
/// that fits the tree: a run takes `State::Probing.remaining(tree)` steps at
/// most.
pub proof fn lemma_step_makes_progress(
    tree: SourceTreeView,
    mode: PatchMode,
    state: State,
    event: EventView,
)
    requires
        tree.countable(),
        state.fits(tree),
        state.expects(event),
    ensures
        next(tree, mode, state, event).0.fits(tree),
        0 <= next(tree, mode, state, event).0.remaining(tree) < state.remaining(tree),
{
}

/// The state and the action with which the pipeline of a tree begins.
pub fn start() -> (out: (State, Action))
    ensures
        (out.0, out.1@) == first(),
{
    (State::Probing, Action::ProbeTree)
}

/// The end of the pipeline with the error `error`.
fn fail(error: PipelineError) -> (out: (State, Action))
    ensures
        (out.0, out.1@) == failed(error),
{
    (State::Finished, Action::Finish(Err(error)))
}

/// What follows once the substitutions before `i` are done with.
fn patch_at(tree: &SourceTree, i: usize) -> (out: (State, Action))
    ensures
        (out.0, out.1@) == patch_from(tree@, i as int),
{
    if i < tree.substitution_count() {
        (State::Reading(i), Action::ReadFile(i))
    } else {
        (State::Marking, Action::CreateMarker)
    }
}

/// What follows once the substitution `i` is done with.
fn patch_after(tree: &SourceTree, i: usize) -> (out: (State, Action))
    requires
        i < tree@.substitutions().len(),
    ensures
        (out.0, out.1@) == patch_from(tree@, i + 1),
{
    let n: usize = tree.substitution_count();
    patch_at(tree, i + 1)
}

/// What follows once the build steps before `k` have succeeded.
fn build_at(tree: &SourceTree, k: usize) -> (out: (State, Action))
    ensures
        (out.0, out.1@) == build_from(tree@, k as int),
{
    assert(tree@.build.len() == tree.build@.len());
    if k < tree.build.len() {
        (State::Building(k), Action::Run(k))
    } else {
        (State::Finished, Action::Finish(Ok(())))
    }
}

/// What follows the text `text` of the file of the substitution `i`.
fn patch_file(tree: &SourceTree, mode: PatchMode, i: usize, text: &str) -> (out: (State, Action))
    requires
        i < tree@.substitutions().len(),
    ensures
        (out.0, out.1@) == next(tree@, mode, State::Reading(i), EventView::Content(text@)),
{
    match &tree.patch {
        PatchSpec::Substitutions(subs) => {
            assert(tree@.substitutions()[i as int] == subs@[i as int]@);
            proof {
                lemma_first_occurrence_exists(text@, subs@[i as int]@.old_text);
            }
            match apply_substitution(text, &subs[i], mode) {
                Applied::Replaced(patched) => (State::Writing(i), Action::WriteFile(i, patched)),
                Applied::Skipped => (State::Warning(i), Action::WarnSkipped(i)),
                Applied::NotFound => fail(PipelineError::PatchTextNotFound { index: i }),
            }
        },
        PatchSpec::Diff(_) => fail(PipelineError::Io),
    }
}

/// Takes one step of the pipeline of `tree`: from `state`, on the event that
/// reports on the pending action, to the next state and the next action.
pub fn step(tree: &SourceTree, mode: PatchMode, state: State, event: Event) -> (out: (
    State,
    Action,
))
    requires
        state.fits(tree@),
        state.expects(event@),
    ensures
        (out.0, out.1@) == next(tree@, mode, state, event@),
        out.0.fits(tree@),
        out.0.remaining(tree@) < state.remaining(tree@),
{
    proof {
        tree.lemma_countable();
        lemma_step_makes_progress(tree@, mode, state, event@);
    }
    match state {
        State::Probing => match event {
            Event::Exists(true) => (State::Prompting, Action::Confirm(tree.prompt())),
            _ => (State::Cloning, Action::Clone),
        },
        State::Prompting => match event {
            Event::Answered(true) => (State::Removing, Action::RemoveTree),
            _ => (State::CheckingMarker, Action::ProbeMarker),
        },
        State::Removing => match event {
            Event::Done => (State::Cloning, Action::Clone),
            _ => fail(PipelineError::Io),
        },
        State::Cloning => match event {
            Event::Done => (State::CheckingOut, Action::Checkout),
            _ => fail(PipelineError::CloneError),
        },
        State::CheckingOut => match event {
            Event::Done => (State::CheckingMarker, Action::ProbeMarker),
            _ => fail(PipelineError::CheckoutError),
        },
        State::CheckingMarker => match event {
            Event::Exists(true) => fail(PipelineError::AlreadyPatched),
            _ => match &tree.patch {
                PatchSpec::Diff(_) => (State::ApplyingDiff, Action::ApplyDiff),
                PatchSpec::Substitutions(_) => patch_at(tree, 0),
            },
        },
        State::Reading(i) => match event {
            Event::Content(text) => patch_file(tree, mode, i, text.as_str()),
            _ => fail(PipelineError::PatchTargetMissing { index: i }),
        },
        State::Writing(i) => match event {
            Event::Done => patch_after(tree, i),
            _ => fail(PipelineError::Io),
        },
        State::Warning(i) => patch_after(tree, i),
        State::ApplyingDiff => match event {
            Event::Done => (State::Marking, Action::CreateMarker),
            _ => fail(PipelineError::PatchApplyConflict),
        },
        State::Marking => match event {
            Event::Done => build_at(tree, 0),
            _ => fail(PipelineError::Io),
        },
        State::Building(k) => match event {
            Event::Exited(status) => if status == 0 {
                assert(k < tree.build.len());
                build_at(tree, k + 1)
            } else {
                fail(PipelineError::BuildFailed { command: k, status })
            },
            _ => fail(PipelineError::Io),
        },
        State::Finished => (State::Finished, Action::Finish(Ok(()))),
    }
}

/// Takes one step of the pipeline of `tree` where `state` fits the tree and
/// `event` reports on the action that `state` waits for; `None` otherwise.
pub fn checked_step(tree: &SourceTree, mode: PatchMode, state: State, event: Event) -> (out:
    Option<(State, Action)>)
    ensures
        out is Some <==> state.fits(tree@) && state.expects(event@),
        out matches Some(o) ==> {
            &&& (o.0, o.1@) == next(tree@, mode, state, event@)
            &&& o.0.fits(tree@)
            &&& o.0.remaining(tree@) < state.remaining(tree@)
        },
{
    if state.fits_tree(tree) && state.accepts(&event) {
        Some(step(tree, mode, state, event))
    } else {
        None
    }
}

/// Whether the events of `events` can be reported one after the other from
/// `state` on: each answers the action that is pending when it comes.
pub open spec fn answers(
    tree: SourceTreeView,
    mode: PatchMode,
    state: State,
    events: Seq<EventView>,
) -> bool
    decreases events.len(),
{
    events.len() == 0 || {
        &&& state.fits(tree)
        &&& state.expects(events[0])
        &&& answers(tree, mode, next(tree, mode, state, events[0]).0, events.skip(1))
    }
}

/// The actions that the pipeline issues from `state` on as the events of
/// `events` come in, one action for each event.
pub open spec fn issued(
    tree: SourceTreeView,
    mode: PatchMode,
    state: State,
    events: Seq<EventView>,
) -> Seq<ActionView>
    decreases events.len(),
{
    if events.len() == 0 {
        Seq::empty()
    } else {
        seq![next(tree, mode, state, events[0]).1] + issued(
            tree,
            mode,
            next(tree, mode, state, events[0]).0,
            events.skip(1),
        )
    }
}

/// Whether `action` removes, clones or checks out the tree.
pub open spec fn acquires(action: ActionView) -> bool {
    action is RemoveTree || action is Clone || action is Checkout
}

/// A run from `state` takes `state.remaining(tree)` events at most: the
/// pipeline of a tree ends.
pub proof fn lemma_run_ends(
    tree: SourceTreeView,
    mode: PatchMode,
    state: State,
    events: Seq<EventView>,
)
    requires
        tree.countable(),
        state.fits(tree),
        answers(tree, mode, state, events),
    ensures
        events.len() <= state.remaining(tree),
        issued(tree, mode, state, events).len() == events.len(),
    decreases events.len(),
{
    if events.len() == 0 {
    } else {
        lemma_step_makes_progress(tree, mode, state, events[0]);
        lemma_run_ends(tree, mode, next(tree, mode, state, events[0]).0, events.skip(1));
    }
}

/// Once the acquire phase is over, no run removes, clones or checks out the
/// tree, and no run comes back to the phase.
pub proof fn lemma_acquire_is_left_for_good(
    tree: SourceTreeView,
    mode: PatchMode,
    state: State,
    events: Seq<EventView>,
)
    requires
        answers(tree, mode, state, events),
        !state.acquiring(),
    ensures
        forall|k: int|
            0 <= k < issued(tree, mode, state, events).len() ==> !acquires(
                #[trigger] issued(tree, mode, state, events)[k],
            ),
    decreases events.len(),
{
    if events.len() > 0 {
        let after = next(tree, mode, state, events[0]);
        lemma_acquire_is_left_for_good(tree, mode, after.0, events.skip(1));
        let rest = issued(tree, mode, after.0, events.skip(1));
        assert forall|k: int| 0 <= k < issued(tree, mode, state, events).len() implies !acquires(
            #[trigger] issued(tree, mode, state, events)[k],
        ) by {
            if k > 0 {
                assert(issued(tree, mode, state, events)[k] == rest[k - 1]);
            }
        }
    }
}

/// A tree whose directory exists and that the operator chose to keep is
/// neither removed nor cloned nor checked out, whatever follows: the pipeline
/// goes on to the patch phase with the tree as it is.
pub proof fn lemma_declined_tree_is_kept(
    tree: SourceTreeView,
    mode: PatchMode,
    events: Seq<EventView>,
)
    requires
        answers(tree, mode, State::Probing, events),
        events.len() >= 2,
        events[0] == EventView::Exists(true),
        events[1] == EventView::Answered(false),
    ensures
        forall|k: int|
            0 <= k < issued(tree, mode, State::Probing, events).len() ==> !acquires(
                #[trigger] issued(tree, mode, State::Probing, events)[k],
            ),
        issued(tree, mode, State::Probing, events)[1] == ActionView::ProbeMarker,
{
    let all = issued(tree, mode, State::Probing, events);
    let tail = events.skip(1);
    let rest = tail.skip(1);
    assert(tail[0] == events[1]);
    let first = issued(tree, mode, State::Prompting, tail);
    let later = issued(tree, mode, State::CheckingMarker, rest);
    assert(answers(tree, mode, State::Prompting, tail));
    assert(answers(tree, mode, State::CheckingMarker, rest));
    lemma_acquire_is_left_for_good(tree, mode, State::CheckingMarker, rest);
    assert forall|k: int| 0 <= k < all.len() implies !acquires(#[trigger] all[k]) by {
        if k == 1 {
            assert(all[1] == first[0]);
        } else if k > 1 {
            assert(all[k] == first[k - 1]);
            assert(first[k - 1] == later[k - 2]);
        }
    }
    assert(all[1] == first[0]);
}

/// A tree whose directory exists and that the operator chose to clone again
/// is removed first. It is cloned only once the removal has succeeded; a
/// removal that failed ends the pipeline.
pub proof fn lemma_accepted_tree_is_removed_first(
    tree: SourceTreeView,
    mode: PatchMode,
    events: Seq<EventView>,
)
    requires
        answers(tree, mode, State::Probing, events),
        events.len() >= 3,
        events[0] == EventView::Exists(true),
        events[1] == EventView::Answered(true),
    ensures
        issued(tree, mode, State::Probing, events)[0] == ActionView::Confirm(tree.prompt()),
        issued(tree, mode, State::Probing, events)[1] == ActionView::RemoveTree,
        issued(tree, mode, State::Probing, events)[2] == if events[2] is Done {
            ActionView::Clone
        } else {
            ActionView::Finish(Err(PipelineError::Io))
        },
{
    let all = issued(tree, mode, State::Probing, events);
    let tail = events.skip(1);
    let rest = tail.skip(1);
    assert(tail[0] == events[1]);
    assert(rest[0] == events[2]);
    let first = issued(tree, mode, State::Prompting, tail);
    let later = issued(tree, mode, State::Removing, rest);
    assert(all[1] == first[0]);
    assert(all[2] == first[1]);
    assert(first[1] == later[0]);
}

/// A tree that holds its marker is not patched again: the pipeline ends at
/// once with `AlreadyPatched`, and no file is read or written.
pub proof fn lemma_patched_tree_is_left_alone(
    tree: SourceTreeView,
    mode: PatchMode,
    events: Seq<EventView>,
)
    requires
        answers(tree, mode, State::CheckingMarker, events),
        events.len() >= 1,
        events[0] == EventView::Exists(true),
    ensures
        events.len() == 1,
        issued(tree, mode, State::CheckingMarker, events) == seq![
            ActionView::Finish(Err(PipelineError::AlreadyPatched)),
        ],
{
    let rest = events.skip(1);
    assert(answers(tree, mode, State::Finished, rest));
    if rest.len() > 0 {
        assert(!State::Finished.expects(rest[0]));
    }
    assert(issued(tree, mode, State::Finished, rest) == Seq::<ActionView>::empty());
}

/// The marker is created only when no substitution is left to apply: after
/// the last one was written or skipped, for a patch without substitutions, or
/// after the diff was applied.
pub proof fn lemma_marker_comes_last(
    tree: SourceTreeView,
    mode: PatchMode,
    state: State,
    event: EventView,
)
    requires
        state.fits(tree),
        state.expects(event),
        next(tree, mode, state, event).1 is CreateMarker,
    ensures
        match state {
            State::Writing(i) | State::Warning(i) => i + 1 == tree.substitutions().len()
                && event is Done,
            State::CheckingMarker => tree.substitutions().len() == 0 && event
                == EventView::Exists(false),
            State::ApplyingDiff => event is Done,
            _ => false,
        },
{
}

/// A file is written only with the text that its substitution makes of the
/// text that was read from it.
pub proof fn lemma_writes_are_substitutions(
    tree: SourceTreeView,
    mode: PatchMode,
    state: State,
    event: EventView,
)
    requires
        state.fits(tree),
        state.expects(event),
    ensures
        next(tree, mode, state, event).1 matches ActionView::WriteFile(i, patched) ==> {
            &&& state == State::Reading(i)
            &&& event matches EventView::Content(text)
            &&& replaced(
                text,
                tree.substitutions()[i as int].old_text,
                tree.substitutions()[i as int].new_text,
            ) == Some(patched)
        },
{
}

} // verus!
