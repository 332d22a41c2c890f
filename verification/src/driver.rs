//! The driver of a run, as a state machine.
//!
//! A run alternates between work on the outside world (listing a directory,
//! reading a file, running a command) and decisions.  The decisions live
//! here.  The caller performs one [`Step`] at a time and reports what came
//! of it as an [`Event`]; [`Driver::step`] answers with the next step, or
//! with the error that ends the run.
//!
//! A run passes the entry checks, loads and renders the blueprint, and then
//! works through a fixed plan: write the staged files, execute the queued
//! commands in order (a dry run only shows them), and, once all of that has
//! succeeded, remove the blueprint and the executable if the run consumes
//! itself.
//!
//! The state of a run is private and always valid, so an event can be
//! handed in at any time: one that does not fit ends the run.

use crate::blueprint::Blueprint;
use crate::gate::{
    check_dry_run_target, check_os_family, check_privilege, self_consume, should_consume,
    GateError, GateErrorView,
};
use crate::osrelease::{is_supported, os_id};
use crate::render::{all_encodable, all_for_root, renders, Render, RenderError};
use crate::rendered::Rendered;
use crate::source_root::SourceRoot;
use vstd::prelude::*;

verus! {

/// A progress line for the caller to print.
#[derive(Debug, Clone, Copy, PartialEq, Eq)]
pub enum Notice {
    /// The run is a dry run: commands are shown, not executed.
    DryRunEnabled,
    /// Rendering queued no command.
    NoCommands,
    /// Every command was executed.
    Complete,
}

/// What the caller must do next.
#[derive(Debug, Clone, Copy, PartialEq, Eq)]
pub enum Step {
    /// See whether the dry-run target directory has entries; answer with
    /// [`Event::TargetListed`].
    ListTarget,
    /// Read the platform identity file; answer with [`Event::OsRelease`].
    ReadOsRelease,
    /// Read and parse the blueprint; answer with [`Event::Blueprint`].
    LoadBlueprint,
    /// See whether `root` is a symbolic link in the source root, and where
    /// it leads; answer with [`Event::RootHome`].
    ResolveRootHome,
    /// Replay the staged tree of [`Driver::rendered`] onto the target
    /// directory; answer with [`Event::Done`].
    WriteFiles,
    /// Remove the blueprint file, now that everything else has succeeded;
    /// answer with [`Event::Done`].
    RemoveBlueprint,
    /// Print a progress line; answer with [`Event::Done`].
    Say(Notice),
    /// Print the queued command at this position without executing it;
    /// answer with [`Event::Done`].
    Show(usize),
    /// Print and execute the queued command at this position; answer with
    /// [`Event::Exited`].
    Run(usize),
    /// Show the tree below the dry-run target with the `tree` program;
    /// answer with [`Event::Exited`].
    ShowTree,
    /// Remove the running executable; answer with [`Event::Done`].
    RemoveSelf,
    /// The run is complete.
    Finish,
}

/// What came of the step that the caller performed.
#[derive(Debug)]
pub enum Event {
    /// The target directory was listed.
    TargetListed { empty: bool },
    /// The platform identity file was read.
    OsRelease { contents: String },
    /// The blueprint was read and parsed.
    Blueprint { blueprint: Blueprint },
    /// The source root was inspected.
    RootHome { root: SourceRoot },
    /// The step was carried out.
    Done,
    /// The program that the step ran has exited.
    Exited { success: bool },
    /// The step could not be carried out.
    Failed,
}

/// Why a run ended in failure.
#[derive(Debug, Clone, PartialEq, Eq)]
pub enum RunError {
    /// An entry check refused the run.
    Gate(GateError),
    /// The blueprint could not be rendered.
    Render(RenderError),
    /// An SSH key is longer than the encoder accepts.
    KeyTooLong,
    /// A queued command exited with failure.
    CommandFailed { program: String },
    /// The `tree` program exited with failure.
    TreeFailed,
    /// The caller could not carry out the step that was due.
    StepFailed,
    /// The event does not answer the step that was due.
    OutOfTurn,
}

/// The mathematical content of a [`RunError`].
pub enum RunErrorView {
    Gate(GateErrorView),
    Render(RenderError),
    KeyTooLong,
    CommandFailed { program: Seq<char> },
    TreeFailed,
    StepFailed,
    OutOfTurn,
}

impl View for RunError {
    type V = RunErrorView;

    open spec fn view(&self) -> RunErrorView {
        match self {
            RunError::Gate(e) => RunErrorView::Gate(e@),
            RunError::Render(e) => RunErrorView::Render(*e),
            RunError::KeyTooLong => RunErrorView::KeyTooLong,
            RunError::CommandFailed { program } => RunErrorView::CommandFailed {
                program: program@,
            },
            RunError::TreeFailed => RunErrorView::TreeFailed,
            RunError::StepFailed => RunErrorView::StepFailed,
            RunError::OutOfTurn => RunErrorView::OutOfTurn,
        }
    }
}

/// Where a run stands.
#[derive(Debug, Clone, Copy, PartialEq, Eq)]
pub enum Phase {
    /// The entry checks are under way.
    Gate,
    /// The blueprint is being loaded.
    Load,
    /// The blueprint is loaded and the source root is being inspected.
    Resolve,
    /// The blueprint is rendered and the plan is being worked through.
    Run,
    /// The run is complete.
    Finished,
    /// The run has failed.
    Failed,
}

/// The steps from rendering up to the first command: write the files, and
/// say what is to be said.
pub open spec fn opening(dry_run: bool, commands: nat) -> Seq<Step> {
    seq![Step::WriteFiles] + (if dry_run {
        seq![Step::Say(Notice::DryRunEnabled)]
    } else {
        Seq::<Step>::empty()
    }) + (if commands == 0 {
        seq![Step::Say(Notice::NoCommands)]
    } else {
        Seq::<Step>::empty()
    })
}

/// One step per queued command, in queue order: a dry run shows the
/// command, any other run executes it.
pub open spec fn command_steps(dry_run: bool, commands: nat) -> Seq<Step> {
    Seq::new(
        commands,
        |i: int|
            if dry_run {
                Step::Show(i as usize)
            } else {
                Step::Run(i as usize)
            },
    )
}

/// The steps after the last command.  A dry run shows the tree it wrote;
/// any other run says that it is complete.  A run that consumes itself
/// cleans up in between, when everything before has succeeded: it removes
/// the blueprint, and, unless it is a dry run, its executable.
pub open spec fn closing(dry_run: bool, consume: bool) -> Seq<Step> {
    (if dry_run {
        seq![Step::ShowTree]
    } else {
        Seq::<Step>::empty()
    }) + (if consume {
        seq![Step::RemoveBlueprint]
    } else {
        Seq::<Step>::empty()
    }) + (if dry_run {
        Seq::<Step>::empty()
    } else if consume {
        seq![Step::RemoveSelf, Step::Say(Notice::Complete)]
    } else {
        seq![Step::Say(Notice::Complete)]
    }) + seq![Step::Finish]
}

/// The plan of a run whose rendering queued `commands` commands.
pub open spec fn plan(dry_run: bool, consume: bool, commands: nat) -> Seq<Step> {
    opening(dry_run, commands) + command_steps(dry_run, commands) + closing(dry_run, consume)
}

/// Whether the caller answers `step` with [`Event::Exited`] rather than with
/// [`Event::Done`].
pub open spec fn awaits_exit(step: Step) -> bool {
    step is Run || step is ShowTree
}

/// The state of a run.
#[derive(Debug)]
pub struct Driver {
    dry_run: bool,
    consume: bool,
    phase: Phase,
    pending: Option<Blueprint>,
    rendered: Rendered,
    steps: Vec<Step>,
    cursor: usize,
}

/// The mathematical content of a [`Driver`].
pub struct DriverView {
    /// Whether the run is a dry run.
    pub dry_run: bool,
    /// Whether the run removes its input and its executable on success.
    pub consume: bool,
    /// Where the run stands.
    pub phase: Phase,
    /// The blueprint, between its loading and its rendering.
    pub pending: Option<Blueprint>,
    /// What rendering produced; holds nothing before.
    pub rendered: Rendered,
    /// The plan, once the blueprint is rendered.
    pub steps: Seq<Step>,
    /// The position in the plan of the step that is due.
    pub cursor: int,
}

impl View for Driver {
    type V = DriverView;

    closed spec fn view(&self) -> DriverView {
        DriverView {
            dry_run: self.dry_run,
            consume: self.consume,
            phase: self.phase,
            pending: self.pending,
            rendered: self.rendered,
            steps: self.steps@,
            cursor: self.cursor as int,
        }
    }
}

/// The phase in which `step` is due.
pub open spec fn phase_of(step: Step) -> Phase {
    match step {
        Step::ListTarget | Step::ReadOsRelease => Phase::Gate,
        Step::LoadBlueprint => Phase::Load,
        Step::ResolveRootHome => Phase::Resolve,
        Step::Finish => Phase::Finished,
        _ => Phase::Run,
    }
}

impl DriverView {
    /// The invariant of a run.  Every [`Driver`] satisfies it at all times.
    pub open spec fn wf(&self) -> bool {
        &&& self.rendered.wf()
        &&& (self.phase is Gate || self.phase is Load || self.phase is Resolve)
            ==> self.rendered.is_vacant()
        &&& self.phase is Resolve ==> {
            &&& self.pending matches Some(blueprint)
            &&& all_encodable(blueprint.keys())
            &&& all_for_root(blueprint.keys())
            &&& blueprint.keys().len() > 0
        }
        &&& self.phase is Run ==> {
            &&& self.steps == plan(self.dry_run, self.consume, self.rendered.commands@.len())
            &&& 0 <= self.cursor
            &&& self.cursor + 1 < self.steps.len()
        }
    }

    /// The step that is due, while the run is under way.
    pub open spec fn due(&self) -> Option<Step> {
        match self.phase {
            Phase::Gate => Some(
                if self.dry_run {
                    Step::ListTarget
                } else {
                    Step::ReadOsRelease
                },
            ),
            Phase::Load => Some(Step::LoadBlueprint),
            Phase::Resolve => Some(Step::ResolveRootHome),
            Phase::Run => Some(self.steps[self.cursor]),
            Phase::Finished | Phase::Failed => None,
        }
    }

    /// Whether `event` answers the step that is due.  That the step could
    /// not be carried out answers any step.
    pub open spec fn expects(&self, event: Event) -> bool {
        match self.due() {
            Some(Step::Finish) => false,
            Some(step) => event is Failed || match step {
                Step::ListTarget => event is TargetListed,
                Step::ReadOsRelease => event is OsRelease,
                Step::LoadBlueprint => event is Blueprint,
                Step::ResolveRootHome => event is RootHome,
                _ => if awaits_exit(step) {
                    event is Exited
                } else {
                    event is Done
                },
            },
            None => false,
        }
    }

    /// The error with which `event` ends the run, if it ends it.
    pub open spec fn refusal(&self, event: Event) -> Option<RunErrorView> {
        if !self.expects(event) {
            Some(RunErrorView::OutOfTurn)
        } else {
            match event {
                Event::TargetListed { empty } => if empty {
                    None
                } else {
                    Some(RunErrorView::Gate(GateErrorView::NonEmptyTarget))
                },
                Event::OsRelease { contents } => if is_supported(contents@) {
                    None
                } else {
                    Some(RunErrorView::Gate(GateErrorView::UnsupportedOs(os_id(contents@))))
                },
                Event::Blueprint { blueprint } => if !all_encodable(blueprint.keys()) {
                    Some(RunErrorView::KeyTooLong)
                } else if !all_for_root(blueprint.keys()) {
                    Some(RunErrorView::Render(RenderError::NonRootSshUser))
                } else {
                    None
                },
                Event::RootHome { .. } => None,
                Event::Done => None,
                Event::Failed => Some(RunErrorView::StepFailed),
                Event::Exited { success } => if success {
                    None
                } else {
                    match self.steps[self.cursor] {
                        Step::Run(i) => Some(
                            RunErrorView::CommandFailed {
                                program: self.rendered.queue()[i as int][0],
                            },
                        ),
                        _ => Some(RunErrorView::TreeFailed),
                    }
                },
            }
        }
    }

    /// The step that follows when `event` does not end the run.
    pub open spec fn next_step(&self, event: Event) -> Step {
        match event {
            Event::TargetListed { .. } | Event::OsRelease { .. } => Step::LoadBlueprint,
            Event::Blueprint { blueprint } => if blueprint.keys().len() > 0 {
                Step::ResolveRootHome
            } else {
                Step::WriteFiles
            },
            Event::RootHome { .. } => Step::WriteFiles,
            Event::Done | Event::Exited { .. } | Event::Failed => self.steps[self.cursor + 1],
        }
    }

    /// Whether the run `after` and the answer `r` are what the event
    /// `event` leads to from the run `self`.
    ///
    /// An event that ends the run leaves what was rendered as it is.  A
    /// blueprint with keys is held until the source root is inspected; one
    /// without keys is rendered at once, as if `root` were no link.
    /// Rendering sets the run at the first step of its plan, and within the
    /// plan an event moves the run on by exactly one step.
    pub open spec fn leads_to(&self, event: Event, after: DriverView, r: Result<Step, RunError>) -> bool {
        &&& after.dry_run == self.dry_run
        &&& after.consume == self.consume
        &&& match self.refusal(event) {
            Some(error) => {
                &&& r matches Err(e) && e@ == error
                &&& after.phase is Failed
                &&& after.rendered == self.rendered
            },
            None => {
                &&& r == Ok::<Step, RunError>(self.next_step(event))
                &&& after.phase == phase_of(self.next_step(event))
                &&& after.phase is Run ==> after.steps[after.cursor] == self.next_step(event)
                &&& match event {
                    Event::Blueprint { blueprint } => if blueprint.keys().len() > 0 {
                        after.pending == Some(blueprint) && after.rendered == self.rendered
                    } else {
                        &&& renders(blueprint, SourceRoot { root_link: None }@, after.rendered)
                        &&& after.steps == plan(
                            after.dry_run,
                            after.consume,
                            after.rendered.commands@.len(),
                        )
                        &&& after.cursor == 0
                    },
                    Event::RootHome { root } => {
                        &&& renders(self.pending.unwrap(), root@, after.rendered)
                        &&& after.steps == plan(
                            after.dry_run,
                            after.consume,
                            after.rendered.commands@.len(),
                        )
                        &&& after.cursor == 0
                    },
                    Event::Done | Event::Exited { .. } => {
                        &&& after.rendered == self.rendered
                        &&& after.steps == self.steps
                        &&& after.cursor == self.cursor + 1
                    },
                    _ => after.rendered == self.rendered,
                }
            },
        }
    }
}

/// The shape of a plan: it starts by writing the files, ends with
/// [`Step::Finish`], and shows and executes only commands that are queued.
pub proof fn lemma_plan_shape(dry_run: bool, consume: bool, commands: nat)
    requires
        commands <= usize::MAX,
    ensures
        plan(dry_run, consume, commands).len() >= 3,
        plan(dry_run, consume, commands).first() == Step::WriteFiles,
        plan(dry_run, consume, commands).last() == Step::Finish,
        forall|k: int|
            0 <= k < plan(dry_run, consume, commands).len() ==> (#[trigger] plan(
                dry_run,
                consume,
                commands,
            )[k] matches Step::Run(i) ==> i < commands),
        forall|k: int|
            0 <= k < plan(dry_run, consume, commands).len() ==> (#[trigger] plan(
                dry_run,
                consume,
                commands,
            )[k] matches Step::Show(i) ==> i < commands),
{
    let head = opening(dry_run, commands);
    let body = command_steps(dry_run, commands);
    let tail = closing(dry_run, consume);
    let all = plan(dry_run, consume, commands);
    assert(all == head + body + tail);
    assert(head.len() >= 1 && head[0] == Step::WriteFiles);
    assert(tail.len() >= 2 && tail.last() == Step::Finish);
    assert(all.last() == tail.last());
    assert forall|k: int| 0 <= k < all.len() implies (#[trigger] all[k] matches Step::Run(i) ==> i
        < commands) && (all[k] matches Step::Show(i) ==> i < commands) by {
        if k < head.len() {
            assert(all[k] == head[k]);
        } else if k < head.len() + body.len() {
            assert(all[k] == body[k - head.len()]);
        } else {
            assert(all[k] == tail[k - head.len() - body.len()]);
        }
    }
}

/// Builds the plan of a run.
fn build_plan(dry_run: bool, consume: bool, commands: usize) -> (steps: Vec<Step>)
    ensures
        steps@ == plan(dry_run, consume, commands as nat),
{
    let mut steps: Vec<Step> = Vec::new();
    steps.push(Step::WriteFiles);
    if dry_run {
        steps.push(Step::Say(Notice::DryRunEnabled));
    }
    if commands == 0 {
        steps.push(Step::Say(Notice::NoCommands));
    }
    assert(steps@ =~= opening(dry_run, commands as nat));
    let mut i: usize = 0;
    while i < commands
        invariant
            i <= commands,
            steps@ == opening(dry_run, commands as nat) + command_steps(dry_run, i as nat),
        decreases commands - i,
    {
        if dry_run {
            steps.push(Step::Show(i));
        } else {
            steps.push(Step::Run(i));
        }
        assert(command_steps(dry_run, (i + 1) as nat) =~= command_steps(dry_run, i as nat).push(
            if dry_run {
                Step::Show(i)
            } else {
                Step::Run(i)
            },
        ));
        assert(steps@ =~= opening(dry_run, commands as nat) + command_steps(
            dry_run,
            (i + 1) as nat,
        ));
        i = i + 1;
    }
    let ghost before = steps@;
    if dry_run {
        steps.push(Step::ShowTree);
    }
    if consume {
        steps.push(Step::RemoveBlueprint);
    }
    if !dry_run {
        if consume {
            steps.push(Step::RemoveSelf);
        }
        steps.push(Step::Say(Notice::Complete));
    }
    steps.push(Step::Finish);
    assert(steps@ =~= before + closing(dry_run, consume));
    steps
}

/// Decides whether `step` is answered with [`Event::Exited`].
fn step_awaits_exit(step: Step) -> (b: bool)
    ensures
        b == awaits_exit(step),
{
    match step {
        Step::Run(_) => true,
        Step::ShowTree => true,
        _ => false,
    }
}

/// Every step of a plan is due in the phase of the plan, and only the last
/// one ends it.
pub proof fn lemma_plan_phases(dry_run: bool, consume: bool, commands: nat)
    ensures
        forall|k: int|
            0 <= k < plan(dry_run, consume, commands).len() - 1 ==> phase_of(
                #[trigger] plan(dry_run, consume, commands)[k],
            ) == Phase::Run,
{
    let head = opening(dry_run, commands);
    let body = command_steps(dry_run, commands);
    let tail = closing(dry_run, consume);
    let all = plan(dry_run, consume, commands);
    assert forall|k: int| 0 <= k < all.len() - 1 implies phase_of(#[trigger] all[k])
        == Phase::Run by {
        if k < head.len() {
            assert(all[k] == head[k]);
        } else if k < head.len() + body.len() {
            assert(all[k] == body[k - head.len()]);
        } else {
            assert(all[k] == tail[k - head.len() - body.len()]);
        }
    }
}

impl Driver {
    /// The invariant of a run holds of every driver.
    #[verifier::type_invariant]
    spec fn valid(&self) -> bool {
        self@.wf()
    }

    /// Starts a run.
    ///
    /// `dry_run` says whether a dry-run target was asked for; the other
    /// arguments are the ambient facts of [`should_consume`].  A dry run
    /// first has its target listed.  Any other run needs superuser
    /// privilege, and then has the platform identity file read.
    pub fn start(dry_run: bool, self_path: Option<&str>, in_container: bool, is_root: bool) -> (r: (
        Driver,
        Result<Step, RunError>,
    ))
        ensures
            r.0@.wf(),
            r.0@.dry_run == dry_run,
            r.0@.consume == self_consume(
                match self_path {
                    Some(path) => Some(path@),
                    None => None,
                },
                in_container,
                is_root,
            ),
            r.0@.rendered.is_vacant(),
            dry_run ==> r.1 == Ok::<Step, RunError>(Step::ListTarget) && r.0@.phase is Gate,
            !dry_run && is_root ==> r.1 == Ok::<Step, RunError>(Step::ReadOsRelease)
                && r.0@.phase is Gate,
            !dry_run && !is_root ==> (r.1 matches Err(e) && e@ == RunErrorView::Gate(
                GateErrorView::NotRoot,
            )) && r.0@.phase is Failed,
    {
        let consume = should_consume(self_path, in_container, is_root);
        let (phase, first) = if dry_run {
            (Phase::Gate, Ok(Step::ListTarget))
        } else {
            match check_privilege(is_root) {
                Ok(()) => (Phase::Gate, Ok(Step::ReadOsRelease)),
                Err(e) => (Phase::Failed, Err(RunError::Gate(e))),
            }
        };
        let driver = Driver {
            dry_run,
            consume,
            phase,
            pending: None,
            rendered: Rendered::new(),
            steps: Vec::new(),
            cursor: 0,
        };
        (driver, first)
    }

    /// Whether the run is a dry run.
    pub fn is_dry_run(&self) -> (b: bool)
        ensures
            b == self@.dry_run,
    {
        self.dry_run
    }

    /// Whether the run removes its input and its executable on success.
    pub fn consumes(&self) -> (b: bool)
        ensures
            b == self@.consume,
    {
        self.consume
    }

    /// Where the run stands.
    pub fn phase(&self) -> (phase: Phase)
        ensures
            phase == self@.phase,
    {
        self.phase
    }

    /// What rendering produced.  The positions in [`Step::Show`] and
    /// [`Step::Run`] are positions in its queue.
    pub fn rendered(&self) -> (rendered: &Rendered)
        ensures
            *rendered == self@.rendered,
            rendered.wf(),
            self@.wf(),
    {
        proof {
            use_type_invariant(self);
        }
        &self.rendered
    }

    /// Ends the run in failure.
    fn fail(&mut self, error: RunError) -> (r: Result<Step, RunError>)
        ensures
            r matches Err(e) && e@ == error@,
            final(self)@.phase is Failed,
            final(self)@.dry_run == old(self)@.dry_run,
            final(self)@.consume == old(self)@.consume,
            final(self)@.rendered == old(self)@.rendered,
    {
        proof {
            use_type_invariant(&*self);
        }
        self.phase = Phase::Failed;
        Err(error)
    }

    /// Renders the blueprint and sets out on the plan.
    fn render(&mut self, blueprint: &Blueprint, root: &SourceRoot) -> (r: Result<Step, RunError>)
        requires
            all_encodable(blueprint.keys()),
            all_for_root(blueprint.keys()),
        ensures
            r == Ok::<Step, RunError>(Step::WriteFiles),
            final(self)@.phase is Run,
            final(self)@.dry_run == old(self)@.dry_run,
            final(self)@.consume == old(self)@.consume,
            renders(*blueprint, root@, final(self)@.rendered),
            final(self)@.steps == plan(
                final(self)@.dry_run,
                final(self)@.consume,
                final(self)@.rendered.commands@.len(),
            ),
            final(self)@.cursor == 0,
    {
        let mut rendered = Rendered::new();
        let ghost vacant = rendered;
        let outcome = blueprint.render(root, &mut rendered);
        assert(outcome is Ok);
        assert(vacant.queue() =~= Seq::<Seq<Seq<char>>>::empty());
        let steps = build_plan(self.dry_run, self.consume, rendered.commands.len());
        proof {
            lemma_plan_shape(self.dry_run, self.consume, rendered.commands@.len());
        }
        *self = Driver {
            dry_run: self.dry_run,
            consume: self.consume,
            phase: Phase::Run,
            pending: None,
            rendered,
            steps,
            cursor: 0,
        };
        Ok(Step::WriteFiles)
    }

    /// Moves on to the next step of the plan.
    fn advance(&mut self) -> (r: Result<Step, RunError>)
        requires
            old(self)@.phase is Run,
        ensures
            r == Ok::<Step, RunError>(old(self)@.steps[old(self)@.cursor + 1]),
            final(self)@.phase == phase_of(old(self)@.steps[old(self)@.cursor + 1]),
            final(self)@.dry_run == old(self)@.dry_run,
            final(self)@.consume == old(self)@.consume,
            final(self)@.rendered == old(self)@.rendered,
            final(self)@.steps == old(self)@.steps,
            final(self)@.cursor == old(self)@.cursor + 1,
    {
        let queued = self.rendered.commands.len();
        let total = self.steps.len();
        proof {
            use_type_invariant(&*self);
            lemma_plan_shape(self.dry_run, self.consume, queued as nat);
            lemma_plan_phases(self.dry_run, self.consume, queued as nat);
        }
        let next = self.steps[self.cursor + 1];
        match next {
            Step::Finish => {
                self.phase = Phase::Finished;
            },
            _ => {},
        }
        self.cursor = self.cursor + 1;
        Ok(next)
    }

    /// Ends the run because the event does not answer the step that was due.
    fn out_of_turn(&mut self, event: Event) -> (r: Result<Step, RunError>)
        requires
            !old(self)@.expects(event),
        ensures
            old(self)@.leads_to(event, final(self)@, r),
    {
        self.fail(RunError::OutOfTurn)
    }

    /// The entry check of a dry run: the target must be empty.
    fn on_target_listed(&mut self, empty: bool) -> (r: Result<Step, RunError>)
        requires
            old(self)@.phase is Gate,
            old(self)@.dry_run,
        ensures
            old(self)@.leads_to(Event::TargetListed { empty }, final(self)@, r),
    {
        proof {
            use_type_invariant(&*self);
        }
        match check_dry_run_target(empty) {
            Ok(()) => {
                self.phase = Phase::Load;
                Ok(Step::LoadBlueprint)
            },
            Err(e) => self.fail(RunError::Gate(e)),
        }
    }

    /// The entry check of a run that applies changes: the system must be of
    /// the supported family.
    fn on_os_release(&mut self, contents: String) -> (r: Result<Step, RunError>)
        requires
            old(self)@.phase is Gate,
            !old(self)@.dry_run,
        ensures
            old(self)@.leads_to(Event::OsRelease { contents }, final(self)@, r),
    {
        proof {
            use_type_invariant(&*self);
        }
        match check_os_family(contents.as_str()) {
            Ok(()) => {
                self.phase = Phase::Load;
                Ok(Step::LoadBlueprint)
            },
            Err(e) => self.fail(RunError::Gate(e)),
        }
    }

    /// The blueprint is loaded: check it, and render it unless the source
    /// root must be inspected first.
    fn on_blueprint(&mut self, blueprint: Blueprint) -> (r: Result<Step, RunError>)
        requires
            old(self)@.phase is Load,
        ensures
            old(self)@.leads_to(Event::Blueprint { blueprint }, final(self)@, r),
    {
        proof {
            use_type_invariant(&*self);
        }
        if !blueprint.keys_encodable() {
            self.fail(RunError::KeyTooLong)
        } else if !blueprint.keys_for_root() {
            self.fail(RunError::Render(RenderError::NonRootSshUser))
        } else if blueprint.has_keys() {
            self.pending = Some(blueprint);
            self.phase = Phase::Resolve;
            Ok(Step::ResolveRootHome)
        } else {
            let root = SourceRoot::plain();
            self.render(&blueprint, &root)
        }
    }

    /// The source root is inspected: render the blueprint.
    fn on_root_home(&mut self, root: SourceRoot) -> (r: Result<Step, RunError>)
        requires
            old(self)@.phase is Resolve,
        ensures
            old(self)@.leads_to(Event::RootHome { root }, final(self)@, r),
    {
        proof {
            use_type_invariant(&*self);
        }
        self.phase = Phase::Load;
        let mut pending: Option<Blueprint> = None;
        core::mem::swap(&mut self.pending, &mut pending);
        match pending {
            Some(blueprint) => self.render(&blueprint, &root),
            None => self.fail(RunError::OutOfTurn),
        }
    }

    /// A step of the plan is answered.
    fn on_plan_event(&mut self, event: Event) -> (r: Result<Step, RunError>)
        requires
            old(self)@.phase is Run,
            !(event is Failed),
        ensures
            old(self)@.leads_to(event, final(self)@, r),
    {
        let queued = self.rendered.commands.len();
        proof {
            use_type_invariant(&*self);
            lemma_plan_shape(self.dry_run, self.consume, queued as nat);
        }
        let due = self.steps[self.cursor];
        let exits = step_awaits_exit(due);
        match event {
            Event::Done => {
                if exits {
                    self.out_of_turn(event)
                } else {
                    self.advance()
                }
            },
            Event::Exited { success } => {
                if !exits {
                    self.out_of_turn(event)
                } else if success {
                    self.advance()
                } else {
                    match due {
                        Step::Run(i) => {
                            let program = self.rendered.commands[i].program().clone();
                            self.fail(RunError::CommandFailed { program })
                        },
                        _ => self.fail(RunError::TreeFailed),
                    }
                }
            },
            _ => self.out_of_turn(event),
        }
    }

    /// Takes the event that answers the step that was due, and says what
    /// to do next.
    ///
    /// An event that does not answer the step that was due ends the run
    /// with [`RunError::OutOfTurn`], as does any event after the run has
    /// ended.  A failed check, a blueprint that cannot be rendered, a step
    /// that could not be carried out and a program that exits with failure
    /// end the run with their own errors.  Otherwise the run moves on: from
    /// the entry checks to loading, from loading to rendering (by way of
    /// the source root where the blueprint has keys), and then step by step
    /// through the plan.
    pub fn step(&mut self, event: Event) -> (r: Result<Step, RunError>)
        ensures
            old(self)@.wf(),
            final(self)@.wf(),
            old(self)@.leads_to(event, final(self)@, r),
    {
        proof {
            use_type_invariant(&*self);
        }
        let r = self.dispatch(event);
        proof {
            use_type_invariant(&*self);
        }
        r
    }

    /// Hands the event to the part of the run that it answers.
    fn dispatch(&mut self, event: Event) -> (r: Result<Step, RunError>)
        ensures
            old(self)@.leads_to(event, final(self)@, r),
    {
        proof {
            use_type_invariant(&*self);
        }
        if let Event::Failed = event {
            return match self.phase {
                Phase::Finished => self.out_of_turn(event),
                Phase::Failed => self.out_of_turn(event),
                _ => {
                    proof {
                        lemma_plan_phases(
                            self.dry_run,
                            self.consume,
                            self.rendered.commands@.len(),
                        );
                    }
                    self.fail(RunError::StepFailed)
                },
            };
        }
        match self.phase {
            Phase::Gate => {
                if self.dry_run {
                    match event {
                        Event::TargetListed { empty } => self.on_target_listed(empty),
                        _ => self.out_of_turn(event),
                    }
                } else {
                    match event {
                        Event::OsRelease { contents } => self.on_os_release(contents),
                        _ => self.out_of_turn(event),
                    }
                }
            },
            Phase::Load => match event {
                Event::Blueprint { blueprint } => self.on_blueprint(blueprint),
                _ => self.out_of_turn(event),
            },
            Phase::Resolve => match event {
                Event::RootHome { root } => self.on_root_home(root),
                _ => self.out_of_turn(event),
            },
            Phase::Run => self.on_plan_event(event),
            Phase::Finished => self.out_of_turn(event),
            Phase::Failed => self.out_of_turn(event),
        }
    }
}

/// A dry run whose target directory already has entries fails its entry
/// check: the run ends before the blueprint is loaded, and nothing is
/// rendered.
pub proof fn lemma_nonempty_target_refused(
    before: DriverView,
    after: DriverView,
    r: Result<Step, RunError>,
)
    requires
        before.wf(),
        before.dry_run,
        before.phase is Gate,
        before.leads_to(Event::TargetListed { empty: false }, after, r),
    ensures
        r matches Err(e) && e@ == RunErrorView::Gate(GateErrorView::NonEmptyTarget),
        after.phase is Failed,
        after.rendered.is_vacant(),
{
}

/// Where the blueprint cannot be loaded, because it cannot be read or
/// because it does not parse, the run ends and nothing is rendered.
pub proof fn lemma_failed_load_renders_nothing(
    before: DriverView,
    after: DriverView,
    r: Result<Step, RunError>,
)
    requires
        before.wf(),
        before.phase is Load,
        before.leads_to(Event::Failed, after, r),
    ensures
        r matches Err(e) && e@ == RunErrorView::StepFailed,
        after.phase is Failed,
        after.rendered.is_vacant(),
{
}

/// A run that has ended stays ended: whatever event comes, the answer is
/// an error and the run counts as failed.
pub proof fn lemma_ended_run_stays_ended(
    before: DriverView,
    event: Event,
    after: DriverView,
    r: Result<Step, RunError>,
)
    requires
        before.phase is Finished || before.phase is Failed,
        before.leads_to(event, after, r),
    ensures
        r matches Err(e) && e@ == RunErrorView::OutOfTurn,
        after.phase is Failed,
{
}

/// Nothing is rendered before the entry checks have passed and the
/// blueprint is loaded.
pub proof fn lemma_nothing_rendered_before_loading(run: DriverView)
    requires
        run.wf(),
        run.phase is Gate || run.phase is Load || run.phase is Resolve,
    ensures
        run.rendered.is_vacant(),
{
}

/// A dry run executes no command and does not remove its executable.
pub proof fn lemma_dry_run_executes_nothing(consume: bool, commands: nat, k: int)
    requires
        0 <= k < plan(true, consume, commands).len(),
    ensures
        !(plan(true, consume, commands)[k] is Run),
        plan(true, consume, commands)[k] != Step::RemoveSelf,
{
    let head = opening(true, commands);
    let body = command_steps(true, commands);
    let tail = closing(true, consume);
    let all = plan(true, consume, commands);
    if k < head.len() {
        assert(all[k] == head[k]);
    } else if k < head.len() + body.len() {
        assert(all[k] == body[k - head.len()]);
    } else {
        assert(all[k] == tail[k - head.len() - body.len()]);
    }
}

/// A run that does not consume itself removes neither the blueprint nor its
/// executable.
pub proof fn lemma_keeps_what_it_may_not_consume(dry_run: bool, commands: nat, k: int)
    requires
        0 <= k < plan(dry_run, false, commands).len(),
    ensures
        plan(dry_run, false, commands)[k] != Step::RemoveBlueprint,
        plan(dry_run, false, commands)[k] != Step::RemoveSelf,
{
    let head = opening(dry_run, commands);
    let body = command_steps(dry_run, commands);
    let tail = closing(dry_run, false);
    let all = plan(dry_run, false, commands);
    if k < head.len() {
        assert(all[k] == head[k]);
    } else if k < head.len() + body.len() {
        assert(all[k] == body[k - head.len()]);
    } else {
        assert(all[k] == tail[k - head.len() - body.len()]);
    }
}

/// A run that applies changes executes the queued commands in queue order,
/// each once, one right after the other: after the files are written, and
/// before the blueprint and the executable are removed.
pub proof fn lemma_commands_in_queue_order(consume: bool, commands: nat)
    requires
        commands <= usize::MAX,
    ensures
        forall|i: int|
            0 <= i < commands ==> #[trigger] plan(false, consume, commands)[opening(false, commands).len() + i] == Step::Run(i as usize),
        forall|k: int|
            0 <= k < plan(false, consume, commands).len() && (#[trigger] plan(
                false,
                consume,
                commands,
            )[k]) is Run ==> opening(false, commands).len() <= k < opening(false, commands).len() + commands,
        forall|k: int|
            0 <= k < plan(false, consume, commands).len() && #[trigger] plan(
                false,
                consume,
                commands,
            )[k] == Step::WriteFiles ==> k < opening(false, commands).len(),
        forall|k: int|
            0 <= k < plan(false, consume, commands).len() && #[trigger] plan(
                false,
                consume,
                commands,
            )[k] == Step::RemoveSelf ==> opening(false, commands).len() + commands <= k,
        forall|k: int|
            0 <= k < plan(false, consume, commands).len() && #[trigger] plan(
                false,
                consume,
                commands,
            )[k] == Step::RemoveBlueprint ==> opening(false, commands).len() + commands <= k,
{
    let head = opening(false, commands);
    let body = command_steps(false, commands);
    let tail = closing(false, consume);
    let all = plan(false, consume, commands);
    assert forall|i: int| 0 <= i < commands implies #[trigger] all[head.len() + i] == Step::Run(
        i as usize,
    ) by {
        assert(all[head.len() + i] == body[i]);
    }
    assert forall|k: int| 0 <= k < all.len() implies ((#[trigger] all[k]) is Run ==> head.len()
        <= k < head.len() + commands) && (all[k] == Step::WriteFiles ==> k < head.len()) && (all[k]
        == Step::RemoveSelf ==> head.len() + commands <= k) && (all[k] == Step::RemoveBlueprint
        ==> head.len() + commands <= k) by {
        if k < head.len() {
            assert(all[k] == head[k]);
        } else if k < head.len() + body.len() {
            assert(all[k] == body[k - head.len()]);
        } else {
            assert(all[k] == tail[k - head.len() - body.len()]);
        }
    }
}

/// A run cleans up last: whatever it removes, it removes after the files
/// are written and after every command is shown or executed, and a dry run
/// after its tree is shown.  So a run that fails on the way removes nothing.
pub proof fn lemma_cleanup_comes_last(dry_run: bool, consume: bool, commands: nat, k: int, j: int)
    requires
        0 <= k < plan(dry_run, consume, commands).len(),
        0 <= j < plan(dry_run, consume, commands).len(),
        plan(dry_run, consume, commands)[k] == Step::RemoveBlueprint || plan(
            dry_run,
            consume,
            commands,
        )[k] == Step::RemoveSelf,
        ({
            let step = plan(dry_run, consume, commands)[j];
            step == Step::WriteFiles || step is Run || step is Show || step == Step::ShowTree
        }),
    ensures
        j < k,
{
    let head = opening(dry_run, commands);
    let body = command_steps(dry_run, commands);
    let tail = closing(dry_run, consume);
    let all = plan(dry_run, consume, commands);
    if k < head.len() {
        assert(all[k] == head[k]);
    } else if k < head.len() + body.len() {
        assert(all[k] == body[k - head.len()]);
    } else {
        assert(all[k] == tail[k - head.len() - body.len()]);
    }
    if j < head.len() {
        assert(all[j] == head[j]);
    } else if j < head.len() + body.len() {
        assert(all[j] == body[j - head.len()]);
    } else {
        assert(all[j] == tail[j - head.len() - body.len()]);
    }
}

/// A run that consumes itself and applies changes removes the blueprint
/// and then its executable, right behind the last command; a dry run that
/// consumes itself removes the blueprint alone, right behind its tree.
pub proof fn lemma_consuming_run_cleans_up(dry_run: bool, commands: nat)
    ensures
        ({
            let at = (opening(dry_run, commands).len() + commands) as int;
            let all = plan(dry_run, true, commands);
            if dry_run {
                all[at] == Step::ShowTree && all[at + 1] == Step::RemoveBlueprint && all[at + 2]
                    == Step::Finish
            } else {
                all[at] == Step::RemoveBlueprint && all[at + 1] == Step::RemoveSelf && all[at + 2]
                    == Step::Say(Notice::Complete) && all[at + 3] == Step::Finish
            }
        }),
{
    let head = opening(dry_run, commands);
    let body = command_steps(dry_run, commands);
    let tail = closing(dry_run, true);
    let all = plan(dry_run, true, commands);
    let at = (head.len() + commands) as int;
    assert(all[at] == tail[0]);
    assert(all[at + 1] == tail[1]);
    assert(all[at + 2] == tail[2]);
    if !dry_run {
        assert(all[at + 3] == tail[3]);
    }
}

/// Rendering sets the run at the first step of its plan, and every event
/// that does not end the run moves it on by exactly one step.  So a run
/// whose steps all succeed is handed every step of its plan, each once, in
/// the order of the plan.
pub proof fn lemma_plan_is_walked_in_order(
    before: DriverView,
    event: Event,
    after: DriverView,
    r: Result<Step, RunError>,
)
    requires
        before.wf(),
        after.wf(),
        before.leads_to(event, after, r),
        before.refusal(event) is None,
        after.phase is Run,
    ensures
        after.steps == plan(after.dry_run, after.consume, after.rendered.commands@.len()),
        r == Ok::<Step, RunError>(after.steps[after.cursor]),
        before.phase is Run ==> after.steps == before.steps && after.cursor == before.cursor + 1,
        !(before.phase is Run) ==> after.cursor == 0 && r == Ok::<Step, RunError>(Step::WriteFiles),
{
}

} // verus!
