//! The decisions of the executor: which builtin a command names, the order in
//! which a pipeline opens pipes and runs its stages, and which file
//! descriptors a forked stage closes and duplicates.
//!
//! The executor does no I/O itself. A caller starts a command line with
//! [`Executor::execute`], performs each [`Action`] it is given, and reports
//! what happened with [`Executor::resume`] until the action is
//! [`Action::Done`].

use vstd::prelude::*;
use crate::parser::{Command, SpecCommand, atoms_view, clone_args};
use crate::parser_laws::pipeline_command;

verus! {

/// What running a command line amounts to for the shell's main loop.
#[derive(Debug, Clone, Copy, PartialEq, Eq)]
pub enum ExecutionResult {
    /// Keep going; the exit status of the last process, when there is one.
    Normal(Option<i32>),
    /// The `exit` builtin ran: the shell stops.
    Exit,
}

/// The commands the shell runs itself.
#[derive(Debug, Clone, Copy, PartialEq, Eq)]
pub enum Builtin {
    Cd,
    Help,
    Exit,
}

/// How one stage of a command line is carried out.
#[derive(Debug, PartialEq)]
pub enum Dispatch {
    /// Nothing needs doing; this is the stage's result.
    Finished(Result<ExecutionResult, String>),
    /// Change the working directory (see [`crate::builtin`]).
    Cd,
    /// Print the help text, then the result is `Normal(None)`.
    Help,
    /// Start the program in a new process.
    Process,
}

/// The next step a caller performs for the command line being run.
#[derive(Debug, PartialEq)]
pub enum Action {
    /// Create a pipe and report it with [`Event::PipeOpened`] or [`Event::PipeFailed`].
    OpenPipe,
    /// Run one stage: its words, and whether it is the end of the pipeline.
    /// Report its result with [`Event::Ran`].
    Run(Vec<String>, bool),
    /// The command line is finished, with this result.
    Done(Result<ExecutionResult, String>),
}

/// What happened when the caller performed an [`Action`].
#[derive(Debug, PartialEq)]
pub enum Event {
    /// The pipe was created: its read end and its write end.
    PipeOpened(i32, i32),
    /// Creating the pipe failed.
    PipeFailed,
    /// The stage ran with this result.
    Ran(Result<ExecutionResult, String>),
}

/// Where a running command line stands.
#[derive(Debug, Clone, Copy, PartialEq, Eq, Structural)]
pub enum Phase {
    /// Waiting for the pipe of the next piped stage.
    AwaitPipe,
    /// Waiting for a piped stage (not the last) to finish.
    AwaitStage,
    /// Waiting for the last stage to finish.
    AwaitLast,
}

/// A file-descriptor operation a forked stage performs.
#[derive(Debug, Clone, Copy, PartialEq, Eq)]
pub enum FdOp {
    /// Close this descriptor.
    Close(i32),
    /// Duplicate the first descriptor onto the second.
    Dup2(i32, i32),
}

/// How a started process ended, as far as the shell cares.
#[derive(Debug, Clone, Copy, PartialEq, Eq)]
pub enum ProcessOutcome {
    /// The process could not be created.
    ForkFailed,
    /// Waiting for the process failed.
    WaitFailed,
    /// The process exited with this status.
    Exited(i32),
    /// The process was stopped.
    Stopped,
    /// The process was killed by a signal.
    Signaled,
    /// Any other change of state.
    Other,
}

/// A command line being run.
pub struct Job {
    stages: Vec<Vec<String>>,
    last: Option<Vec<String>>,
    opened: usize,
    phase: Phase,
    base: Ghost<Seq<(i32, i32)>>,
}

/// The mathematical form of a running command line.
pub struct JobView {
    /// The stages whose output goes into a pipe, in order.
    pub stages: Seq<Seq<Seq<char>>>,
    /// The final stage, or `None` when the line ends in a redirection.
    pub last: Option<Seq<Seq<char>>>,
    /// How many pipes this command line has opened so far.
    pub opened: nat,
    pub phase: Phase,
    /// The pipe stack when the command line started.
    pub base: Seq<(i32, i32)>,
}

pub enum SpecAction {
    OpenPipe,
    Run(Seq<Seq<char>>, bool),
    Done(Result<ExecutionResult, Seq<char>>),
}

pub open spec fn result_view(r: Result<ExecutionResult, String>) -> Result<ExecutionResult, Seq<char>> {
    match r {
        Ok(x) => Ok(x),
        Err(s) => Err(s@),
    }
}

impl View for Action {
    type V = SpecAction;

    open spec fn view(&self) -> SpecAction {
        match self {
            Action::OpenPipe => SpecAction::OpenPipe,
            Action::Run(a, end) => SpecAction::Run(atoms_view(*a), *end),
            Action::Done(r) => SpecAction::Done(result_view(*r)),
        }
    }
}

/// The stages of `c` that feed a pipe, in order.
pub open spec fn plan_stages(c: SpecCommand) -> Seq<Seq<Seq<char>>>
    decreases c,
{
    match c {
        SpecCommand::Command(_) => Seq::empty(),
        SpecCommand::Pipe(a, r) => seq![a] + plan_stages(*r),
        SpecCommand::Redirect(_, _) => Seq::empty(),
    }
}

/// The stage that ends `c`, or `None` when `c` reaches a redirection first.
pub open spec fn plan_last(c: SpecCommand) -> Option<Seq<Seq<char>>>
    decreases c,
{
    match c {
        SpecCommand::Command(a) => Some(a),
        SpecCommand::Pipe(_, r) => plan_last(*r),
        SpecCommand::Redirect(_, _) => None,
    }
}

pub open spec fn not_implemented_msg() -> Seq<char> {
    seq!['N', 'o', 't', ' ', 'i', 'm', 'p', 'l', 'e', 'm', 'e', 'n', 't', 'e', 'd']
}

pub open spec fn pipe_failed_msg() -> Seq<char> {
    seq!['p', 'i', 'p', 'e', ' ', 'f', 'a', 'i', 'l', 'e', 'd']
}

/// What follows once `j.opened` stages have been started: the pipe of the
/// next piped stage, else the last stage, else (a redirection) the end.
pub open spec fn begin_stage(j: JobView) -> (Option<JobView>, SpecAction) {
    if j.opened < j.stages.len() {
        (Some(JobView { phase: Phase::AwaitPipe, ..j }), SpecAction::OpenPipe)
    } else if j.last is Some {
        (Some(JobView { phase: Phase::AwaitLast, ..j }), SpecAction::Run(j.last->0, true))
    } else {
        (None, SpecAction::Done(Err(not_implemented_msg())))
    }
}

/// The builtin a command name selects.
pub open spec fn builtin_of(name: Seq<char>) -> Option<Builtin> {
    if name == seq!['c', 'd'] {
        Some(Builtin::Cd)
    } else if name == seq!['h', 'e', 'l', 'p'] {
        Some(Builtin::Help)
    } else if name == seq!['e', 'x', 'i', 't'] {
        Some(Builtin::Exit)
    } else {
        None
    }
}

/// How a stage with these words is carried out.
pub open spec fn dispatch_of(command: Seq<Seq<char>>) -> Dispatch {
    if command.len() == 0 {
        Dispatch::Finished(Ok(ExecutionResult::Normal(None)))
    } else {
        match builtin_of(command[0]) {
            Some(Builtin::Cd) => Dispatch::Cd,
            Some(Builtin::Help) => Dispatch::Help,
            Some(Builtin::Exit) => Dispatch::Finished(Ok(ExecutionResult::Exit)),
            None => Dispatch::Process,
        }
    }
}

/// Runs command lines: holds the builtin table and the stack of open pipes.
pub struct Executor {
    builtin_commands: Vec<(String, Builtin)>,
    pipes: Vec<(i32, i32)>,
    job: Option<Job>,
}

/// A running command line `v` agrees with the pipe stack `pipes`.
pub open spec fn job_ok(pipes: Seq<(i32, i32)>, v: JobView) -> bool {
    &&& v.opened <= v.stages.len()
    &&& pipes.len() == v.base.len() + v.opened
    &&& pipes.subrange(0, v.base.len() as int) == v.base
    &&& v.phase == Phase::AwaitPipe ==> v.opened < v.stages.len()
    &&& v.phase == Phase::AwaitStage ==> 1 <= v.opened
    &&& v.phase == Phase::AwaitLast ==> v.opened == v.stages.len() && v.last is Some
}

/// Whether a command line in phase `phase` can take `e` as what happened.
pub open spec fn event_fits(phase: Phase, e: Event) -> bool {
    match e {
        Event::PipeOpened(_, _) => phase == Phase::AwaitPipe,
        Event::PipeFailed => phase == Phase::AwaitPipe,
        Event::Ran(_) => phase == Phase::AwaitStage || phase == Phase::AwaitLast,
    }
}

/// The descriptors the shell closes after forking a stage: the pipe the
/// last stage read from, or the one before the newest for a middle stage.
pub open spec fn parent_plan(p: Seq<(i32, i32)>, pipe_end: bool) -> Seq<FdOp> {
    if pipe_end && p.len() > 0 {
        seq![FdOp::Close(p.last().0), FdOp::Close(p.last().1)]
    } else if p.len() > 1 {
        seq![FdOp::Close(p[p.len() - 2].0), FdOp::Close(p[p.len() - 2].1)]
    } else {
        Seq::empty()
    }
}

/// The descriptor operations a forked stage performs before running its
/// program: a stage that is not the end writes into the newest pipe; the
/// end reads from the newest pipe; a stage that is not the end, with an
/// older pipe below, reads from that one.
pub open spec fn child_plan(p: Seq<(i32, i32)>, pipe_end: bool) -> Seq<FdOp> {
    (if !pipe_end && p.len() > 0 {
        seq![FdOp::Close(p.last().0), FdOp::Dup2(p.last().1, 1), FdOp::Close(p.last().1)]
    } else {
        Seq::empty()
    }) + (if pipe_end && p.len() > 0 {
        seq![FdOp::Close(p.last().1), FdOp::Dup2(p.last().0, 0), FdOp::Close(p.last().0)]
    } else {
        Seq::empty()
    }) + (if !pipe_end && p.len() > 1 {
        seq![
            FdOp::Close(p[p.len() - 2].1),
            FdOp::Dup2(p[p.len() - 2].0, 0),
            FdOp::Close(p[p.len() - 2].0),
        ]
    } else {
        Seq::empty()
    })
}

/// The running command line, the pipe stack and the next action after the
/// command line `j`, with pipe stack `pipes`, takes the event `e`.
pub open spec fn step_spec(j: JobView, pipes: Seq<(i32, i32)>, e: Event) -> (Option<JobView>, Seq<(i32, i32)>, SpecAction) {
    match e {
        Event::PipeOpened(r, w) => (
            Some(JobView { opened: j.opened + 1, phase: Phase::AwaitStage, ..j }),
            pipes.push((r, w)),
            SpecAction::Run(j.stages[j.opened as int], false),
        ),
        Event::PipeFailed => (None, j.base, SpecAction::Done(Err(pipe_failed_msg()))),
        Event::Ran(r) => if j.phase == Phase::AwaitStage {
            let next = begin_stage(j);
            (next.0, if next.0 is None { j.base } else { pipes }, next.1)
        } else {
            (None, j.base, SpecAction::Done(result_view(r)))
        },
    }
}

pub open spec fn stages_view(v: Vec<Vec<String>>) -> Seq<Seq<Seq<char>>> {
    v@.map_values(|a: Vec<String>| atoms_view(a))
}

pub open spec fn last_view(o: Option<Vec<String>>) -> Option<Seq<Seq<char>>> {
    match o {
        Some(a) => Some(atoms_view(a)),
        None => None,
    }
}

/// Appends the piped stages of `c` to `stages` and returns its last stage.
fn plan_into(c: &Command, stages: &mut Vec<Vec<String>>) -> (last: Option<Vec<String>>)
    ensures
        stages_view(*final(stages)) == stages_view(*old(stages)) + plan_stages(c@),
        last_view(last) == plan_last(c@),
    decreases c,
{
    match c {
        Command::Command(a) => {
            assert(stages_view(*stages) + Seq::<Seq<Seq<char>>>::empty() =~= stages_view(*stages));
            Some(clone_args(a))
        },
        Command::Pipe(a, r) => {
            let ghost before = stages_view(*stages);
            stages.push(clone_args(a));
            let ghost mid = stages_view(*stages);
            assert(mid =~= before.push(atoms_view(*a)));
            let last = plan_into(r, stages);
            assert(stages_view(*stages) =~= before + (seq![atoms_view(*a)] + plan_stages((**r)@)));
            last
        },
        Command::Redirect(_, _) => {
            assert(stages_view(*stages) + Seq::<Seq<Seq<char>>>::empty() =~= stages_view(*stages));
            None
        },
    }
}

impl Job {
    pub closed spec fn view_of(&self) -> JobView {
        JobView {
            stages: stages_view(self.stages),
            last: last_view(self.last),
            opened: self.opened as nat,
            phase: self.phase,
            base: self.base@,
        }
    }
}

impl Executor {
    /// The builtin table: each name with the builtin it selects.
    pub closed spec fn table(&self) -> Seq<(Seq<char>, Builtin)> {
        self.builtin_commands@.map_values(|e: (String, Builtin)| (e.0@, e.1))
    }

    /// The stack of open pipes, oldest first.
    pub closed spec fn pipe_stack(&self) -> Seq<(i32, i32)> {
        self.pipes@
    }

    /// The command line being run, if any.
    pub closed spec fn job_view(&self) -> Option<JobView> {
        match self.job {
            Some(j) => Some(j.view_of()),
            None => None,
        }
    }

    /// The builtin table holds exactly the three builtins.
    pub closed spec fn table_ok(&self) -> bool {
        &&& forall|i: int|
            0 <= i < self.table().len() ==> builtin_of(#[trigger] self.table()[i].0) == Some(
                self.table()[i].1,
            )
        &&& forall|name: Seq<char>|
            builtin_of(name) is Some ==> exists|i: int|
                0 <= i < self.table().len() && #[trigger] self.table()[i].0 == name
    }

    /// The executor's invariant: the table holds exactly the three builtins,
    /// and while a command line runs, the pipe stack is the stack it started
    /// with plus the pipes it opened.
    pub closed spec fn wf(&self) -> bool {
        &&& self.table_ok()
        &&& match self.job {
            None => true,
            Some(j) => job_ok(self.pipes@, j.view_of()),
        }
    }

    /// Whether no command line is running.
    pub fn is_idle(&self) -> (r: bool)
        ensures
            r == (self.job_view() is None),
    {
        self.job.is_none()
    }

    /// A new executor with the builtins `cd`, `help` and `exit`, no open
    /// pipes and no command line running.
    pub fn new() -> (e: Self)
        ensures
            e.wf(),
            e.pipe_stack() == Seq::<(i32, i32)>::empty(),
            e.job_view() is None,
    {
        let mut builtin_commands: Vec<(String, Builtin)> = Vec::new();
        builtin_commands.push(("cd".to_owned(), Builtin::Cd));
        builtin_commands.push(("help".to_owned(), Builtin::Help));
        builtin_commands.push(("exit".to_owned(), Builtin::Exit));
        let e = Executor { builtin_commands, pipes: Vec::new(), job: None };
        proof {
            reveal_strlit("cd");
            reveal_strlit("help");
            reveal_strlit("exit");
            assert(e.table()[0].0 == seq!['c', 'd']);
            assert(e.table()[1].0 == seq!['h', 'e', 'l', 'p']);
            assert(e.table()[2].0 == seq!['e', 'x', 'i', 't']);
            assert forall|name: Seq<char>| builtin_of(name) is Some implies exists|i: int|
                0 <= i < e.table().len() && #[trigger] e.table()[i].0 == name by {
                if name == seq!['c', 'd'] {
                    assert(e.table()[0].0 == name);
                } else if name == seq!['h', 'e', 'l', 'p'] {
                    assert(e.table()[1].0 == name);
                } else {
                    assert(e.table()[2].0 == name);
                }
            }
        }
        e
    }

    /// The builtin named `name`, looked up in the table.
    pub fn builtin(&self, name: &String) -> (r: Option<Builtin>)
        requires
            self.wf(),
        ensures
            r == builtin_of(name@),
    {
        let mut i: usize = 0;
        while i < self.builtin_commands.len()
            invariant
                self.wf(),
                i <= self.table().len(),
                self.table().len() == self.builtin_commands@.len(),
                forall|k: int| 0 <= k < i ==> #[trigger] self.table()[k].0 != name@,
            decreases self.builtin_commands@.len() - i,
        {
            if self.builtin_commands[i].0 == *name {
                assert(self.table()[i as int].0 == name@);
                return Some(self.builtin_commands[i].1);
            }
            assert(self.table()[i as int].0 != name@);
            i += 1;
        }
        proof {
            if builtin_of(name@) is Some {
                let k = choose|k: int| 0 <= k < self.table().len() && #[trigger] self.table()[k].0 == name@;
                assert(self.table()[k].0 != name@);
            }
        }
        None
    }

    /// How the stage `command` is carried out: an empty stage is done with
    /// `Normal(None)`, `exit` is done with `Exit`, `cd` and `help` are
    /// builtins, and anything else starts a process.
    pub fn execute_command(&self, command: &[String]) -> (d: Dispatch)
        requires
            self.wf(),
        ensures
            d == dispatch_of(command@.map_values(|a: String| a@)),
    {
        let ghost words = command@.map_values(|a: String| a@);
        if command.len() == 0 {
            return Dispatch::Finished(Ok(ExecutionResult::Normal(None)));
        }
        assert(words[0] == command@[0]@);
        match self.builtin(&command[0]) {
            Some(Builtin::Cd) => Dispatch::Cd,
            Some(Builtin::Help) => Dispatch::Help,
            Some(Builtin::Exit) => Dispatch::Finished(Ok(ExecutionResult::Exit)),
            None => Dispatch::Process,
        }
    }

    /// Whether the running command line can take `event` as what happened.
    pub fn accepts(&self, event: &Event) -> (r: bool)
        ensures
            r == (self.job_view() matches Some(j) && event_fits(j.phase, *event)),
    {
        match &self.job {
            None => false,
            Some(j) => match event {
                Event::PipeOpened(_, _) => j.phase == Phase::AwaitPipe,
                Event::PipeFailed => j.phase == Phase::AwaitPipe,
                Event::Ran(_) => j.phase == Phase::AwaitStage || j.phase == Phase::AwaitLast,
            },
        }
    }

    fn pop_pipes(&mut self, n: usize, Ghost(base): Ghost<Seq<(i32, i32)>>)
        requires
            old(self).pipes@.len() == base.len() + n,
            old(self).pipes@.subrange(0, base.len() as int) == base,
        ensures
            final(self).pipes@ == base,
            final(self).builtin_commands == old(self).builtin_commands,
            final(self).job == old(self).job,
    {
        let mut k = n;
        while k > 0
            invariant
                self.pipes@.len() == base.len() + k,
                self.pipes@.subrange(0, base.len() as int) == base,
                self.builtin_commands == old(self).builtin_commands,
                self.job == old(self).job,
            decreases k,
        {
            let ghost before = self.pipes@;
            self.pipes.pop();
            assert(self.pipes@ =~= before.drop_last());
            assert(self.pipes@.subrange(0, base.len() as int) =~= before.subrange(0, base.len() as int));
            k -= 1;
        }
        assert(self.pipes@ =~= self.pipes@.subrange(0, base.len() as int));
    }

    /// Installs `job` after `job.opened` stages were started, and returns
    /// what follows (see [`begin_stage`]).
    fn start_next(&mut self, job: Job) -> (a: Action)
        requires
            old(self).table_ok(),
            old(self).job is None,
            job_ok(old(self).pipes@, JobView { phase: Phase::AwaitStage, ..job.view_of() }) || job.opened == 0,
            job.opened <= job.stages@.len(),
            old(self).pipes@.len() == job.base@.len() + job.opened,
            old(self).pipes@.subrange(0, job.base@.len() as int) == job.base@,
        ensures
            final(self).wf(),
            final(self).table() == old(self).table(),
            (final(self).job_view(), a@) == begin_stage(job.view_of()),
            final(self).job_view() is None ==> final(self).pipe_stack() == job.view_of().base,
            final(self).job_view() is Some ==> final(self).pipe_stack() == old(self).pipe_stack(),
    {
        let ghost jv = job.view_of();
        if job.opened < job.stages.len() {
            let Job { stages, last, opened, phase: _, base } = job;
            self.job = Some(Job { stages, last, opened, phase: Phase::AwaitPipe, base });
            proof {
                assert(self.job_view()->0 == JobView { phase: Phase::AwaitPipe, ..jv });
            }
            Action::OpenPipe
        } else {
            let Job { stages, last, opened, phase: _, base } = job;
            match last {
                Some(words) => {
                    let args = clone_args(&words);
                    self.job = Some(Job { stages, last: Some(words), opened, phase: Phase::AwaitLast, base });
                    proof {
                        assert(self.job_view()->0 == JobView { phase: Phase::AwaitLast, ..jv });
                    }
                    Action::Run(args, true)
                },
                None => {
                    self.pop_pipes(opened, base);
                    let msg = "Not implemented".to_owned();
                    proof {
                        reveal_strlit("Not implemented");
                    }
                    assert(msg@ == not_implemented_msg());
                    Action::Done(Err(msg))
                },
            }
        }
    }

    /// Starts running the command line `command` and returns the first step.
    ///
    /// The stages joined by `|` each get a pipe, opened just before the stage
    /// runs; the final stage runs with `pipe_end` set. A line that reaches a
    /// `>` ends with the error `Not implemented` once its earlier stages ran.
    pub fn execute(&mut self, command: &Command) -> (a: Action)
        requires
            old(self).wf(),
            old(self).job_view() is None,
        ensures
            final(self).wf(),
            final(self).table() == old(self).table(),
            (final(self).job_view(), a@) == begin_stage(
                JobView {
                    stages: plan_stages(command@),
                    last: plan_last(command@),
                    opened: 0,
                    phase: Phase::AwaitPipe,
                    base: old(self).pipe_stack(),
                },
            ),
            final(self).pipe_stack() == old(self).pipe_stack(),
    {
        let mut stages: Vec<Vec<String>> = Vec::new();
        let last = plan_into(command, &mut stages);
        assert(stages_view(stages) =~= plan_stages(command@));
        let job = Job { stages, last, opened: 0, phase: Phase::AwaitPipe, base: Ghost(self.pipes@) };
        assert(self.pipes@.subrange(0, self.pipes@.len() as int) =~= self.pipes@);
        self.start_next(job)
    }

    /// Takes what happened when the last action was performed, and returns
    /// the next step. When the step is [`Action::Done`], the pipe stack is
    /// back to what it was when the command line started.
    pub fn resume(&mut self, event: Event) -> (a: Action)
        requires
            old(self).wf(),
            old(self).job_view() matches Some(j) && event_fits(j.phase, event),
        ensures
            final(self).wf(),
            final(self).table() == old(self).table(),
            ({
                let j = old(self).job_view()->0;
                match event {
                    Event::PipeOpened(r, w) => {
                        &&& final(self).pipe_stack() == old(self).pipe_stack().push((r, w))
                        &&& final(self).job_view() == Some(
                            JobView { opened: j.opened + 1, phase: Phase::AwaitStage, ..j },
                        )
                        &&& a@ == SpecAction::Run(j.stages[j.opened as int], false)
                    },
                    Event::PipeFailed => {
                        &&& final(self).pipe_stack() == j.base
                        &&& final(self).job_view() is None
                        &&& a@ == SpecAction::Done(Err(pipe_failed_msg()))
                    },
                    Event::Ran(r) => if j.phase == Phase::AwaitStage {
                        &&& (final(self).job_view(), a@) == begin_stage(j)
                        &&& final(self).job_view() is None ==> final(self).pipe_stack() == j.base
                        &&& final(self).job_view() is Some ==> final(self).pipe_stack() == old(self).pipe_stack()
                    } else {
                        &&& final(self).pipe_stack() == j.base
                        &&& final(self).job_view() is None
                        &&& a@ == SpecAction::Done(result_view(r))
                    },
                }
            }),
            a is Done <==> final(self).job_view() is None,
            a is Done ==> final(self).pipe_stack() == old(self).job_view()->0.base,
            final(self).job_view() == step_spec(old(self).job_view()->0, old(self).pipe_stack(), event).0,
            final(self).pipe_stack() == step_spec(old(self).job_view()->0, old(self).pipe_stack(), event).1,
            a@ == step_spec(old(self).job_view()->0, old(self).pipe_stack(), event).2,
    {
        let job = self.job.take().unwrap();
        let ghost jv = job.view_of();
        let Job { stages, last, opened, phase, base } = job;
        match event {
            Event::PipeOpened(r, w) => {
                let n = stages.len();
                assert(n == jv.stages.len());
                assert(opened < n);
                self.pipes.push((r, w));
                let args = clone_args(&stages[opened]);
                self.job = Some(Job { stages, last, opened: opened + 1, phase: Phase::AwaitStage, base });
                proof {
                    assert(self.pipes@.subrange(0, base@.len() as int) =~= old(self).pipes@.subrange(0, base@.len() as int));
                    assert(self.job_view()->0 == JobView { opened: jv.opened + 1, phase: Phase::AwaitStage, ..jv });
                }
                Action::Run(args, false)
            },
            Event::PipeFailed => {
                self.pop_pipes(opened, base);
                let msg = "pipe failed".to_owned();
                proof {
                    reveal_strlit("pipe failed");
                }
                assert(msg@ == pipe_failed_msg());
                Action::Done(Err(msg))
            },
            Event::Ran(r) => {
                if phase == Phase::AwaitStage {
                    let next = Job { stages, last, opened, phase, base };
                    proof {
                        assert(next.view_of() == jv);
                    }
                    self.start_next(next)
                } else {
                    self.pop_pipes(opened, base);
                    Action::Done(r)
                }
            },
        }
    }

    /// The descriptors to close in the shell after forking a stage.
    pub fn parent_fd_plan(&self, pipe_end: bool) -> (r: Vec<FdOp>)
        ensures
            r@ == parent_plan(self.pipe_stack(), pipe_end),
    {
        let n = self.pipes.len();
        let mut r: Vec<FdOp> = Vec::new();
        if pipe_end && 0 < n {
            let pipe = self.pipes[n - 1];
            r.push(FdOp::Close(pipe.0));
            r.push(FdOp::Close(pipe.1));
        } else if 1 < n {
            let pipe = self.pipes[n - 2];
            r.push(FdOp::Close(pipe.0));
            r.push(FdOp::Close(pipe.1));
        }
        assert(r@ =~= parent_plan(self.pipe_stack(), pipe_end));
        r
    }

    /// The descriptor operations a forked stage performs before it runs its
    /// program, in order.
    pub fn child_fd_plan(&self, pipe_end: bool) -> (r: Vec<FdOp>)
        ensures
            r@ == child_plan(self.pipe_stack(), pipe_end),
    {
        let n = self.pipes.len();
        let mut r: Vec<FdOp> = Vec::new();
        if !pipe_end && 0 < n {
            let pipe = self.pipes[n - 1];
            r.push(FdOp::Close(pipe.0));
            r.push(FdOp::Dup2(pipe.1, 1));
            r.push(FdOp::Close(pipe.1));
        }
        if pipe_end && 0 < n {
            let pipe = self.pipes[n - 1];
            r.push(FdOp::Close(pipe.1));
            r.push(FdOp::Dup2(pipe.0, 0));
            r.push(FdOp::Close(pipe.0));
        }
        if !pipe_end && 1 < n {
            let pipe = self.pipes[n - 2];
            r.push(FdOp::Close(pipe.1));
            r.push(FdOp::Dup2(pipe.0, 0));
            r.push(FdOp::Close(pipe.0));
        }
        assert(r@ =~= child_plan(self.pipe_stack(), pipe_end));
        r
    }
}


/// The error a failed descriptor operation gives.
pub fn fd_op_error(op: &FdOp) -> (m: String)
    ensures
        m@ == match op {
            FdOp::Close(_) => "pipe close failed"@,
            FdOp::Dup2(_, _) => "dup2 failed"@,
        },
{
    match op {
        FdOp::Close(_) => "pipe close failed".to_owned(),
        FdOp::Dup2(_, _) => "dup2 failed".to_owned(),
    }
}

/// The result of a stage run as a process, from how the process ended.
pub fn process_result(o: ProcessOutcome) -> (r: Result<ExecutionResult, String>)
    ensures
        result_view(r) == match o {
            ProcessOutcome::ForkFailed => Err("fork failed"@),
            ProcessOutcome::WaitFailed => Err("Process wait error"@),
            ProcessOutcome::Exited(status) => Ok(ExecutionResult::Normal(Some(status))),
            _ => Ok(ExecutionResult::Normal(None)),
        },
{
    match o {
        ProcessOutcome::ForkFailed => Err("fork failed".to_owned()),
        ProcessOutcome::WaitFailed => Err("Process wait error".to_owned()),
        ProcessOutcome::Exited(status) => Ok(ExecutionResult::Normal(Some(status))),
        _ => Ok(ExecutionResult::Normal(None)),
    }
}

/// The message printed when a program cannot be started.
pub fn not_found_message(name: &str) -> (m: String)
    ensures
        m@ == "cxsh: command not found: "@ + name@,
{
    let mut m = "cxsh: command not found: ".to_owned();
    m.append(name);
    m
}

/// Law: how a stage is wired when the newest pipe is on top of the stack
/// `p`. A stage that is not the last sends its output into the newest pipe
/// and, when an older pipe lies below, takes its input from that one; the
/// shell then closes the older pipe. The last stage takes its input from the
/// newest pipe and keeps its output, and the shell closes that pipe.
pub proof fn law_stage_wiring(p: Seq<(i32, i32)>)
    requires
        p.len() > 0,
    ensures
        child_plan(p, false).contains(FdOp::Dup2(p.last().1, 1)),
        p.len() > 1 ==> child_plan(p, false).contains(FdOp::Dup2(p[p.len() - 2].0, 0)),
        p.len() > 1 ==> parent_plan(p, false) == seq![
            FdOp::Close(p[p.len() - 2].0),
            FdOp::Close(p[p.len() - 2].1),
        ],
        child_plan(p, true) == seq![
            FdOp::Close(p.last().1),
            FdOp::Dup2(p.last().0, 0),
            FdOp::Close(p.last().0),
        ],
        parent_plan(p, true) == seq![FdOp::Close(p.last().0), FdOp::Close(p.last().1)],
{
    let a = seq![FdOp::Close(p.last().0), FdOp::Dup2(p.last().1, 1), FdOp::Close(p.last().1)];
    assert(child_plan(p, false)[1] == FdOp::Dup2(p.last().1, 1));
    if p.len() > 1 {
        assert(child_plan(p, false)[4] == FdOp::Dup2(p[p.len() - 2].0, 0));
    }
    assert(child_plan(p, true) =~= seq![
        FdOp::Close(p.last().1),
        FdOp::Dup2(p.last().0, 0),
        FdOp::Close(p.last().0),
    ]);
}

/// The stages run, the final pipe stack and the final action when, from the
/// command line `j` with pipe stack `pipes` and next action `a`, every pipe
/// opens (with the descriptors `fds`, in order) and every stage finishes
/// (with the results `rs`, in order). It stops early when `fds` or `rs` run out.
pub open spec fn drive(
    j: Option<JobView>,
    pipes: Seq<(i32, i32)>,
    a: SpecAction,
    fds: Seq<(i32, i32)>,
    rs: Seq<Result<ExecutionResult, String>>,
) -> (Seq<(Seq<Seq<char>>, bool)>, Seq<(i32, i32)>, SpecAction)
    decreases fds.len() + rs.len(),
{
    match a {
        SpecAction::OpenPipe => if fds.len() > 0 && j is Some {
            let n = step_spec(j->0, pipes, Event::PipeOpened(fds[0].0, fds[0].1));
            drive(n.0, n.1, n.2, fds.drop_first(), rs)
        } else {
            (Seq::empty(), pipes, a)
        },
        SpecAction::Run(words, end) => if rs.len() > 0 && j is Some {
            let n = step_spec(j->0, pipes, Event::Ran(rs[0]));
            let rest = drive(n.0, n.1, n.2, fds, rs.drop_first());
            (seq![(words, end)] + rest.0, rest.1, rest.2)
        } else {
            (Seq::empty(), pipes, a)
        },
        SpecAction::Done(_) => (Seq::empty(), pipes, a),
    }
}

/// The stages from the `k`-th on as run in a pipeline ending in `last`.
pub open spec fn expected_runs(stages: Seq<Seq<Seq<char>>>, k: int, last: Seq<Seq<char>>) -> Seq<(Seq<Seq<char>>, bool)> {
    stages.subrange(k, stages.len() as int).map_values(|w: Seq<Seq<char>>| (w, false)) + seq![(last, true)]
}

proof fn lemma_drive_from(j: JobView, pipes: Seq<(i32, i32)>, fds: Seq<(i32, i32)>, rs: Seq<Result<ExecutionResult, String>>)
    requires
        j.opened <= j.stages.len(),
        j.last is Some,
        fds.len() == j.stages.len() - j.opened,
        rs.len() == fds.len() + 1,
    ensures
        ({
            let b = begin_stage(j);
            drive(b.0, pipes, b.1, fds, rs) == (
                expected_runs(j.stages, j.opened as int, j.last->0),
                j.base,
                SpecAction::Done(result_view(rs.last())),
            )
        }),
    decreases j.stages.len() - j.opened,
{
    let b = begin_stage(j);
    if j.opened < j.stages.len() {
        let j1 = JobView { phase: Phase::AwaitPipe, ..j };
        let n1 = step_spec(j1, pipes, Event::PipeOpened(fds[0].0, fds[0].1));
        let j2 = JobView { opened: j.opened + 1, phase: Phase::AwaitStage, ..j };
        assert(n1.0 == Some(j2));
        let n2 = step_spec(j2, n1.1, Event::Ran(rs[0]));
        lemma_drive_from(j2, n1.1, fds.drop_first(), rs.drop_first());
        assert(rs.drop_first().last() == rs.last());
        let b2 = begin_stage(j2);
        let rest = drive(n2.0, n2.1, n2.2, fds.drop_first(), rs.drop_first());
        assert(drive(b.0, pipes, b.1, fds, rs) == drive(n1.0, n1.1, n1.2, fds.drop_first(), rs));
        assert(drive(n1.0, n1.1, n1.2, fds.drop_first(), rs) == (
            seq![(j.stages[j.opened as int], false)] + rest.0,
            rest.1,
            rest.2,
        ));
        assert(seq![(j.stages[j.opened as int], false)] + expected_runs(j.stages, j.opened as int + 1, j.last->0)
            =~= expected_runs(j.stages, j.opened as int, j.last->0));
    } else {
        let j1 = JobView { phase: Phase::AwaitLast, ..j };
        let n = step_spec(j1, pipes, Event::Ran(rs[0]));
        assert(rs.last() == rs[0]);
        assert(drive(n.0, n.1, n.2, fds, rs.drop_first()) == (Seq::<(Seq<Seq<char>>, bool)>::empty(), j.base, n.2));
        assert(expected_runs(j.stages, j.opened as int, j.last->0) =~= seq![(j.last->0, true)]);
        assert(seq![(j.last->0, true)] + Seq::<(Seq<Seq<char>>, bool)>::empty() =~= seq![(j.last->0, true)]);
    }
}

/// Law: when every pipe opens and every stage finishes, a pipeline runs each
/// stage once, in order, all but the last with `pipe_end` unset; it ends
/// with the last stage's result; and the pipe stack is back to what it was.
pub proof fn law_pipeline_run(
    c: SpecCommand,
    pipes: Seq<(i32, i32)>,
    fds: Seq<(i32, i32)>,
    rs: Seq<Result<ExecutionResult, String>>,
)
    requires
        plan_last(c) is Some,
        fds.len() == plan_stages(c).len(),
        rs.len() == fds.len() + 1,
    ensures
        ({
            let j = JobView { stages: plan_stages(c), last: plan_last(c), opened: 0, phase: Phase::AwaitPipe, base: pipes };
            let b = begin_stage(j);
            drive(b.0, pipes, b.1, fds, rs) == (
                expected_runs(plan_stages(c), 0, plan_last(c)->0),
                pipes,
                SpecAction::Done(result_view(rs.last())),
            )
        }),
{
    let j = JobView { stages: plan_stages(c), last: plan_last(c), opened: 0, phase: Phase::AwaitPipe, base: pipes };
    lemma_drive_from(j, pipes, fds, rs);
}

/// The running command line, the pipe stack and the action after the events
/// `es` are taken one by one from `j`, `pipes` and the action `a`: each as
/// [`Executor::resume`] takes it, until the command line is finished or an
/// event does not fit the step it answers.
pub open spec fn run_events(
    j: Option<JobView>,
    pipes: Seq<(i32, i32)>,
    a: SpecAction,
    es: Seq<Event>,
) -> (Option<JobView>, Seq<(i32, i32)>, SpecAction)
    decreases es.len(),
{
    if es.len() == 0 || j is None || !event_fits(j->0.phase, es[0]) {
        (j, pipes, a)
    } else {
        let n = step_spec(j->0, pipes, es[0]);
        run_events(n.0, n.1, n.2, es.drop_first())
    }
}

/// The command line `c` as [`Executor::execute`] starts it on the pipe stack `base`.
pub open spec fn start_job(c: SpecCommand, base: Seq<(i32, i32)>) -> JobView {
    JobView { stages: plan_stages(c), last: plan_last(c), opened: 0, phase: Phase::AwaitPipe, base }
}

proof fn lemma_begin_keeps(j: JobView, pipes: Seq<(i32, i32)>)
    requires
        j.opened <= j.stages.len(),
        pipes.len() == j.base.len() + j.opened,
        pipes.subrange(0, j.base.len() as int) == j.base,
    ensures
        begin_stage(j).0 is None <==> begin_stage(j).1 is Done,
        begin_stage(j).0 matches Some(n) ==> job_ok(pipes, n) && n.base == j.base,
{
}

proof fn lemma_step_keeps(j: JobView, pipes: Seq<(i32, i32)>, e: Event)
    requires
        job_ok(pipes, j),
        event_fits(j.phase, e),
    ensures
        step_spec(j, pipes, e).0 is None <==> step_spec(j, pipes, e).2 is Done,
        step_spec(j, pipes, e).0 is None ==> step_spec(j, pipes, e).1 == j.base,
        step_spec(j, pipes, e).0 matches Some(n) ==> job_ok(step_spec(j, pipes, e).1, n) && n.base == j.base,
{
    match e {
        Event::PipeOpened(r, w) => {
            assert(pipes.push((r, w)).subrange(0, j.base.len() as int) =~= pipes.subrange(0, j.base.len() as int));
        },
        Event::Ran(_) => {
            if j.phase == Phase::AwaitStage {
                lemma_begin_keeps(j, pipes);
            }
        },
        Event::PipeFailed => {},
    }
}

proof fn lemma_run_keeps(j: Option<JobView>, pipes: Seq<(i32, i32)>, a: SpecAction, es: Seq<Event>, base: Seq<(i32, i32)>)
    requires
        j is None <==> a is Done,
        j is None ==> pipes == base,
        j matches Some(v) ==> job_ok(pipes, v) && v.base == base,
    ensures
        ({
            let r = run_events(j, pipes, a, es);
            &&& r.0 is None <==> r.2 is Done
            &&& r.0 is None ==> r.1 == base
            &&& r.0 matches Some(v) ==> job_ok(r.1, v) && v.base == base
        }),
    decreases es.len(),
{
    if !(es.len() == 0 || j is None || !event_fits(j->0.phase, es[0])) {
        lemma_step_keeps(j->0, pipes, es[0]);
        let n = step_spec(j->0, pipes, es[0]);
        lemma_run_keeps(n.0, n.1, n.2, es.drop_first(), base);
    }
}

/// Law: however the pipes and stages of a command line turn out (pipes that
/// fail, stages with any result, a redirection that is not implemented),
/// once it is finished the pipe stack is the one it started with; while it
/// runs, the stack holds that one with only the line's own pipes on top.
pub proof fn law_pipes_restored(c: SpecCommand, base: Seq<(i32, i32)>, es: Seq<Event>)
    ensures
        ({
            let b = begin_stage(start_job(c, base));
            let r = run_events(b.0, base, b.1, es);
            &&& r.0 is None <==> r.2 is Done
            &&& r.2 is Done ==> r.1 == base
            &&& r.0 matches Some(v) ==> job_ok(r.1, v) && v.base == base
        }),
{
    let j = start_job(c, base);
    assert(base.subrange(0, base.len() as int) =~= base);
    lemma_begin_keeps(j, base);
    let b = begin_stage(j);
    lemma_run_keeps(b.0, base, b.1, es, base);
}

/// Law: a pipeline whose first pipe cannot be created ends with the error
/// `pipe failed` before any stage runs, and leaves the pipe stack as it was.
pub proof fn law_first_pipe_fails(a: Seq<Seq<char>>, rest: SpecCommand, base: Seq<(i32, i32)>)
    ensures
        ({
            let b = begin_stage(start_job(SpecCommand::Pipe(a, Box::new(rest)), base));
            &&& b.1 == SpecAction::OpenPipe
            &&& run_events(b.0, base, b.1, seq![Event::PipeFailed]) == (
                None::<JobView>,
                base,
                SpecAction::Done(Err(pipe_failed_msg())),
            )
        }),
{
    let b = begin_stage(start_job(SpecCommand::Pipe(a, Box::new(rest)), base));
    let n = step_spec(b.0->0, base, Event::PipeFailed);
    assert(seq![Event::PipeFailed].drop_first() =~= Seq::<Event>::empty());
    assert(run_events(n.0, n.1, n.2, Seq::<Event>::empty()) == n);
}

/// Law: how a stage is dispatched, by its words alone. An empty stage is
/// done with `Normal(None)`; a stage named `cd` goes to the `cd` builtin
/// and one named `help` to `help`, whatever their arguments; one named
/// `exit` is done with `Exit`; any other starts a process.
pub proof fn law_dispatch(ws: Seq<Seq<char>>)
    ensures
        ws.len() == 0 ==> dispatch_of(ws) == Dispatch::Finished(Ok::<ExecutionResult, String>(ExecutionResult::Normal(None))),
        ws.len() > 0 && ws[0] == seq!['c', 'd'] ==> dispatch_of(ws) == Dispatch::Cd,
        ws.len() > 0 && ws[0] == seq!['h', 'e', 'l', 'p'] ==> dispatch_of(ws) == Dispatch::Help,
        ws.len() > 0 && ws[0] == seq!['e', 'x', 'i', 't'] ==> dispatch_of(ws) == Dispatch::Finished(
            Ok::<ExecutionResult, String>(ExecutionResult::Exit),
        ),
        ws.len() > 0 && ws[0] != seq!['c', 'd'] && ws[0] != seq!['h', 'e', 'l', 'p'] && ws[0] != seq!['e', 'x', 'i', 't']
            ==> dispatch_of(ws) == Dispatch::Process,
{
}

proof fn lemma_plan_pipeline(stages: Seq<Seq<Seq<char>>>)
    requires
        stages.len() >= 1,
    ensures
        plan_stages(pipeline_command(stages)) == stages.drop_last(),
        plan_last(pipeline_command(stages)) == Some(stages.last()),
    decreases stages.len(),
{
    if stages.len() == 1 {
        assert(stages.drop_last() =~= Seq::<Seq<Seq<char>>>::empty());
    } else {
        let rest = stages.drop_first();
        lemma_plan_pipeline(rest);
        assert(seq![stages[0]] + rest.drop_last() =~= stages.drop_last());
        assert(rest.last() == stages.last());
    }
}

/// Law: a pipeline of the stages `stages` (joined by `|`), when every pipe
/// opens and every stage finishes, runs exactly those stages with all their
/// words, in order, only the last as the end of the pipeline; it ends with
/// the last stage's result and the pipe stack as it was.
pub proof fn law_pipeline_stages(
    stages: Seq<Seq<Seq<char>>>,
    base: Seq<(i32, i32)>,
    fds: Seq<(i32, i32)>,
    rs: Seq<Result<ExecutionResult, String>>,
)
    requires
        stages.len() >= 1,
        fds.len() + 1 == stages.len(),
        rs.len() == stages.len(),
    ensures
        ({
            let b = begin_stage(start_job(pipeline_command(stages), base));
            drive(b.0, base, b.1, fds, rs) == (
                Seq::new(stages.len(), |i: int| (stages[i], i == stages.len() - 1)),
                base,
                SpecAction::Done(result_view(rs.last())),
            )
        }),
{
    let c = pipeline_command(stages);
    lemma_plan_pipeline(stages);
    law_pipeline_run(c, base, fds, rs);
    assert(expected_runs(plan_stages(c), 0, plan_last(c)->0)
        =~= Seq::new(stages.len(), |i: int| (stages[i], i == stages.len() - 1)));
}

/// Law: the first stage of a pipeline runs, once its pipe opens, with all
/// of its words and not as the end of the pipeline.
pub proof fn law_first_stage_runs(a: Seq<Seq<char>>, rest: SpecCommand, base: Seq<(i32, i32)>, r: i32, w: i32)
    ensures
        ({
            let b = begin_stage(start_job(SpecCommand::Pipe(a, Box::new(rest)), base));
            &&& b.1 == SpecAction::OpenPipe
            &&& step_spec(b.0->0, base, Event::PipeOpened(r, w)).2 == SpecAction::Run(a, false)
        }),
{
}

} // verus!
