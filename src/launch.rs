//! The launch sequence as a state machine: privilege bridge, process
//! creation, anti-cheat wait, tool injection and handle release. The caller
//! performs each action and reports its outcome.

use crate::error::ErrorCode;
use vstd::prelude::*;

verus! {

/// Interval between two polls of the loaded-driver list, in milliseconds.
pub const DRIVER_POLL_MS: u64 = 100;

/// How long an injection waits for the remote loader thread, in milliseconds.
pub const INJECT_WAIT_MS: u32 = 2000;

/// What a tool's file turned out to be once its path was resolved and checked.
#[derive(Clone, Copy, Debug, PartialEq, Eq, Structural)]
pub enum ToolKind {
    /// A library to load into the game process.
    Dll,
    /// A program to start beside the game.
    Exe,
    /// The path could not be resolved, or nothing exists there.
    Missing,
    /// The file exists but is neither a DLL nor an EXE.
    Unknown,
}

/// What the caller reports back after performing the last action.
#[derive(Clone, Copy, Debug, PartialEq, Eq, Structural)]
pub enum Event {
    /// The action succeeded.
    Done,
    /// The action failed.
    Failed,
    /// The process or driver that was looked for is there.
    Present,
    /// The process or driver that was looked for is not there.
    Absent,
}

/// The next piece of outside work that the launch sequence asks for.
#[derive(Clone, Copy, Debug, PartialEq, Eq, Structural)]
pub enum Action {
    /// Look for a running process with the game's executable name.
    CheckRunning,
    /// Open the launcher's own process token.
    OpenToken,
    /// Find and open the interactive desktop shell process.
    FindShell,
    /// Canonicalize the game executable's path.
    CanonicalizePath,
    /// Create the game process, suspended, under the shell's token.
    CreateProcess,
    /// Enumerate the loaded drivers and look for the anti-cheat driver,
    /// after sleeping `DRIVER_POLL_MS`.
    PollDriver,
    /// Suspend the game process.
    SuspendProcess,
    /// Resume the game process.
    ResumeProcess,
    /// Inject the DLL of the tool at this index.
    InjectDll(usize),
    /// Start the program of the tool at this index.
    SpawnExe(usize),
    /// Warn that the tool at this index is skipped.
    SkipTool(usize),
    /// Resume the primary thread and close both process handles.
    ReleaseHandles,
    /// Spawn the process watcher.
    StartWatcher,
    /// The launch succeeded.
    Complete,
    /// The launch failed with this error.
    Fail(ErrorCode),
    /// The launch is over: nothing is left to do.
    Idle,
}

/// The steps of the launch sequence.
#[derive(Clone, Copy, Debug, PartialEq, Eq, Structural)]
pub enum Phase {
    Idle,
    CheckingRunning,
    OpeningToken,
    FindingShell,
    Canonicalizing,
    Creating,
    AwaitingDriverLoad,
    Suspending,
    AwaitingDriverUnload,
    ResumingGate,
    Tool(usize),
    ResumingForAbort,
    Releasing,
    StartingWatcher,
    Finished,
}

/// The state of one launch, apart from the tool list.
#[derive(Clone, Copy, Debug)]
pub struct LaunchCore {
    pub phase: Phase,
    /// Whether the anti-cheat gate is enabled.
    pub gate: bool,
    /// Whether this platform can launch the game at all.
    pub supported: bool,
    /// Whether the game process and its handles exist.
    pub created: bool,
    /// Whether a suspend of the game process was asked for.
    pub suspended: bool,
    /// Whether a resume of the game process was asked for.
    pub resumed: bool,
    /// The error that ends this launch once the handles are released.
    pub failure: Option<ErrorCode>,
}

/// A launch that has not begun.
pub open spec fn initial(gate: bool, supported: bool) -> LaunchCore {
    LaunchCore {
        phase: Phase::Idle,
        gate,
        supported,
        created: false,
        suspended: false,
        resumed: false,
        failure: None,
    }
}

/// The action that the kind of a tool calls for.
pub open spec fn tool_action(kind: ToolKind, i: usize) -> Action {
    match kind {
        ToolKind::Dll => Action::InjectDll(i),
        ToolKind::Exe => Action::SpawnExe(i),
        _ => Action::SkipTool(i),
    }
}

/// Moves on to the tool at index `j`, or past the last tool to the release of
/// the handles.
pub open spec fn enter_tool(tools: Seq<ToolKind>, s: LaunchCore, j: usize) -> (LaunchCore, Action) {
    if j < tools.len() {
        (LaunchCore { phase: Phase::Tool(j), ..s }, tool_action(tools[j as int], j))
    } else {
        (LaunchCore { phase: Phase::Releasing, ..s }, Action::ReleaseHandles)
    }
}

/// Ends a launch whose process exists: resumes a suspended process first,
/// then releases the handles, then reports `err`.
pub open spec fn abort(s: LaunchCore, err: ErrorCode) -> (LaunchCore, Action) {
    if s.suspended && !s.resumed {
        (
            LaunchCore { phase: Phase::ResumingForAbort, resumed: true, failure: Some(err), ..s },
            Action::ResumeProcess,
        )
    } else {
        (LaunchCore { phase: Phase::Releasing, failure: Some(err), ..s }, Action::ReleaseHandles)
    }
}

/// Ends a launch before any process exists.
pub open spec fn fail_early(s: LaunchCore, err: ErrorCode) -> (LaunchCore, Action) {
    (LaunchCore { phase: Phase::Finished, ..s }, Action::Fail(err))
}

/// One step of the launch sequence: from the state and the outcome of the
/// last action, the next state and the next action.
pub open spec fn next(tools: Seq<ToolKind>, s: LaunchCore, e: Event) -> (LaunchCore, Action) {
    match s.phase {
        Phase::Idle => (LaunchCore { phase: Phase::CheckingRunning, ..s }, Action::CheckRunning),
        Phase::CheckingRunning => if e == Event::Present {
            fail_early(s, ErrorCode::AlreadyRunning)
        } else if !s.supported {
            fail_early(s, ErrorCode::Unsupported)
        } else {
            (LaunchCore { phase: Phase::OpeningToken, ..s }, Action::OpenToken)
        },
        Phase::OpeningToken => if e == Event::Done {
            (LaunchCore { phase: Phase::FindingShell, ..s }, Action::FindShell)
        } else {
            fail_early(s, ErrorCode::NotElevated)
        },
        Phase::FindingShell => if e == Event::Done {
            (LaunchCore { phase: Phase::Canonicalizing, ..s }, Action::CanonicalizePath)
        } else {
            fail_early(s, ErrorCode::NoParentShell)
        },
        Phase::Canonicalizing => if e == Event::Done {
            (LaunchCore { phase: Phase::Creating, ..s }, Action::CreateProcess)
        } else {
            fail_early(s, ErrorCode::BadPath)
        },
        Phase::Creating => if e != Event::Done {
            fail_early(s, ErrorCode::LaunchFailed)
        } else if s.gate {
            (LaunchCore { phase: Phase::AwaitingDriverLoad, created: true, ..s }, Action::PollDriver)
        } else {
            enter_tool(tools, LaunchCore { created: true, ..s }, 0)
        },
        Phase::AwaitingDriverLoad => if e == Event::Present {
            (LaunchCore { phase: Phase::Suspending, suspended: true, ..s }, Action::SuspendProcess)
        } else if e == Event::Failed {
            abort(s, ErrorCode::LaunchFailed)
        } else {
            (s, Action::PollDriver)
        },
        Phase::Suspending => if e == Event::Done {
            (LaunchCore { phase: Phase::AwaitingDriverUnload, ..s }, Action::PollDriver)
        } else {
            abort(s, ErrorCode::LaunchFailed)
        },
        Phase::AwaitingDriverUnload => if e == Event::Present {
            (s, Action::PollDriver)
        } else if e == Event::Failed {
            abort(s, ErrorCode::LaunchFailed)
        } else {
            (LaunchCore { phase: Phase::ResumingGate, resumed: true, ..s }, Action::ResumeProcess)
        },
        Phase::ResumingGate => if e == Event::Done {
            enter_tool(tools, s, 0)
        } else {
            abort(s, ErrorCode::LaunchFailed)
        },
        Phase::Tool(i) => enter_tool(tools, s, (i + 1) as usize),
        Phase::ResumingForAbort => (LaunchCore { phase: Phase::Releasing, ..s }, Action::ReleaseHandles),
        Phase::Releasing => match s.failure {
            Some(err) => (LaunchCore { phase: Phase::Finished, ..s }, Action::Fail(err)),
            None => (LaunchCore { phase: Phase::StartingWatcher, ..s }, Action::StartWatcher),
        },
        Phase::StartingWatcher => (LaunchCore { phase: Phase::Finished, ..s }, Action::Complete),
        Phase::Finished => (s, Action::Idle),
    }
}

/// A sequence of outcomes fed to the launch from state `s`: the state reached
/// and every action asked for, one per outcome.
pub open spec fn launch_run(tools: Seq<ToolKind>, s: LaunchCore, events: Seq<Event>) -> (LaunchCore, Seq<Action>)
    decreases events.len(),
{
    if events.len() == 0 {
        (s, Seq::empty())
    } else {
        let (t, acts) = launch_run(tools, s, events.drop_last());
        let (u, a) = next(tools, t, events.last());
        (u, acts.push(a))
    }
}

/// How many times `a` occurs in `acts`.
pub open spec fn count(acts: Seq<Action>, a: Action) -> nat
    decreases acts.len(),
{
    if acts.len() == 0 {
        0
    } else {
        count(acts.drop_last(), a) + if acts.last() == a { 1nat } else { 0nat }
    }
}

/// One launch of the game: the decisions of the launch sequence.
///
/// The caller performs each returned action (Windows API calls, sleeps) and
/// reports its outcome to `step`, until `Complete` or `Fail` comes back.
pub struct Launch {
    pub core: LaunchCore,
    pub tools: Vec<ToolKind>,
}

impl Launch {
    /// Well-formed: a tool phase names an existing tool.
    pub open spec fn wf(&self) -> bool {
        match self.core.phase {
            Phase::Tool(i) => i < self.tools@.len(),
            _ => true,
        }
    }

    /// A launch that has not begun, with the anti-cheat gate `gate`, on a
    /// platform that can (`supported`) or cannot launch, over these tools in
    /// the profile's order.
    pub fn new(gate: bool, supported: bool, tools: Vec<ToolKind>) -> (r: Launch)
        ensures
            r.core == initial(gate, supported),
            r.tools@ == tools@,
            r.wf(),
    {
        Launch {
            core: LaunchCore {
                phase: Phase::Idle,
                gate,
                supported,
                created: false,
                suspended: false,
                resumed: false,
                failure: None,
            },
            tools,
        }
    }

    fn enter_tool(&mut self, j: usize) -> (r: Action)
        ensures
            (final(self).core, r) == enter_tool(old(self).tools@, old(self).core, j),
            final(self).tools == old(self).tools,
            final(self).wf(),
    {
        if j < self.tools.len() {
            self.core.phase = Phase::Tool(j);
            match self.tools[j] {
                ToolKind::Dll => Action::InjectDll(j),
                ToolKind::Exe => Action::SpawnExe(j),
                _ => Action::SkipTool(j),
            }
        } else {
            self.core.phase = Phase::Releasing;
            Action::ReleaseHandles
        }
    }

    fn abort(&mut self, err: ErrorCode) -> (r: Action)
        ensures
            (final(self).core, r) == abort(old(self).core, err),
            final(self).tools == old(self).tools,
            final(self).wf(),
    {
        self.core.failure = Some(err);
        if self.core.suspended && !self.core.resumed {
            self.core.phase = Phase::ResumingForAbort;
            self.core.resumed = true;
            Action::ResumeProcess
        } else {
            self.core.phase = Phase::Releasing;
            Action::ReleaseHandles
        }
    }

    fn fail_early(&mut self, err: ErrorCode) -> (r: Action)
        ensures
            (final(self).core, r) == fail_early(old(self).core, err),
            final(self).tools == old(self).tools,
            final(self).wf(),
    {
        self.core.phase = Phase::Finished;
        Action::Fail(err)
    }

    fn go(&mut self, phase: Phase, a: Action) -> (r: Action)
        requires
            !(phase is Tool),
        ensures
            final(self).core == (LaunchCore { phase, ..old(self).core }),
            r == a,
            final(self).tools == old(self).tools,
            final(self).wf(),
    {
        self.core.phase = phase;
        a
    }

    /// Starts the launch: returns the first action.
    pub fn begin(&mut self) -> (r: Action)
        requires
            old(self).wf(),
        ensures
            (final(self).core, r) == next(old(self).tools@, old(self).core, Event::Done),
            final(self).tools == old(self).tools,
            final(self).wf(),
    {
        self.step(Event::Done)
    }

    /// Takes the outcome of the last action and returns the next action.
    pub fn step(&mut self, e: Event) -> (r: Action)
        requires
            old(self).wf(),
        ensures
            (final(self).core, r) == next(old(self).tools@, old(self).core, e),
            final(self).tools == old(self).tools,
            final(self).wf(),
    {
        match self.core.phase {
            Phase::Idle => self.go(Phase::CheckingRunning, Action::CheckRunning),
            Phase::CheckingRunning => {
                if e == Event::Present {
                    self.fail_early(ErrorCode::AlreadyRunning)
                } else if !self.core.supported {
                    self.fail_early(ErrorCode::Unsupported)
                } else {
                    self.go(Phase::OpeningToken, Action::OpenToken)
                }
            },
            Phase::OpeningToken => {
                if e == Event::Done {
                    self.go(Phase::FindingShell, Action::FindShell)
                } else {
                    self.fail_early(ErrorCode::NotElevated)
                }
            },
            Phase::FindingShell => {
                if e == Event::Done {
                    self.go(Phase::Canonicalizing, Action::CanonicalizePath)
                } else {
                    self.fail_early(ErrorCode::NoParentShell)
                }
            },
            Phase::Canonicalizing => {
                if e == Event::Done {
                    self.go(Phase::Creating, Action::CreateProcess)
                } else {
                    self.fail_early(ErrorCode::BadPath)
                }
            },
            Phase::Creating => {
                if e != Event::Done {
                    self.fail_early(ErrorCode::LaunchFailed)
                } else if self.core.gate {
                    self.core.created = true;
                    self.go(Phase::AwaitingDriverLoad, Action::PollDriver)
                } else {
                    self.core.created = true;
                    self.enter_tool(0)
                }
            },
            Phase::AwaitingDriverLoad => {
                if e == Event::Present {
                    self.core.suspended = true;
                    self.go(Phase::Suspending, Action::SuspendProcess)
                } else if e == Event::Failed {
                    self.abort(ErrorCode::LaunchFailed)
                } else {
                    Action::PollDriver
                }
            },
            Phase::Suspending => {
                if e == Event::Done {
                    self.go(Phase::AwaitingDriverUnload, Action::PollDriver)
                } else {
                    self.abort(ErrorCode::LaunchFailed)
                }
            },
            Phase::AwaitingDriverUnload => {
                if e == Event::Present {
                    Action::PollDriver
                } else if e == Event::Failed {
                    self.abort(ErrorCode::LaunchFailed)
                } else {
                    self.core.resumed = true;
                    self.go(Phase::ResumingGate, Action::ResumeProcess)
                }
            },
            Phase::ResumingGate => {
                if e == Event::Done {
                    self.enter_tool(0)
                } else {
                    self.abort(ErrorCode::LaunchFailed)
                }
            },
            Phase::Tool(i) => {
                let n = self.tools.len();
                assert(i < n);
                self.enter_tool(i + 1)
            },
            Phase::ResumingForAbort => self.go(Phase::Releasing, Action::ReleaseHandles),
            Phase::Releasing => {
                match self.core.failure {
                    Some(err) => self.go(Phase::Finished, Action::Fail(err)),
                    None => self.go(Phase::StartingWatcher, Action::StartWatcher),
                }
            },
            Phase::StartingWatcher => self.go(Phase::Finished, Action::Complete),
            Phase::Finished => Action::Idle,
        }
    }

    /// Whether the launch has ended.
    pub fn is_finished(&self) -> (r: bool)
        ensures
            r == (self.core.phase == Phase::Finished),
    {
        match self.core.phase {
            Phase::Finished => true,
            _ => false,
        }
    }
}

/// Whether the handles of the game process have been released.
pub open spec fn released(s: LaunchCore) -> bool {
    match s.phase {
        Phase::Releasing | Phase::StartingWatcher => true,
        Phase::Finished => s.created,
        _ => false,
    }
}

/// Whether the process watcher has been asked for.
pub open spec fn watching(s: LaunchCore) -> bool {
    match s.phase {
        Phase::StartingWatcher => true,
        Phase::Finished => s.created && s.failure is None,
        _ => false,
    }
}

/// What holds of every state reached by a run from `initial(gate, _)` and of
/// the actions asked for on the way.
pub open spec fn run_inv(gate: bool, s: LaunchCore, acts: Seq<Action>) -> bool {
    &&& s.gate == gate
    &&& count(acts, Action::SuspendProcess) == if s.suspended { 1nat } else { 0nat }
    &&& count(acts, Action::ResumeProcess) == if s.resumed { 1nat } else { 0nat }
    &&& s.resumed ==> s.suspended
    &&& s.suspended ==> s.gate
    &&& count(acts, Action::ReleaseHandles) == if released(s) { 1nat } else { 0nat }
    &&& count(acts, Action::StartWatcher) == if watching(s) { 1nat } else { 0nat }
    &&& (s.phase == Phase::Releasing && s.failure is None) ==> s.created
    &&& match s.phase {
        Phase::Idle | Phase::CheckingRunning | Phase::OpeningToken | Phase::FindingShell
        | Phase::Canonicalizing | Phase::Creating => !s.created,
        Phase::Finished => true,
        _ => s.created,
    }
    &&& match s.phase {
        Phase::Idle | Phase::CheckingRunning | Phase::OpeningToken | Phase::FindingShell
        | Phase::Canonicalizing | Phase::Creating => !s.suspended && s.failure is None,
        Phase::AwaitingDriverLoad => s.gate && !s.suspended && s.failure is None,
        Phase::Suspending | Phase::AwaitingDriverUnload => {
            s.suspended && !s.resumed && s.failure is None
        },
        Phase::ResumingGate => s.suspended && s.resumed && s.failure is None,
        Phase::Tool(_) | Phase::StartingWatcher => {
            s.suspended == s.gate && s.resumed == s.gate && s.failure is None
        },
        Phase::ResumingForAbort => s.suspended && s.resumed && s.failure is Some,
        Phase::Releasing => s.suspended == s.resumed && (s.failure is None ==> s.resumed == s.gate),
        Phase::Finished => s.suspended == s.resumed,
    }
}

proof fn lemma_count_push(acts: Seq<Action>, a: Action, x: Action)
    ensures
        count(acts.push(a), x) == count(acts, x) + if a == x { 1nat } else { 0nat },
{
    assert(acts.push(a).drop_last() =~= acts);
}

proof fn lemma_step_inv(tools: Seq<ToolKind>, gate: bool, s: LaunchCore, acts: Seq<Action>, e: Event)
    requires
        run_inv(gate, s, acts),
    ensures
        run_inv(gate, next(tools, s, e).0, acts.push(next(tools, s, e).1)),
{
    let (t, a) = next(tools, s, e);
    lemma_count_push(acts, a, Action::SuspendProcess);
    lemma_count_push(acts, a, Action::ResumeProcess);
    lemma_count_push(acts, a, Action::ReleaseHandles);
    lemma_count_push(acts, a, Action::StartWatcher);
}

proof fn lemma_run_inv(tools: Seq<ToolKind>, gate: bool, supported: bool, events: Seq<Event>)
    ensures
        run_inv(gate, launch_run(tools, initial(gate, supported), events).0,
            launch_run(tools, initial(gate, supported), events).1),
        launch_run(tools, initial(gate, supported), events).1.len() == events.len(),
    decreases events.len(),
{
    if events.len() > 0 {
        lemma_run_inv(tools, gate, supported, events.drop_last());
        let (t, acts) = launch_run(tools, initial(gate, supported), events.drop_last());
        lemma_step_inv(tools, gate, t, acts, events.last());
    }
}

/// Suspends and resumes of the game process are balanced. At the release of
/// the primary thread, resumes and suspends are equal in number. On the
/// success path there is one of each when the anti-cheat wait is on, and
/// zero when it is off. DLL injection only follows that suspend and resume.
pub proof fn lemma_suspend_resume_balanced(
    tools: Seq<ToolKind>,
    gate: bool,
    supported: bool,
    events: Seq<Event>,
)
    ensures
        ({
            let (s, acts) = launch_run(tools, initial(gate, supported), events);
            let n: nat = if gate { 1nat } else { 0nat };
            &&& count(acts, Action::ResumeProcess) <= count(acts, Action::SuspendProcess) <= n
            &&& acts.len() > 0 && acts.last() == Action::ReleaseHandles ==> {
                &&& count(acts, Action::SuspendProcess) == count(acts, Action::ResumeProcess)
                &&& s.failure is None ==> count(acts, Action::ResumeProcess) == n
            }
            &&& acts.len() > 0 && acts.last() == Action::Complete ==> {
                count(acts, Action::SuspendProcess) == n && count(acts, Action::ResumeProcess) == n
            }
            &&& acts.len() > 0 && acts.last() is InjectDll ==> {
                count(acts, Action::SuspendProcess) == n && count(acts, Action::ResumeProcess) == n
            }
        }),
{
    lemma_run_inv(tools, gate, supported, events);
    if events.len() > 0 {
        lemma_run_inv(tools, gate, supported, events.drop_last());
    }
}

/// A launch whose liveness check finds the game already running fails with
/// `AlreadyRunning` at once: the check is the first action, and after the
/// failure nothing more is asked for, so no process or handle is ever created.
pub proof fn lemma_already_running_stops_first(
    tools: Seq<ToolKind>,
    gate: bool,
    supported: bool,
    events: Seq<Event>,
)
    requires
        events.len() >= 2,
        events[1] == Event::Present,
    ensures
        ({
            let (s, acts) = launch_run(tools, initial(gate, supported), events);
            &&& s.phase == Phase::Finished
            &&& acts[0] == Action::CheckRunning
            &&& acts[1] == Action::Fail(ErrorCode::AlreadyRunning)
            &&& forall|k: int| 2 <= k < acts.len() ==> #[trigger] acts[k] == Action::Idle
        }),
    decreases events.len(),
{
    let init = initial(gate, supported);
    if events.len() == 2 {
        let e1 = events.drop_last();
        assert(e1.drop_last().len() == 0);
        assert(e1.last() == events[0]);
        assert(events.last() == events[1]);
        assert(launch_run(tools, init, e1.drop_last()) == (init, Seq::<Action>::empty()));
        let (s1, a1) = launch_run(tools, init, e1);
        assert(a1 =~= seq![Action::CheckRunning]);
    } else {
        let prev = events.drop_last();
        assert(prev[1] == events[1]);
        lemma_already_running_stops_first(tools, gate, supported, prev);
        let (t, acts) = launch_run(tools, init, prev);
        let (s, all) = launch_run(tools, init, events);
        assert(all == acts.push(Action::Idle));
        assert forall|k: int| 2 <= k < all.len() implies #[trigger] all[k] == Action::Idle by {
            if k < acts.len() {
                assert(all[k] == acts[k]);
            }
        }
    }
}

/// Tools are handled in isolation: once the action for one tool was asked
/// for, what follows does not depend on its outcome, and the next tool gets
/// the action its kind calls for (a DLL is injected even after an earlier
/// tool failed or was skipped).
pub proof fn lemma_tool_outcome_isolated(tools: Seq<ToolKind>, s: LaunchCore, e1: Event, e2: Event)
    requires
        tools.len() <= usize::MAX,
        s.phase is Tool,
        s.phase->Tool_0 < tools.len(),
    ensures
        next(tools, s, e1) == next(tools, s, e2),
        next(tools, s, e1) == enter_tool(tools, s, (s.phase->Tool_0 + 1) as usize),
        s.phase->Tool_0 + 1 < tools.len() ==> next(tools, s, e1).1 == tool_action(
            tools[s.phase->Tool_0 + 1],
            (s.phase->Tool_0 + 1) as usize,
        ),
{
}

/// Whether the action of each of the first `n` tools was asked for in `acts`.
pub open spec fn tools_done(tools: Seq<ToolKind>, acts: Seq<Action>, n: int) -> bool {
    forall|j: int| 0 <= j < n ==> acts.contains(#[trigger] tool_action(tools[j], j as usize))
}

/// What a run has asked for of the tools, by phase.
pub open spec fn tools_inv(tools: Seq<ToolKind>, s: LaunchCore, acts: Seq<Action>) -> bool {
    match s.phase {
        Phase::Tool(i) => i < tools.len() && tools_done(tools, acts, i + 1),
        Phase::Releasing | Phase::StartingWatcher => s.failure is None ==> tools_done(
            tools,
            acts,
            tools.len() as int,
        ),
        _ => true,
    }
}

proof fn lemma_tools_done_push(tools: Seq<ToolKind>, acts: Seq<Action>, n: int, a: Action)
    requires
        tools_done(tools, acts, n),
    ensures
        tools_done(tools, acts.push(a), n),
{
    assert forall|j: int| 0 <= j < n implies acts.push(a).contains(#[trigger] tool_action(tools[j], j as usize)) by {
        let k = choose|k: int| 0 <= k < acts.len() && acts[k] == tool_action(tools[j], j as usize);
        assert(acts.push(a)[k] == acts[k]);
    }
}

proof fn lemma_tools_step(tools: Seq<ToolKind>, gate: bool, s: LaunchCore, acts: Seq<Action>, e: Event)
    requires
        tools.len() <= usize::MAX,
        run_inv(gate, s, acts),
        tools_inv(tools, s, acts),
    ensures
        tools_inv(tools, next(tools, s, e).0, acts.push(next(tools, s, e).1)),
{
    let t = next(tools, s, e).0;
    let a = next(tools, s, e).1;
    let all = acts.push(a);
    assert(all[acts.len() as int] == a);
    match s.phase {
        Phase::Tool(i) => {
            lemma_tools_done_push(tools, acts, i + 1, a);
            let j = (i + 1) as usize;
            assert(j as int == i + 1);
            assert(t == enter_tool(tools, s, j).0);
            if j >= tools.len() {
                assert(i + 1 == tools.len());
                assert(tools_done(tools, all, tools.len() as int));
            }
            if j < tools.len() {
                assert(a == tool_action(tools[j as int], j));
                assert(all.contains(tool_action(tools[j as int], j)));
                assert forall|m: int| 0 <= m < j + 1 implies all.contains(#[trigger] tool_action(tools[m], m as usize)) by {
                    if m < j {
                    } else {
                        assert(m == j);
                    }
                }
            }
        },
        Phase::Creating | Phase::ResumingGate => {
            if t.phase is Tool {
                assert(a == tool_action(tools[0], 0));
                assert(all.contains(tool_action(tools[0], 0usize)));
                assert forall|m: int| 0 <= m < 1 implies all.contains(#[trigger] tool_action(tools[m], m as usize)) by {
                    assert(m == 0);
                }
            }
        },
        Phase::Releasing => {
            if s.failure is None {
                lemma_tools_done_push(tools, acts, tools.len() as int, a);
            }
        },
        _ => {},
    }
}

proof fn lemma_run_tools(tools: Seq<ToolKind>, gate: bool, supported: bool, events: Seq<Event>)
    requires
        tools.len() <= usize::MAX,
    ensures
        tools_inv(tools, launch_run(tools, initial(gate, supported), events).0,
            launch_run(tools, initial(gate, supported), events).1),
    decreases events.len(),
{
    if events.len() > 0 {
        lemma_run_tools(tools, gate, supported, events.drop_last());
        lemma_run_inv(tools, gate, supported, events.drop_last());
        let (t, acts) = launch_run(tools, initial(gate, supported), events.drop_last());
        lemma_tools_step(tools, gate, t, acts, events.last());
    }
}

/// The primary thread is released on the success path only after every tool
/// has had its action asked for, whatever came of the earlier ones: each DLL
/// its injection, each program its start, each other tool its warning.
pub proof fn lemma_every_tool_before_release(
    tools: Seq<ToolKind>,
    gate: bool,
    supported: bool,
    events: Seq<Event>,
)
    requires
        tools.len() <= usize::MAX,
    ensures
        ({
            let (s, acts) = launch_run(tools, initial(gate, supported), events);
            acts.len() > 0 && acts.last() == Action::ReleaseHandles && s.failure is None ==> {
                &&& forall|j: int| 0 <= j < tools.len() ==> acts.contains(
                    #[trigger] tool_action(tools[j], j as usize),
                )
                &&& forall|j: int| 0 <= j < tools.len() && tools[j] == ToolKind::Dll ==> acts.contains(
                    Action::InjectDll(j as usize),
                )
            }
        }),
{
    lemma_run_tools(tools, gate, supported, events);
    lemma_run_inv(tools, gate, supported, events);
    let (s, acts) = launch_run(tools, initial(gate, supported), events);
    if acts.len() > 0 && acts.last() == Action::ReleaseHandles && s.failure is None {
        assert(s.phase == Phase::Releasing);
        assert forall|j: int| 0 <= j < tools.len() && tools[j] == ToolKind::Dll implies acts.contains(
            Action::InjectDll(j as usize),
        ) by {
            assert(tool_action(tools[j], j as usize) == Action::InjectDll(j as usize));
        }
    }
}

/// The handles of the game process are released at most once; every end of
/// a launch whose process was created has released them exactly once, and an
/// end before creation has released nothing. Once released, the launch asks
/// only for the watcher, its outcome, or nothing: the handles are not used.
pub proof fn lemma_handles_released_once(
    tools: Seq<ToolKind>,
    gate: bool,
    supported: bool,
    events: Seq<Event>,
    e: Event,
)
    ensures
        ({
            let (s, acts) = launch_run(tools, initial(gate, supported), events);
            let a = next(tools, s, e).1;
            &&& count(acts, Action::ReleaseHandles) <= 1
            &&& acts.len() > 0 && (acts.last() == Action::Complete || acts.last() is Fail) ==> count(
                acts,
                Action::ReleaseHandles,
            ) == if s.created { 1nat } else { 0nat }
            &&& count(acts, Action::ReleaseHandles) == 1 ==> (a == Action::StartWatcher || a
                == Action::Complete || a is Fail || a == Action::Idle)
        }),
{
    lemma_run_inv(tools, gate, supported, events);
    let (s, acts) = launch_run(tools, initial(gate, supported), events);
    if acts.len() > 0 && (acts.last() == Action::Complete || acts.last() is Fail) {
        lemma_run_inv(tools, gate, supported, events.drop_last());
        assert(s.phase == Phase::Finished);
    }
}

/// One launch spawns at most one watcher: exactly one when it completes, and
/// none when it fails.
pub proof fn lemma_one_watcher_per_launch(
    tools: Seq<ToolKind>,
    gate: bool,
    supported: bool,
    events: Seq<Event>,
)
    ensures
        ({
            let (s, acts) = launch_run(tools, initial(gate, supported), events);
            &&& count(acts, Action::StartWatcher) <= 1
            &&& acts.len() > 0 && acts.last() == Action::Complete ==> count(acts, Action::StartWatcher) == 1
            &&& acts.len() > 0 && acts.last() is Fail ==> count(acts, Action::StartWatcher) == 0
        }),
{
    lemma_run_inv(tools, gate, supported, events);
    let (s, acts) = launch_run(tools, initial(gate, supported), events);
    if acts.len() > 0 {
        lemma_run_inv(tools, gate, supported, events.drop_last());
    }
}

} // verus!
