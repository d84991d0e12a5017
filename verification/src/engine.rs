//! The dependency resolver and orchestrator, as an explicit step machine.
//!
//! A driver owns the outside work: it performs each requested action (spawn
//! the system shell on a composed line, look a name up among the installed
//! executables) and hands the outcome back as the next event. Every decision
//! — registry lookup, memoization, dependency order, failure propagation —
//! is taken here and follows `spec_step`.

use crate::cache::ExecutionCache;
use crate::cache::cache_view;
use crate::cmdline::args_view;
use crate::cmdline::command_line;
use crate::cmdline::compose_command_line;
use crate::registry::Registry;
use crate::registry::ScriptDefView;
use vstd::prelude::*;

verus! {

/// One environment override: a variable set for every spawned subprocess.
pub struct EnvVar {
    pub name: String,
    pub value: String,
}

/// The mathematical image of one environment override.
#[verifier::ext_equal]
pub struct EnvVarView {
    pub name: Seq<char>,
    pub value: Seq<char>,
}

impl View for EnvVar {
    type V = EnvVarView;

    open spec fn view(&self) -> EnvVarView {
        EnvVarView { name: self.name@, value: self.value@ }
    }
}

/// The views of a sequence of environment overrides.
pub open spec fn env_view(s: Seq<EnvVar>) -> Seq<EnvVarView> {
    s.map_values(|v: EnvVar| v@)
}

/// How a spawned command ended, as the driver observed it.
#[derive(Clone, Copy, PartialEq, Eq, Structural, Debug)]
pub enum CommandOutcome {
    /// The subprocess exited with this code.
    Exited(i32),
    /// The subprocess ended without a usable exit code.
    TerminatedBySignal,
    /// The subprocess could not be created.
    SpawnFailed,
    /// The subprocess's completion status could not be obtained.
    WaitFailed,
}

/// What the driver reports to the machine.
#[derive(Clone, Copy, PartialEq, Eq, Structural, Debug)]
pub enum Event {
    /// The previous action was internal; there is nothing to report.
    Tick,
    /// Whether the requested name resolved to an installed executable.
    ExecutableFound(bool),
    /// How the requested command ended.
    CommandDone(CommandOutcome),
}

/// A fatal condition; the first one anywhere aborts the whole run.
#[derive(Debug)]
pub enum RunError {
    /// The name is neither in the registry nor an installed executable.
    ScriptNotFound { script: String },
    /// The subprocess could not be created.
    CommandSpawnFailure { script: String, command: String },
    /// The subprocess's completion status could not be obtained.
    CommandWaitFailure { script: String, command: String },
    /// The subprocess ended without a usable exit code.
    CommandSignalTermination { script: String, command: String },
    /// The subprocess completed with a nonzero exit code.
    CommandNonZeroExit { script: String, command: String, code: i32 },
}

/// The mathematical image of a fatal condition.
#[verifier::ext_equal]
pub enum RunErrorView {
    ScriptNotFound { script: Seq<char> },
    CommandSpawnFailure { script: Seq<char>, command: Seq<char> },
    CommandWaitFailure { script: Seq<char>, command: Seq<char> },
    CommandSignalTermination { script: Seq<char>, command: Seq<char> },
    CommandNonZeroExit { script: Seq<char>, command: Seq<char>, code: i32 },
}

impl View for RunError {
    type V = RunErrorView;

    open spec fn view(&self) -> RunErrorView {
        match self {
            RunError::ScriptNotFound { script } => RunErrorView::ScriptNotFound {
                script: script@,
            },
            RunError::CommandSpawnFailure { script, command } => RunErrorView::CommandSpawnFailure {
                script: script@,
                command: command@,
            },
            RunError::CommandWaitFailure { script, command } => RunErrorView::CommandWaitFailure {
                script: script@,
                command: command@,
            },
            RunError::CommandSignalTermination {
                script,
                command,
            } => RunErrorView::CommandSignalTermination { script: script@, command: command@ },
            RunError::CommandNonZeroExit {
                script,
                command,
                code,
            } => RunErrorView::CommandNonZeroExit {
                script: script@,
                command: command@,
                code: *code,
            },
        }
    }
}

/// What the machine asks the driver to do next.
#[derive(Debug)]
pub enum Action {
    /// Spawn the system shell on this composed line, with the run's
    /// environment overrides, and report the outcome as `CommandDone`.
    RunCommand { script: String, line: String, show_stdout: bool, show_stderr: bool },
    /// Ask whether this name resolves to an installed executable and report
    /// the answer as `ExecutableFound`.
    LookupExecutable { name: String },
    /// Internal work remains: report `Tick`.
    Working,
    /// The requested script resolved completely; the run succeeded.
    Finished,
    /// The run failed; no further scripts are attempted.
    Failed { error: RunError },
}

/// The mathematical image of an action.
#[verifier::ext_equal]
pub enum ActionView {
    RunCommand { script: Seq<char>, line: Seq<char>, show_stdout: bool, show_stderr: bool },
    LookupExecutable { name: Seq<char> },
    Working,
    Finished,
    Failed { error: RunErrorView },
}

impl View for Action {
    type V = ActionView;

    open spec fn view(&self) -> ActionView {
        match self {
            Action::RunCommand { script, line, show_stdout, show_stderr } => ActionView::RunCommand {
                script: script@,
                line: line@,
                show_stdout: *show_stdout,
                show_stderr: *show_stderr,
            },
            Action::LookupExecutable { name } => ActionView::LookupExecutable { name: name@ },
            Action::Working => ActionView::Working,
            Action::Finished => ActionView::Finished,
            Action::Failed { error } => ActionView::Failed { error: error@ },
        }
    }
}

/// Where one script's resolution stands.
pub enum Phase {
    /// Not yet looked up in the registry.
    Enter,
    /// Waiting to hear whether an installed executable carries the name.
    AwaitExecutable,
    /// Dependencies before `next` are resolved; none after it is started.
    Deps { next: usize },
    /// The script's own command is running; the template is kept so a
    /// failure can name it.
    AwaitCommand { template: String },
}

/// The mathematical image of a phase.
#[verifier::ext_equal]
pub enum PhaseView {
    Enter,
    AwaitExecutable,
    Deps { next: int },
    AwaitCommand { template: Seq<char> },
}

impl View for Phase {
    type V = PhaseView;

    open spec fn view(&self) -> PhaseView {
        match self {
            Phase::Enter => PhaseView::Enter,
            Phase::AwaitExecutable => PhaseView::AwaitExecutable,
            Phase::Deps { next } => PhaseView::Deps { next: *next as int },
            Phase::AwaitCommand { template } => PhaseView::AwaitCommand { template: template@ },
        }
    }
}

/// One entry of the resolution stack: a script, the arguments it was
/// invoked with, and where its resolution stands.
pub struct Frame {
    pub script: String,
    pub args: Vec<String>,
    pub phase: Phase,
}

/// The mathematical image of a frame.
#[verifier::ext_equal]
pub struct FrameView {
    pub script: Seq<char>,
    pub args: Seq<Seq<char>>,
    pub phase: PhaseView,
}

impl View for Frame {
    type V = FrameView;

    open spec fn view(&self) -> FrameView {
        FrameView { script: self.script@, args: args_view(self.args@), phase: self.phase@ }
    }
}

/// The views of a stack of frames.
pub open spec fn frames_view(s: Seq<Frame>) -> Seq<FrameView> {
    s.map_values(|f: Frame| f@)
}

/// The whole machine state: the registry and environment (read-only for the
/// run), the claim table, the resolution stack, and whether the run ended.
#[verifier::ext_equal]
pub struct StateView {
    pub reg: Map<Seq<char>, ScriptDefView>,
    pub env: Seq<EnvVarView>,
    pub claimed: Map<Seq<char>, bool>,
    pub stack: Seq<FrameView>,
    pub halted: bool,
}

/// The machine's state at the start of a run for one requested script.
pub open spec fn init_state(
    reg: Map<Seq<char>, ScriptDefView>,
    env: Seq<EnvVarView>,
    script: Seq<char>,
    args: Seq<Seq<char>>,
) -> StateView {
    StateView {
        reg,
        env,
        claimed: Map::empty(),
        stack: seq![FrameView { script, args, phase: PhaseView::Enter }],
        halted: false,
    }
}

/// The state after the top frame completes: it is popped, and the run is
/// finished when nothing remains below it.
pub open spec fn pop_top(s: StateView) -> (StateView, ActionView) {
    if s.stack.len() <= 1 {
        (StateView { stack: s.stack.drop_last(), halted: true, ..s }, ActionView::Finished)
    } else {
        (StateView { stack: s.stack.drop_last(), ..s }, ActionView::Working)
    }
}

/// The state after a fatal condition: the run halts with that error.
pub open spec fn fail_with(s: StateView, e: RunErrorView) -> (StateView, ActionView) {
    (StateView { halted: true, ..s }, ActionView::Failed { error: e })
}

/// The same state with the top frame moved to another phase.
pub open spec fn with_top_phase(s: StateView, p: PhaseView) -> StateView {
    StateView {
        stack: s.stack.update(
            s.stack.len() - 1,
            FrameView { phase: p, ..s.stack.last() },
        ),
        ..s
    }
}

/// Entering a script: look it up; fall back to an installed executable when
/// it is absent; when it is cacheable, claim it or yield to a prior claim.
pub open spec fn spec_enter(s: StateView, top: FrameView) -> (StateView, ActionView) {
    if s.reg.contains_key(top.script) {
        let def = s.reg[top.script];
        if def.cacheable {
            if s.claimed.contains_key(top.script) && s.claimed[top.script] == true {
                pop_top(s)
            } else {
                let s2 = StateView { claimed: s.claimed.insert(top.script, true), ..s };
                (with_top_phase(s2, PhaseView::Deps { next: 0 }), ActionView::Working)
            }
        } else {
            (with_top_phase(s, PhaseView::Deps { next: 0 }), ActionView::Working)
        }
    } else {
        (
            with_top_phase(s, PhaseView::AwaitExecutable),
            ActionView::LookupExecutable { name: top.script },
        )
    }
}

/// Resolving dependencies: start the next one, or, when all are resolved,
/// run the script's own command, or complete without one.
pub open spec fn spec_deps(s: StateView, top: FrameView, next: int) -> (StateView, ActionView) {
    if !s.reg.contains_key(top.script) {
        fail_with(s, RunErrorView::ScriptNotFound { script: top.script })
    } else {
        let def = s.reg[top.script];
        if next < def.uses.len() {
            let s2 = with_top_phase(s, PhaseView::Deps { next: next + 1 });
            let child = FrameView {
                script: def.uses[next],
                args: Seq::empty(),
                phase: PhaseView::Enter,
            };
            (StateView { stack: s2.stack.push(child), ..s2 }, ActionView::Working)
        } else {
            match def.run {
                Option::Some(template) => (
                    with_top_phase(s, PhaseView::AwaitCommand { template }),
                    ActionView::RunCommand {
                        script: top.script,
                        line: command_line(template, top.args),
                        show_stdout: def.show_stdout,
                        show_stderr: def.show_stderr,
                    },
                ),
                Option::None => pop_top(s),
            }
        }
    }
}

/// The executable fallback: run the like-named installed executable with the
/// forwarded arguments and both streams visible, or fail when there is none.
pub open spec fn spec_executable(s: StateView, top: FrameView, found: bool) -> (
    StateView,
    ActionView,
) {
    if found {
        (
            with_top_phase(s, PhaseView::AwaitCommand { template: top.script }),
            ActionView::RunCommand {
                script: top.script,
                line: command_line(top.script, top.args),
                show_stdout: true,
                show_stderr: true,
            },
        )
    } else {
        fail_with(s, RunErrorView::ScriptNotFound { script: top.script })
    }
}

/// A command ended: zero completes the frame; anything else is fatal.
pub open spec fn spec_command_done(
    s: StateView,
    top: FrameView,
    template: Seq<char>,
    out: CommandOutcome,
) -> (StateView, ActionView) {
    match out {
        CommandOutcome::Exited(code) => if code == 0 {
            pop_top(s)
        } else {
            fail_with(
                s,
                RunErrorView::CommandNonZeroExit {
                    script: top.script,
                    command: template,
                    code: code,
                },
            )
        },
        CommandOutcome::TerminatedBySignal => fail_with(
            s,
            RunErrorView::CommandSignalTermination { script: top.script, command: template },
        ),
        CommandOutcome::SpawnFailed => fail_with(
            s,
            RunErrorView::CommandSpawnFailure { script: top.script, command: template },
        ),
        CommandOutcome::WaitFailed => fail_with(
            s,
            RunErrorView::CommandWaitFailure { script: top.script, command: template },
        ),
    }
}

/// The transition relation of the orchestrator: from a state and an event to
/// the next state and the requested action. An event that does not answer
/// the pending action leaves the state unchanged.
pub open spec fn spec_step(s: StateView, e: Event) -> (StateView, ActionView) {
    if s.halted || s.stack.len() == 0 {
        (s, ActionView::Working)
    } else {
        let top = s.stack.last();
        match (top.phase, e) {
            (PhaseView::Enter, Event::Tick) => spec_enter(s, top),
            (PhaseView::Deps { next }, Event::Tick) => spec_deps(s, top, next),
            (PhaseView::AwaitExecutable, Event::ExecutableFound(found)) => spec_executable(
                s,
                top,
                found,
            ),
            (PhaseView::AwaitCommand { template }, Event::CommandDone(out)) => spec_command_done(
                s,
                top,
                template,
                out,
            ),
            _ => (s, ActionView::Working),
        }
    }
}

/// The orchestrator of one run: the registry, the environment overrides,
/// the per-run cache, and the stack of scripts being resolved.
pub struct Orchestrator {
    registry: Registry,
    env: Vec<EnvVar>,
    cache: ExecutionCache,
    stack: Vec<Frame>,
    halted: bool,
}

impl View for Orchestrator {
    type V = StateView;

    closed spec fn view(&self) -> StateView {
        StateView {
            reg: self.registry@,
            env: env_view(self.env@),
            claimed: cache_view(self.cache),
            stack: frames_view(self.stack@),
            halted: self.halted,
        }
    }
}

proof fn lemma_frames_push(v: Seq<Frame>, f: Frame)
    ensures
        frames_view(v.push(f)) =~= frames_view(v).push(f@),
{
}

proof fn lemma_frames_drop_last(v: Seq<Frame>)
    requires
        v.len() > 0,
    ensures
        frames_view(v.drop_last()) =~= frames_view(v).drop_last(),
{
}

impl Orchestrator {
    /// Begin a run: one frame for the requested script and its arguments, a
    /// fresh cache, and the given registry and environment overrides.
    pub fn new(
        registry: Registry,
        env: Vec<EnvVar>,
        script: String,
        args: Vec<String>,
    ) -> (r: Orchestrator)
        ensures
            r@ =~~= init_state(registry@, env_view(env@), script@, args_view(args@)),
    {
        let ghost script_view = script@;
        let ghost args_v = args_view(args@);
        let mut stack: Vec<Frame> = Vec::new();
        stack.push(Frame { script, args, phase: Phase::Enter });
        let r = Orchestrator { registry, env, cache: ExecutionCache::new(), stack, halted: false };
        proof {
            assert(frames_view(r.stack@) =~= seq![
                FrameView { script: script_view, args: args_v, phase: PhaseView::Enter },
            ]);
        }
        r
    }

    /// Whether the run has ended, by finishing or by failing.
    pub fn is_halted(&self) -> (r: bool)
        ensures
            r == self@.halted,
    {
        self.halted
    }

    /// The environment overrides shared by every subprocess invocation.
    pub fn env_overrides(&self) -> (r: &Vec<EnvVar>)
        ensures
            env_view(r@) == self@.env,
    {
        &self.env
    }

    /// One transition: consume the event that answers the previous action
    /// and return the next one. Follows `spec_step` exactly.
    pub fn step(&mut self, e: Event) -> (r: Action)
        ensures
            final(self)@ =~~= spec_step(old(self)@, e).0,
            r@ =~~= spec_step(old(self)@, e).1,
    {
        if self.halted {
            return Action::Working;
        }
        if self.stack.len() == 0 {
            return Action::Working;
        }
        let ghost s0 = self@;
        let popped = self.stack.pop().unwrap();
        let Frame { script, args, phase } = popped;
        proof {
            lemma_frames_drop_last(old(self).stack@);
            assert(s0.stack.last() == FrameView {
                script: script@,
                args: args_view(args@),
                phase: phase@,
            });
        }
        match (phase, e) {
            (Phase::Enter, Event::Tick) => {
                match self.registry.lookup(&script) {
                    Option::Some(def) => {
                        if def.cacheable {
                            let was = self.cache.check_and_claim(&script);
                            if was {
                                if self.stack.len() == 0 {
                                    self.halted = true;
                                    return Action::Finished;
                                } else {
                                    return Action::Working;
                                }
                            } else {
                                let show = Phase::Deps { next: 0 };
                                self.stack.push(Frame { script, args, phase: show });
                                proof {
                                    lemma_frames_push(
                                        old(self).stack@.drop_last(),
                                        self.stack@.last(),
                                    );
                                    assert(final(self)@.stack =~~= spec_step(s0, e).0.stack);
                                }
                                return Action::Working;
                            }
                        } else {
                            let show = Phase::Deps { next: 0 };
                            self.stack.push(Frame { script, args, phase: show });
                            proof {
                                lemma_frames_push(
                                    old(self).stack@.drop_last(),
                                    self.stack@.last(),
                                );
                                assert(final(self)@.stack =~~= spec_step(s0, e).0.stack);
                            }
                            return Action::Working;
                        }
                    },
                    Option::None => {
                        let name_out = script.clone();
                        self.stack.push(Frame { script, args, phase: Phase::AwaitExecutable });
                        proof {
                            lemma_frames_push(old(self).stack@.drop_last(), self.stack@.last());
                            assert(final(self)@.stack =~~= spec_step(s0, e).0.stack);
                        }
                        return Action::LookupExecutable { name: name_out };
                    },
                }
            },
            (Phase::Deps { next }, Event::Tick) => {
                match self.registry.lookup(&script) {
                    Option::None => {
                        let script_out = script.clone();
                        self.stack.push(Frame { script, args, phase: Phase::Deps { next } });
                        self.halted = true;
                        proof {
                            lemma_frames_push(old(self).stack@.drop_last(), self.stack@.last());
                            assert(final(self)@.stack =~~= s0.stack);
                        }
                        return Action::Failed {
                            error: RunError::ScriptNotFound { script: script_out },
                        };
                    },
                    Option::Some(def) => {
                        if next < def.uses.len() {
                            let child_name = def.uses[next].clone();
                            let parent = Phase::Deps { next: next + 1 };
                            self.stack.push(Frame { script, args, phase: parent });
                            self.stack.push(
                                Frame { script: child_name, args: Vec::new(), phase: Phase::Enter },
                            );
                            proof {
                                lemma_frames_push(
                                    old(self).stack@.drop_last(),
                                    self.stack@.drop_last().last(),
                                );
                                lemma_frames_push(
                                    old(self).stack@.drop_last().push(
                                        self.stack@.drop_last().last(),
                                    ),
                                    self.stack@.last(),
                                );
                                assert(args_view(Seq::<String>::empty()) =~= Seq::<
                                    Seq<char>,
                                >::empty());
                                assert(final(self)@.stack =~~= spec_step(s0, e).0.stack);
                            }
                            return Action::Working;
                        } else {
                            match &def.run {
                                Option::Some(t) => {
                                    let template = t.clone();
                                    let line = compose_command_line(&template, &args);
                                    let show_stdout = def.show_stdout;
                                    let show_stderr = def.show_stderr;
                                    let script_out = script.clone();
                                    let held = Phase::AwaitCommand { template };
                                    self.stack.push(Frame { script, args, phase: held });
                                    proof {
                                        lemma_frames_push(
                                            old(self).stack@.drop_last(),
                                            self.stack@.last(),
                                        );
                                        assert(final(self)@.stack =~~= spec_step(s0, e).0.stack);
                                    }
                                    return Action::RunCommand {
                                        script: script_out,
                                        line,
                                        show_stdout,
                                        show_stderr,
                                    };
                                },
                                Option::None => {
                                    if self.stack.len() == 0 {
                                        self.halted = true;
                                        return Action::Finished;
                                    } else {
                                        return Action::Working;
                                    }
                                },
                            }
                        }
                    },
                }
            },
            (Phase::AwaitExecutable, Event::ExecutableFound(found)) => {
                if found {
                    let template = script.clone();
                    let line = compose_command_line(&script, &args);
                    let script_out = script.clone();
                    let held = Phase::AwaitCommand { template };
                    self.stack.push(Frame { script, args, phase: held });
                    proof {
                        lemma_frames_push(old(self).stack@.drop_last(), self.stack@.last());
                        assert(final(self)@.stack =~~= spec_step(s0, e).0.stack);
                    }
                    return Action::RunCommand {
                        script: script_out,
                        line,
                        show_stdout: true,
                        show_stderr: true,
                    };
                } else {
                    let script_out = script.clone();
                    self.stack.push(Frame { script, args, phase: Phase::AwaitExecutable });
                    self.halted = true;
                    proof {
                        lemma_frames_push(old(self).stack@.drop_last(), self.stack@.last());
                        assert(final(self)@.stack =~~= s0.stack);
                    }
                    return Action::Failed { error: RunError::ScriptNotFound { script: script_out } };
                }
            },
            (Phase::AwaitCommand { template }, Event::CommandDone(out)) => {
                if let CommandOutcome::Exited(0i32) = out {
                    if self.stack.len() == 0 {
                        self.halted = true;
                        return Action::Finished;
                    } else {
                        return Action::Working;
                    }
                }
                let script_out = script.clone();
                let template_out = template.clone();
                let held = Phase::AwaitCommand { template };
                self.stack.push(Frame { script, args, phase: held });
                self.halted = true;
                proof {
                    lemma_frames_push(old(self).stack@.drop_last(), self.stack@.last());
                    assert(final(self)@.stack =~~= s0.stack);
                }
                match out {
                    CommandOutcome::Exited(code) => {
                        return Action::Failed {
                            error: RunError::CommandNonZeroExit {
                                script: script_out,
                                command: template_out,
                                code,
                            },
                        };
                    },
                    CommandOutcome::TerminatedBySignal => {
                        return Action::Failed {
                            error: RunError::CommandSignalTermination {
                                script: script_out,
                                command: template_out,
                            },
                        };
                    },
                    CommandOutcome::SpawnFailed => {
                        return Action::Failed {
                            error: RunError::CommandSpawnFailure {
                                script: script_out,
                                command: template_out,
                            },
                        };
                    },
                    CommandOutcome::WaitFailed => {
                        return Action::Failed {
                            error: RunError::CommandWaitFailure {
                                script: script_out,
                                command: template_out,
                            },
                        };
                    },
                }
            },
            (p, _) => {
                self.stack.push(Frame { script, args, phase: p });
                proof {
                    lemma_frames_push(old(self).stack@.drop_last(), self.stack@.last());
                    assert(final(self)@.stack =~~= s0.stack);
                }
                return Action::Working;
            },
        }
    }
}

} // verus!
