//! Run-level laws of the orchestrator, proved over its transition relation
//! `spec_step`.

use crate::cmdline::command_line;
use crate::engine::ActionView;
use crate::engine::CommandOutcome;
use crate::engine::EnvVarView;
use crate::engine::Event;
use crate::engine::FrameView;
use crate::engine::PhaseView;
use crate::engine::RunErrorView;
use crate::engine::StateView;
use crate::engine::init_state;
use crate::engine::spec_step;
use crate::registry::ScriptDefView;
use vstd::prelude::*;

verus! {

/// A script with no dependencies and a run command: resolving it is one
/// invocation of the command runner on its template with the run's own
/// arguments — no other command is requested — and the run finishes as soon
/// as that command exits zero.
pub proof fn lemma_no_deps_runs_command_directly(
    reg: Map<Seq<char>, ScriptDefView>,
    env: Seq<EnvVarView>,
    name: Seq<char>,
    args: Seq<Seq<char>>,
    template: Seq<char>,
)
    requires
        reg.contains_key(name),
        reg[name].uses.len() == 0,
        reg[name].run == Option::Some(template),
    ensures
        ({
            let s0 = init_state(reg, env, name, args);
            let (s1, a1) = spec_step(s0, Event::Tick);
            let (s2, a2) = spec_step(s1, Event::Tick);
            a1 == ActionView::Working && a2 == (ActionView::RunCommand {
                script: name,
                line: command_line(template, args),
                show_stdout: reg[name].show_stdout,
                show_stderr: reg[name].show_stderr,
            }) && spec_step(s2, Event::CommandDone(CommandOutcome::Exited(0))).1
                == ActionView::Finished
        }),
{
    let s0 = init_state(reg, env, name, args);
    assert(s0.stack.last() == FrameView { script: name, args, phase: PhaseView::Enter });
    let (s1, a1) = spec_step(s0, Event::Tick);
    assert(s1.stack.last() == FrameView { script: name, args, phase: PhaseView::Deps { next: 0 } });
    let (s2, a2) = spec_step(s1, Event::Tick);
    assert(s2.stack.len() == 1);
}

/// Any nonzero exit from any command, dependency or top-level, halts the
/// whole run with a `CommandNonZeroExit` that names the script, the command
/// template, and the code.
pub proof fn lemma_nonzero_exit_aborts(s: StateView, template: Seq<char>, code: i32)
    requires
        !s.halted,
        s.stack.len() > 0,
        s.stack.last().phase == (PhaseView::AwaitCommand { template }),
        code != 0,
    ensures
        spec_step(s, Event::CommandDone(CommandOutcome::Exited(code))).0.halted,
        spec_step(s, Event::CommandDone(CommandOutcome::Exited(code))).1 == (ActionView::Failed {
            error: RunErrorView::CommandNonZeroExit {
                script: s.stack.last().script,
                command: template,
                code,
            },
        }),
{
}

/// A halted run is over: every further event leaves the state unchanged and
/// requests no work, so no further script is attempted.
pub proof fn lemma_halted_run_is_over(s: StateView, e: Event)
    requires
        s.halted,
    ensures
        spec_step(s, e).0 == s,
        spec_step(s, e).1 == ActionView::Working,
{
}

/// A name absent from the registry is resolved as an installed executable:
/// it runs directly, with the forwarded arguments and both streams visible,
/// consulting neither dependencies nor the cache; its zero exit finishes
/// the run.
pub proof fn lemma_external_executable_fallback(
    reg: Map<Seq<char>, ScriptDefView>,
    env: Seq<EnvVarView>,
    name: Seq<char>,
    args: Seq<Seq<char>>,
)
    requires
        !reg.contains_key(name),
    ensures
        ({
            let s0 = init_state(reg, env, name, args);
            let (s1, a1) = spec_step(s0, Event::Tick);
            let (s2, a2) = spec_step(s1, Event::ExecutableFound(true));
            a1 == (ActionView::LookupExecutable { name }) && s1.claimed == s0.claimed
                && s1.stack.len() == 1 && a2 == (ActionView::RunCommand {
                script: name,
                line: command_line(name, args),
                show_stdout: true,
                show_stderr: true,
            }) && s2.claimed == s0.claimed && s2.stack.len() == 1 && spec_step(
                s2,
                Event::CommandDone(CommandOutcome::Exited(0)),
            ).1 == ActionView::Finished
        }),
{
    let s0 = init_state(reg, env, name, args);
    assert(s0.stack.last() == FrameView { script: name, args, phase: PhaseView::Enter });
    let (s1, a1) = spec_step(s0, Event::Tick);
    assert(s1.stack.last() == FrameView {
        script: name,
        args,
        phase: PhaseView::AwaitExecutable,
    });
    let (s2, a2) = spec_step(s1, Event::ExecutableFound(true));
    assert(s2.stack.len() == 1);
}

/// A name found neither in the registry nor among the installed executables
/// fails the run with `ScriptNotFound`.
pub proof fn lemma_unknown_script_fails(
    reg: Map<Seq<char>, ScriptDefView>,
    env: Seq<EnvVarView>,
    name: Seq<char>,
    args: Seq<Seq<char>>,
)
    requires
        !reg.contains_key(name),
    ensures
        ({
            let s0 = init_state(reg, env, name, args);
            let (s1, a1) = spec_step(s0, Event::Tick);
            spec_step(s1, Event::ExecutableFound(false)).0.halted && spec_step(
                s1,
                Event::ExecutableFound(false),
            ).1 == (ActionView::Failed {
                error: RunErrorView::ScriptNotFound { script: name },
            })
        }),
{
    let s0 = init_state(reg, env, name, args);
    assert(s0.stack.last() == FrameView { script: name, args, phase: PhaseView::Enter });
    let (s1, a1) = spec_step(s0, Event::Tick);
    assert(s1.stack.last() == FrameView {
        script: name,
        args,
        phase: PhaseView::AwaitExecutable,
    });
}

/// Within one run a claim is never given back: whatever the event, a name
/// claimed before a step is still claimed after it.
pub proof fn lemma_claims_never_retract(s: StateView, e: Event, k: Seq<char>)
    requires
        s.claimed.contains_key(k),
        s.claimed[k] == true,
    ensures
        spec_step(s, e).0.claimed.contains_key(k),
        spec_step(s, e).0.claimed[k] == true,
{
}

/// A cacheable script whose name is already claimed is satisfied at once:
/// entering it requests no command, claims nothing new, and completes the
/// frame without touching its dependencies.
pub proof fn lemma_claimed_script_skipped(s: StateView)
    requires
        !s.halted,
        s.stack.len() > 0,
        s.stack.last().phase == PhaseView::Enter,
        s.reg.contains_key(s.stack.last().script),
        s.reg[s.stack.last().script].cacheable,
        s.claimed.contains_key(s.stack.last().script),
        s.claimed[s.stack.last().script] == true,
    ensures
        spec_step(s, Event::Tick).0.claimed == s.claimed,
        spec_step(s, Event::Tick).0.stack == s.stack.drop_last(),
        spec_step(s, Event::Tick).1 == ActionView::Finished || spec_step(s, Event::Tick).1
            == ActionView::Working,
{
}

/// Entering an unclaimed cacheable script claims it before anything runs:
/// the step that moves it to dependency resolution already records the
/// claim that later references will observe.
pub proof fn lemma_first_entry_claims(s: StateView)
    requires
        !s.halted,
        s.stack.len() > 0,
        s.stack.last().phase == PhaseView::Enter,
        s.reg.contains_key(s.stack.last().script),
        s.reg[s.stack.last().script].cacheable,
        !(s.claimed.contains_key(s.stack.last().script) && s.claimed[s.stack.last().script]
            == true),
    ensures
        spec_step(s, Event::Tick).0.claimed == s.claimed.insert(s.stack.last().script, true),
        spec_step(s, Event::Tick).1 == ActionView::Working,
{
}

/// Whether the action asks the driver to run a command for this script.
pub open spec fn is_command_for(a: ActionView, name: Seq<char>) -> bool {
    match a {
        ActionView::RunCommand { script, .. } => script == name,
        _ => false,
    }
}

/// 1 when the frame is resolving this script's dependencies.
pub open spec fn deps_weight(f: FrameView, name: Seq<char>) -> nat {
    if f.script == name && f.phase is Deps {
        1
    } else {
        0
    }
}

/// 1 when the frame is waiting on this script's own command.
pub open spec fn await_weight(f: FrameView, name: Seq<char>) -> nat {
    if f.script == name && f.phase is AwaitCommand {
        1
    } else {
        0
    }
}

/// 1 when the frame is waiting on an executable lookup for this script.
pub open spec fn exe_weight(f: FrameView, name: Seq<char>) -> nat {
    if f.script == name && f.phase is AwaitExecutable {
        1
    } else {
        0
    }
}

/// How many frames of the stack are resolving this script's dependencies.
pub open spec fn deps_frames(v: Seq<FrameView>, name: Seq<char>) -> nat
    decreases v.len(),
{
    if v.len() == 0 {
        0
    } else {
        deps_frames(v.drop_last(), name) + deps_weight(v.last(), name)
    }
}

/// How many frames of the stack are waiting on this script's own command.
pub open spec fn await_frames(v: Seq<FrameView>, name: Seq<char>) -> nat
    decreases v.len(),
{
    if v.len() == 0 {
        0
    } else {
        await_frames(v.drop_last(), name) + await_weight(v.last(), name)
    }
}

/// How many frames of the stack are waiting on a lookup for this script.
pub open spec fn exe_frames(v: Seq<FrameView>, name: Seq<char>) -> nat
    decreases v.len(),
{
    if v.len() == 0 {
        0
    } else {
        exe_frames(v.drop_last(), name) + exe_weight(v.last(), name)
    }
}

/// The state a run reaches after this sequence of events.
pub open spec fn state_after(s: StateView, events: Seq<Event>) -> StateView
    decreases events.len(),
{
    if events.len() == 0 {
        s
    } else {
        state_after(spec_step(s, events[0]).0, events.drop_first())
    }
}

/// How many of the actions along this sequence of events ask the driver to
/// run a command for this script.
pub open spec fn commands_for(s: StateView, events: Seq<Event>, name: Seq<char>) -> nat
    decreases events.len(),
{
    if events.len() == 0 {
        0
    } else {
        (if is_command_for(spec_step(s, events[0]).1, name) {
            1nat
        } else {
            0nat
        }) + commands_for(spec_step(s, events[0]).0, events.drop_first(), name)
    }
}

/// The memoization invariant for one cacheable script, counting the
/// commands already requested for it: until the name is claimed nothing has
/// run and no frame is past entry; once it is claimed, the requested
/// commands and the frames still resolving its dependencies total at most
/// one.
pub open spec fn once_inv(s: StateView, name: Seq<char>, emitted: nat) -> bool {
    &&& exe_frames(s.stack, name) == 0
    &&& if s.claimed.contains_key(name) && s.claimed[name] == true {
        emitted + deps_frames(s.stack, name) <= 1
    } else {
        emitted == 0 && deps_frames(s.stack, name) == 0 && await_frames(s.stack, name) == 0
    }
}

proof fn lemma_counts_update_top(v: Seq<FrameView>, f: FrameView, name: Seq<char>)
    requires
        v.len() > 0,
    ensures
        deps_frames(v.update(v.len() - 1, f), name) + deps_weight(v.last(), name) == deps_frames(
            v,
            name,
        ) + deps_weight(f, name),
        await_frames(v.update(v.len() - 1, f), name) + await_weight(v.last(), name)
            == await_frames(v, name) + await_weight(f, name),
        exe_frames(v.update(v.len() - 1, f), name) + exe_weight(v.last(), name) == exe_frames(
            v,
            name,
        ) + exe_weight(f, name),
{
    assert(v.update(v.len() - 1, f).drop_last() =~= v.drop_last());
    assert(v.update(v.len() - 1, f).last() == f);
}

proof fn lemma_counts_push(v: Seq<FrameView>, f: FrameView, name: Seq<char>)
    ensures
        deps_frames(v.push(f), name) == deps_frames(v, name) + deps_weight(f, name),
        await_frames(v.push(f), name) == await_frames(v, name) + await_weight(f, name),
        exe_frames(v.push(f), name) == exe_frames(v, name) + exe_weight(f, name),
{
    assert(v.push(f).drop_last() =~= v);
    assert(v.push(f).last() == f);
}

proof fn lemma_once_step(s: StateView, e: Event, name: Seq<char>, emitted: nat)
    requires
        s.reg.contains_key(name),
        s.reg[name].cacheable,
        once_inv(s, name, emitted),
    ensures
        spec_step(s, e).0.reg == s.reg,
        once_inv(
            spec_step(s, e).0,
            name,
            emitted + (if is_command_for(spec_step(s, e).1, name) {
                1nat
            } else {
                0nat
            }),
        ),
{
    if s.halted || s.stack.len() == 0 {
        return;
    }
    let top = s.stack.last();
    let v = s.stack;
    match (top.phase, e) {
        (PhaseView::Enter, Event::Tick) => {
            if s.reg.contains_key(top.script) {
                let def = s.reg[top.script];
                if def.cacheable && s.claimed.contains_key(top.script) && s.claimed[top.script]
                    == true {
                    assert(spec_step(s, e).0.stack == v.drop_last());
                } else {
                    lemma_counts_update_top(
                        v,
                        FrameView { phase: PhaseView::Deps { next: 0 }, ..top },
                        name,
                    );
                }
            } else {
                assert(top.script != name);
                lemma_counts_update_top(
                    v,
                    FrameView { phase: PhaseView::AwaitExecutable, ..top },
                    name,
                );
            }
        },
        (PhaseView::Deps { next }, Event::Tick) => {
            let def = s.reg[top.script];
            if !s.reg.contains_key(top.script) {
            } else if next < def.uses.len() {
                let parent = FrameView { phase: PhaseView::Deps { next: next + 1 }, ..top };
                let child = FrameView {
                    script: def.uses[next],
                    args: Seq::empty(),
                    phase: PhaseView::Enter,
                };
                lemma_counts_update_top(v, parent, name);
                lemma_counts_push(v.update(v.len() - 1, parent), child, name);
            } else {
                match def.run {
                    Option::Some(template) => {
                        let held = FrameView {
                            phase: PhaseView::AwaitCommand { template },
                            ..top
                        };
                        lemma_counts_update_top(v, held, name);
                        if top.script == name {
                            assert(deps_frames(v, name) >= deps_weight(v.last(), name));
                        }
                    },
                    Option::None => {
                        assert(spec_step(s, e).0.stack == v.drop_last());
                    },
                }
            }
        },
        (PhaseView::AwaitExecutable, Event::ExecutableFound(found)) => {
            assert(exe_frames(v, name) >= exe_weight(v.last(), name));
            assert(top.script != name);
            if found {
                lemma_counts_update_top(
                    v,
                    FrameView { phase: PhaseView::AwaitCommand { template: top.script }, ..top },
                    name,
                );
            }
        },
        (PhaseView::AwaitCommand { template }, Event::CommandDone(out)) => {
            match out {
                CommandOutcome::Exited(code) => {
                    if code == 0 {
                        assert(spec_step(s, e).0.stack == v.drop_last());
                        assert(await_frames(v, name) >= await_weight(v.last(), name));
                    }
                },
                _ => {},
            }
        },
        _ => {},
    }
}

proof fn lemma_once_trace(s: StateView, events: Seq<Event>, name: Seq<char>, emitted: nat)
    requires
        s.reg.contains_key(name),
        s.reg[name].cacheable,
        once_inv(s, name, emitted),
    ensures
        emitted + commands_for(s, events, name) <= 1,
    decreases events.len(),
{
    if events.len() > 0 {
        lemma_once_step(s, events[0], name, emitted);
        let step_count: nat = if is_command_for(spec_step(s, events[0]).1, name) {
            1nat
        } else {
            0nat
        };
        lemma_once_trace(
            spec_step(s, events[0]).0,
            events.drop_first(),
            name,
            emitted + step_count,
        );
    }
}

/// A cacheable script's command executes at most once per run: whatever
/// events the driver reports from the start of a run, at most one of the
/// machine's actions asks it to run a command for that script.
pub proof fn lemma_cacheable_runs_at_most_once(
    reg: Map<Seq<char>, ScriptDefView>,
    env: Seq<EnvVarView>,
    start: Seq<char>,
    args: Seq<Seq<char>>,
    events: Seq<Event>,
    name: Seq<char>,
)
    requires
        reg.contains_key(name),
        reg[name].cacheable,
    ensures
        commands_for(init_state(reg, env, start, args), events, name) <= 1,
{
    let s0 = init_state(reg, env, start, args);
    assert(s0.stack.drop_last() =~= Seq::<FrameView>::empty());
    assert(deps_frames(Seq::<FrameView>::empty(), name) == 0);
    assert(await_frames(Seq::<FrameView>::empty(), name) == 0);
    assert(exe_frames(Seq::<FrameView>::empty(), name) == 0);
    assert(deps_frames(s0.stack, name) == 0);
    assert(await_frames(s0.stack, name) == 0);
    assert(exe_frames(s0.stack, name) == 0);
    lemma_once_trace(s0, events, name, 0);
}


/// A rank witnessing that the registry's dependency graph is acyclic: it
/// strictly drops along every dependency edge between registry scripts. A
/// registry with a dependency cycle admits no such rank.
pub open spec fn ranked(
    reg: Map<Seq<char>, ScriptDefView>,
    rank: spec_fn(Seq<char>) -> nat,
) -> bool {
    forall|s: Seq<char>, i: int|
        reg.contains_key(s) && 0 <= i < reg[s].uses.len() && reg.contains_key(
            #[trigger] reg[s].uses[i],
        ) ==> rank(reg[s].uses[i]) < rank(s)
}

/// An upper bound on the answered events resolving this script can take,
/// under an acyclic registry.
pub open spec fn script_potential(
    reg: Map<Seq<char>, ScriptDefView>,
    rank: spec_fn(Seq<char>) -> nat,
    name: Seq<char>,
) -> nat
    decreases rank(name), 1int, 0int,
{
    if reg.contains_key(name) {
        3 + reg[name].uses.len() + uses_potential(reg, rank, rank(name), reg[name].uses, 0)
    } else {
        3
    }
}

/// The bound for the dependencies from position `i` on, under a parent of
/// rank `r`.
pub open spec fn uses_potential(
    reg: Map<Seq<char>, ScriptDefView>,
    rank: spec_fn(Seq<char>) -> nat,
    r: nat,
    uses: Seq<Seq<char>>,
    i: int,
) -> nat
    decreases r, 0int, uses.len() - i,
{
    if i < 0 || i >= uses.len() {
        0
    } else {
        (if reg.contains_key(uses[i]) && rank(uses[i]) < r {
            script_potential(reg, rank, uses[i])
        } else {
            3
        }) + uses_potential(reg, rank, r, uses, i + 1)
    }
}

/// The bound for one frame, by where its resolution stands.
pub open spec fn frame_potential(
    reg: Map<Seq<char>, ScriptDefView>,
    rank: spec_fn(Seq<char>) -> nat,
    f: FrameView,
) -> nat {
    match f.phase {
        PhaseView::Enter => script_potential(reg, rank, f.script),
        PhaseView::AwaitExecutable => 2,
        PhaseView::AwaitCommand { .. } => 1,
        PhaseView::Deps { next } => if reg.contains_key(f.script) {
            2 + (if next <= reg[f.script].uses.len() {
                (reg[f.script].uses.len() - next) as nat
            } else {
                0
            }) + uses_potential(reg, rank, rank(f.script), reg[f.script].uses, next)
        } else {
            1
        },
    }
}

/// The bound for a whole resolution stack.
pub open spec fn stack_potential(
    reg: Map<Seq<char>, ScriptDefView>,
    rank: spec_fn(Seq<char>) -> nat,
    v: Seq<FrameView>,
) -> nat
    decreases v.len(),
{
    if v.len() == 0 {
        0
    } else {
        stack_potential(reg, rank, v.drop_last()) + frame_potential(reg, rank, v.last())
    }
}

/// Whether the event answers the action the machine last requested, as a
/// correct driver does.
pub open spec fn answers(s: StateView, e: Event) -> bool {
    s.stack.len() > 0 && match (s.stack.last().phase, e) {
        (PhaseView::Enter, Event::Tick) => true,
        (PhaseView::Deps { .. }, Event::Tick) => true,
        (PhaseView::AwaitExecutable, Event::ExecutableFound(_)) => true,
        (PhaseView::AwaitCommand { .. }, Event::CommandDone(_)) => true,
        _ => false,
    }
}

/// Whether the driver answers every pending action along these events.
pub open spec fn well_driven(s: StateView, events: Seq<Event>) -> bool
    decreases events.len(),
{
    events.len() == 0 || ((s.halted || answers(s, events[0])) && well_driven(
        spec_step(s, events[0]).0,
        events.drop_first(),
    ))
}

proof fn lemma_potential_update_top(
    reg: Map<Seq<char>, ScriptDefView>,
    rank: spec_fn(Seq<char>) -> nat,
    v: Seq<FrameView>,
    f: FrameView,
)
    requires
        v.len() > 0,
    ensures
        stack_potential(reg, rank, v.update(v.len() - 1, f)) + frame_potential(reg, rank, v.last())
            == stack_potential(reg, rank, v) + frame_potential(reg, rank, f),
{
    assert(v.update(v.len() - 1, f).drop_last() =~= v.drop_last());
    assert(v.update(v.len() - 1, f).last() == f);
}

proof fn lemma_potential_push(
    reg: Map<Seq<char>, ScriptDefView>,
    rank: spec_fn(Seq<char>) -> nat,
    v: Seq<FrameView>,
    f: FrameView,
)
    ensures
        stack_potential(reg, rank, v.push(f)) == stack_potential(reg, rank, v) + frame_potential(
            reg,
            rank,
            f,
        ),
{
    assert(v.push(f).drop_last() =~= v);
    assert(v.push(f).last() == f);
}

/// Every dependency index on the stack is nonnegative, as the machine
/// keeps it.
pub open spec fn frames_wf(v: Seq<FrameView>) -> bool {
    forall|i: int|
        0 <= i < v.len() ==> match (#[trigger] v[i]).phase {
            PhaseView::Deps { next } => next >= 0,
            _ => true,
        }
}

/// Whether the frame keeps a nonnegative dependency index.
pub open spec fn frame_wf(f: FrameView) -> bool {
    match f.phase {
        PhaseView::Deps { next } => next >= 0,
        _ => true,
    }
}

proof fn lemma_wf_replace_top(v: Seq<FrameView>, f: FrameView)
    requires
        v.len() > 0,
        frames_wf(v),
        frame_wf(f),
    ensures
        frames_wf(v.update(v.len() - 1, f)),
{
    let w = v.update(v.len() - 1, f);
    assert forall|i: int| 0 <= i < w.len() implies match (#[trigger] w[i]).phase {
        PhaseView::Deps { next } => next >= 0,
        _ => true,
    } by {
        if i < v.len() - 1 {
            assert(w[i] == v[i]);
        }
    }
}

proof fn lemma_wf_push(v: Seq<FrameView>, f: FrameView)
    requires
        frames_wf(v),
        frame_wf(f),
    ensures
        frames_wf(v.push(f)),
{
    let w = v.push(f);
    assert forall|i: int| 0 <= i < w.len() implies match (#[trigger] w[i]).phase {
        PhaseView::Deps { next } => next >= 0,
        _ => true,
    } by {
        if i < v.len() {
            assert(w[i] == v[i]);
        }
    }
}

proof fn lemma_wf_drop_last(v: Seq<FrameView>)
    requires
        v.len() > 0,
        frames_wf(v),
    ensures
        frames_wf(v.drop_last()),
{
    let w = v.drop_last();
    assert forall|i: int| 0 <= i < w.len() implies match (#[trigger] w[i]).phase {
        PhaseView::Deps { next } => next >= 0,
        _ => true,
    } by {
        assert(w[i] == v[i]);
    }
}

proof fn lemma_step_progress(s: StateView, e: Event, rank: spec_fn(Seq<char>) -> nat)
    requires
        !s.halted,
        ranked(s.reg, rank),
        frames_wf(s.stack),
        answers(s, e),
    ensures
        spec_step(s, e).0.reg == s.reg,
        spec_step(s, e).0.halted || stack_potential(s.reg, rank, spec_step(s, e).0.stack)
            < stack_potential(s.reg, rank, s.stack),
        !spec_step(s, e).0.halted ==> spec_step(s, e).0.stack.len() > 0,
        frames_wf(spec_step(s, e).0.stack),
{
    let top = s.stack.last();
    let v = s.stack;
    assert(top == v[v.len() - 1]);
    assert(frame_wf(top));
    assert(stack_potential(s.reg, rank, v) == stack_potential(s.reg, rank, v.drop_last())
        + frame_potential(s.reg, rank, top));
    match (top.phase, e) {
        (PhaseView::Enter, Event::Tick) => {
            if s.reg.contains_key(top.script) {
                let def = s.reg[top.script];
                if def.cacheable && s.claimed.contains_key(top.script) && s.claimed[top.script]
                    == true {
                    assert(spec_step(s, e).0.stack == v.drop_last());
                    lemma_wf_drop_last(v);
                } else {
                    lemma_potential_update_top(
                        s.reg,
                        rank,
                        v,
                        FrameView { phase: PhaseView::Deps { next: 0 }, ..top },
                    );
                    lemma_wf_replace_top(v, FrameView { phase: PhaseView::Deps { next: 0 }, ..top });
                }
            } else {
                lemma_potential_update_top(
                    s.reg,
                    rank,
                    v,
                    FrameView { phase: PhaseView::AwaitExecutable, ..top },
                );
                lemma_wf_replace_top(v, FrameView { phase: PhaseView::AwaitExecutable, ..top });
            }
        },
        (PhaseView::Deps { next }, Event::Tick) => {
            if !s.reg.contains_key(top.script) {
            } else {
                let def = s.reg[top.script];
                if next < def.uses.len() {
                    let parent = FrameView { phase: PhaseView::Deps { next: next + 1 }, ..top };
                    let child = FrameView {
                        script: def.uses[next],
                        args: Seq::empty(),
                        phase: PhaseView::Enter,
                    };
                    lemma_potential_update_top(s.reg, rank, v, parent);
                    lemma_potential_push(s.reg, rank, v.update(v.len() - 1, parent), child);
                    lemma_wf_replace_top(v, parent);
                    lemma_wf_push(v.update(v.len() - 1, parent), child);
                    assert(uses_potential(s.reg, rank, rank(top.script), def.uses, next) == (
                    if s.reg.contains_key(def.uses[next]) && rank(def.uses[next]) < rank(
                        top.script,
                    ) {
                        script_potential(s.reg, rank, def.uses[next])
                    } else {
                        3nat
                    }) + uses_potential(s.reg, rank, rank(top.script), def.uses, next + 1));
                    if s.reg.contains_key(def.uses[next]) {
                        assert(rank(def.uses[next]) < rank(top.script));
                    }
                } else {
                    match def.run {
                        Option::Some(template) => {
                            lemma_potential_update_top(
                                s.reg,
                                rank,
                                v,
                                FrameView { phase: PhaseView::AwaitCommand { template }, ..top },
                            );
                            lemma_wf_replace_top(
                                v,
                                FrameView { phase: PhaseView::AwaitCommand { template }, ..top },
                            );
                        },
                        Option::None => {
                            assert(spec_step(s, e).0.stack == v.drop_last());
                            lemma_wf_drop_last(v);
                        },
                    }
                }
            }
        },
        (PhaseView::AwaitExecutable, Event::ExecutableFound(found)) => {
            if found {
                lemma_potential_update_top(
                    s.reg,
                    rank,
                    v,
                    FrameView { phase: PhaseView::AwaitCommand { template: top.script }, ..top },
                );
                lemma_wf_replace_top(
                    v,
                    FrameView { phase: PhaseView::AwaitCommand { template: top.script }, ..top },
                );
            }
        },
        (PhaseView::AwaitCommand { template }, Event::CommandDone(out)) => {
            match out {
                CommandOutcome::Exited(code) => {
                    if code == 0 {
                        assert(spec_step(s, e).0.stack == v.drop_last());
                        lemma_wf_drop_last(v);
                    }
                },
                _ => {},
            }
        },
        _ => {
            assert(false);
        },
    }
}

proof fn lemma_halted_stays(s: StateView, events: Seq<Event>)
    requires
        s.halted,
    ensures
        state_after(s, events).halted,
    decreases events.len(),
{
    if events.len() > 0 {
        lemma_halted_stays(spec_step(s, events[0]).0, events.drop_first());
    }
}

proof fn lemma_ranked_run_halts_from(
    s: StateView,
    events: Seq<Event>,
    rank: spec_fn(Seq<char>) -> nat,
)
    requires
        ranked(s.reg, rank),
        well_driven(s, events),
        frames_wf(s.stack),
        !s.halted ==> s.stack.len() > 0,
        !s.halted ==> events.len() >= stack_potential(s.reg, rank, s.stack),
    ensures
        state_after(s, events).halted,
    decreases events.len(),
{
    if s.halted {
        lemma_halted_stays(s, events);
    } else {
        assert(stack_potential(s.reg, rank, s.stack) == stack_potential(
            s.reg,
            rank,
            s.stack.drop_last(),
        ) + frame_potential(s.reg, rank, s.stack.last()));
        assert(frame_potential(s.reg, rank, s.stack.last()) >= 1);
        lemma_step_progress(s, events[0], rank);
        lemma_ranked_run_halts_from(spec_step(s, events[0]).0, events.drop_first(), rank);
    }
}

/// A run over an acyclic registry terminates. Acyclicity is witnessed by a
/// rank that strictly drops along every dependency edge between registry
/// scripts; a registry with a dependency cycle admits no such rank, and
/// there resolution can grow the stack without bound — the design accepts
/// that in place of cycle detection. For a correctly driven run, the
/// machine is halted — finished or failed — after at most
/// `script_potential` answered events, however each command ends.
pub proof fn lemma_acyclic_run_terminates(
    reg: Map<Seq<char>, ScriptDefView>,
    env: Seq<EnvVarView>,
    name: Seq<char>,
    args: Seq<Seq<char>>,
    events: Seq<Event>,
    rank: spec_fn(Seq<char>) -> nat,
)
    requires
        ranked(reg, rank),
        well_driven(init_state(reg, env, name, args), events),
        events.len() >= script_potential(reg, rank, name),
    ensures
        state_after(init_state(reg, env, name, args), events).halted,
{
    let s0 = init_state(reg, env, name, args);
    assert(s0.stack.drop_last() =~= Seq::<FrameView>::empty());
    assert(stack_potential(reg, rank, Seq::<FrameView>::empty()) == 0);
    assert(stack_potential(reg, rank, s0.stack) == frame_potential(reg, rank, s0.stack.last()));
    assert(frames_wf(s0.stack));
    lemma_ranked_run_halts_from(s0, events, rank);
}


} // verus!
