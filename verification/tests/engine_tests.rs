use fae::engine::Action;
use fae::engine::EnvVar;
use fae::engine::CommandOutcome;
use fae::engine::Event;
use fae::engine::Orchestrator;
use fae::engine::RunError;
use fae::registry::Registry;
use fae::registry::ScriptDef;

fn script(uses: &[&str], run: Option<&str>, cacheable: bool) -> ScriptDef {
    ScriptDef {
        uses: uses.iter().map(|s| s.to_string()).collect(),
        run: run.map(|s| s.to_string()),
        show_stdout: true,
        show_stderr: true,
        cacheable,
    }
}

fn start(registry: Registry, name: &str, args: &[&str]) -> Orchestrator {
    let args: Vec<String> = args.iter().map(|a| a.to_string()).collect();
    Orchestrator::new(registry, Vec::new(), name.to_string(), args)
}

/// Drives the machine to its end, answering every executable lookup with
/// `exe_exists` and every command with the exit code `code_for` gives.
/// Returns the commands requested (script, line, stdout, stderr), the
/// lookups requested, and how the run ended.
fn drive(
    mut orch: Orchestrator,
    code_for: &dyn Fn(&str) -> i32,
    exe_exists: bool,
) -> (Vec<(String, String, bool, bool)>, Vec<String>, Result<(), RunError>) {
    let mut commands = Vec::new();
    let mut lookups = Vec::new();
    let mut event = Event::Tick;
    loop {
        match orch.step(event) {
            Action::Working => {
                event = Event::Tick;
            }
            Action::LookupExecutable { name } => {
                lookups.push(name);
                event = Event::ExecutableFound(exe_exists);
            }
            Action::RunCommand {
                script,
                line,
                show_stdout,
                show_stderr,
            } => {
                let code = code_for(&script);
                commands.push((script, line, show_stdout, show_stderr));
                event = Event::CommandDone(CommandOutcome::Exited(code));
            }
            Action::Finished => return (commands, lookups, Ok(())),
            Action::Failed { error } => return (commands, lookups, Err(error)),
        }
    }
}

#[test]
fn leaf_script_runs_template_directly() {
    let mut registry = Registry::new();
    registry.insert("hello".to_string(), script(&[], Some("echo hi"), true));
    let (commands, lookups, outcome) = drive(start(registry, "hello", &["world x"]), &|_| 0, false);
    assert!(outcome.is_ok());
    assert!(lookups.is_empty());
    assert_eq!(commands.len(), 1);
    assert_eq!(commands[0].0, "hello");
    assert_eq!(commands[0].1, "echo hi 'world x'");
}

#[test]
fn shared_dependency_runs_once() {
    let mut registry = Registry::new();
    registry.insert("a".to_string(), script(&["b", "c"], None, true));
    registry.insert("b".to_string(), script(&["c"], None, true));
    registry.insert("c".to_string(), script(&[], Some("true"), true));
    let (commands, _, outcome) = drive(start(registry, "a", &[]), &|_| 0, false);
    assert!(outcome.is_ok());
    assert_eq!(commands.len(), 1);
    assert_eq!(commands[0].0, "c");
    assert_eq!(commands[0].1, "true");
}

#[test]
fn non_cacheable_runs_once_per_reference() {
    let mut registry = Registry::new();
    registry.insert("a".to_string(), script(&["b", "c"], None, true));
    registry.insert("b".to_string(), script(&["c"], None, true));
    registry.insert("c".to_string(), script(&[], Some("true"), false));
    let (commands, _, outcome) = drive(start(registry, "a", &[]), &|_| 0, false);
    assert!(outcome.is_ok());
    assert_eq!(commands.len(), 2);
    assert_eq!(commands[0].0, "c");
    assert_eq!(commands[1].0, "c");
}

#[test]
fn nonzero_exit_aborts_run() {
    let mut registry = Registry::new();
    registry.insert("a".to_string(), script(&["b", "c"], Some("echo done"), true));
    registry.insert("b".to_string(), script(&[], Some("false"), true));
    registry.insert("c".to_string(), script(&[], Some("true"), true));
    let code_for = |name: &str| if name == "b" { 1 } else { 0 };
    let (commands, _, outcome) = drive(start(registry, "a", &[]), &code_for, false);
    assert_eq!(commands.len(), 1);
    assert_eq!(commands[0].0, "b");
    match outcome {
        Err(RunError::CommandNonZeroExit { script, command, code }) => {
            assert_eq!(script, "b");
            assert_eq!(command, "false");
            assert_eq!(code, 1);
        }
        other => panic!("expected a nonzero-exit failure, got {:?}", other),
    }
}

#[test]
fn external_executable_forwards_args() {
    let registry = Registry::new();
    let (commands, lookups, outcome) = drive(start(registry, "tool", &["x y"]), &|_| 0, true);
    assert!(outcome.is_ok());
    assert_eq!(lookups, vec!["tool".to_string()]);
    assert_eq!(commands.len(), 1);
    assert_eq!(commands[0].0, "tool");
    assert_eq!(commands[0].1, "tool 'x y'");
    assert!(commands[0].2);
    assert!(commands[0].3);
}

#[test]
fn unknown_script_fails() {
    let registry = Registry::new();
    let (commands, _, outcome) = drive(start(registry, "ghost", &[]), &|_| 0, false);
    assert!(commands.is_empty());
    match outcome {
        Err(RunError::ScriptNotFound { script }) => assert_eq!(script, "ghost"),
        other => panic!("expected a script-not-found failure, got {:?}", other),
    }
}

#[test]
fn stream_flags_are_forwarded() {
    let mut registry = Registry::new();
    let mut quiet = script(&[], Some("true"), true);
    quiet.show_stdout = false;
    registry.insert("quiet".to_string(), quiet);
    let (commands, _, outcome) = drive(start(registry, "quiet", &[]), &|_| 0, false);
    assert!(outcome.is_ok());
    assert_eq!(commands.len(), 1);
    assert!(!commands[0].2);
    assert!(commands[0].3);
}

#[test]
fn dependencies_get_empty_args_and_run_first() {
    let mut registry = Registry::new();
    registry.insert("a".to_string(), script(&["b"], Some("echo top"), true));
    registry.insert("b".to_string(), script(&[], Some("echo dep"), true));
    let (commands, _, outcome) = drive(start(registry, "a", &["p q"]), &|_| 0, false);
    assert!(outcome.is_ok());
    assert_eq!(commands.len(), 2);
    assert_eq!(commands[0].0, "b");
    assert_eq!(commands[0].1, "echo dep");
    assert_eq!(commands[1].0, "a");
    assert_eq!(commands[1].1, "echo top 'p q'");
}

fn step_until_command(orch: &mut Orchestrator) {
    loop {
        match orch.step(Event::Tick) {
            Action::Working => continue,
            Action::RunCommand { .. } => return,
            other => panic!("expected a command request, got {:?}", other),
        }
    }
}

fn failing_machine() -> Orchestrator {
    let mut registry = Registry::new();
    registry.insert("job".to_string(), script(&[], Some("true"), true));
    start(registry, "job", &[])
}

#[test]
fn spawn_failure_aborts_run() {
    let mut orch = failing_machine();
    step_until_command(&mut orch);
    match orch.step(Event::CommandDone(CommandOutcome::SpawnFailed)) {
        Action::Failed { error: RunError::CommandSpawnFailure { script, command } } => {
            assert_eq!(script, "job");
            assert_eq!(command, "true");
        }
        other => panic!("expected a spawn failure, got {:?}", other),
    }
    assert!(orch.is_halted());
}

#[test]
fn wait_failure_aborts_run() {
    let mut orch = failing_machine();
    step_until_command(&mut orch);
    match orch.step(Event::CommandDone(CommandOutcome::WaitFailed)) {
        Action::Failed { error: RunError::CommandWaitFailure { script, .. } } => {
            assert_eq!(script, "job");
        }
        other => panic!("expected a wait failure, got {:?}", other),
    }
}

#[test]
fn signal_termination_aborts_run() {
    let mut orch = failing_machine();
    step_until_command(&mut orch);
    match orch.step(Event::CommandDone(CommandOutcome::TerminatedBySignal)) {
        Action::Failed { error: RunError::CommandSignalTermination { script, .. } } => {
            assert_eq!(script, "job");
        }
        other => panic!("expected a signal-termination failure, got {:?}", other),
    }
}

#[test]
fn halted_machine_ignores_further_events() {
    let mut registry = Registry::new();
    registry.insert("job".to_string(), script(&[], None, true));
    let mut orch = start(registry, "job", &[]);
    loop {
        match orch.step(Event::Tick) {
            Action::Working => continue,
            Action::Finished => break,
            other => panic!("expected the run to finish, got {:?}", other),
        }
    }
    assert!(orch.is_halted());
    assert!(matches!(orch.step(Event::Tick), Action::Working));
}

#[test]
fn env_overrides_are_exposed_to_the_driver() {
    let mut registry = Registry::new();
    registry.insert("job".to_string(), script(&[], None, true));
    let env = vec![EnvVar { name: "PATH".to_string(), value: "/tmp/bin".to_string() }];
    let orch = Orchestrator::new(registry, env, "job".to_string(), Vec::new());
    assert_eq!(orch.env_overrides().len(), 1);
    assert_eq!(orch.env_overrides()[0].name, "PATH");
    assert_eq!(orch.env_overrides()[0].value, "/tmp/bin");
}
