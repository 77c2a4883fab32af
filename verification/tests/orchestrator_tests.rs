use devspin_cli::config::{Commands, HealthCheck, ProjectConfig, Service, StartCommands};
use devspin_cli::health::PollPlan;
use devspin_cli::orchestrator::{
    trouble_error, Action, Event, Outcome, StartOptions, StartSequence, Trouble,
};
use devspin_cli::registry::{ExitOutcome, ProcessState};
use devspin_cli::start::StartArgs;
use devspin_cli::ToolError;

fn service(name: &str, dependencies: &[&str]) -> Service {
    Service {
        name: name.to_string(),
        service_type: "api".to_string(),
        command: format!("run {}", name),
        working_dir: None,
        health_check: None,
        dependencies: dependencies.iter().map(|d| d.to_string()).collect(),
    }
}

fn checked(name: &str, dependencies: &[&str], port: i16) -> Service {
    let mut s = service(name, dependencies);
    s.health_check = Some(HealthCheck {
        type_entry: "port".to_string(),
        port: Some(port),
        http_target: String::new(),
    });
    s
}

fn project(services: Vec<Service>) -> ProjectConfig {
    ProjectConfig {
        name: "demo".to_string(),
        description: None,
        commands: Commands {
            start: StartCommands {
                dev: "dev".to_string(),
                test: None,
                build: "build".to_string(),
                clean: None,
                services: None,
            },
        },
        services: Some(services),
        environment: None,
        hooks: None,
        base_path: None,
    }
}

fn demo() -> ProjectConfig {
    project(vec![service("C", &["B"]), service("B", &["A"]), service("A", &[])])
}

fn args(only: Option<&[&str]>, skip: Option<&[&str]>, background: bool) -> StartArgs {
    StartArgs {
        name: "demo".to_string(),
        env: None,
        verbose: false,
        background,
        dry_run: false,
        only: only.map(|names| names.iter().map(|n| n.to_string()).collect()),
        skip: skip.map(|names| names.iter().map(|n| n.to_string()).collect()),
    }
}

fn options() -> StartOptions {
    StartOptions {
        dependency_wait: PollPlan { timeout_ms: 1000, interval_ms: 500 },
        health_wait: PollPlan { timeout_ms: 2000, interval_ms: 500 },
        abort_on_dependency_timeout: false,
        abort_on_health_timeout: false,
    }
}

/// Performs the actions of a sequence in a world where every spawn succeeds
/// with the process id 100 + index, unless the service is named in
/// `fail_spawn`, and a readiness check succeeds from `ready_at` on. Gives
/// every action that was performed.
fn drive(
    sequence: &mut StartSequence,
    registry: &mut ProcessState,
    fail_spawn: &[&str],
    ready_at: Option<u64>,
) -> Vec<Action> {
    let mut trace = Vec::new();
    let mut clock: u64 = 0;
    let mut action = sequence.pending();
    for _ in 0..1000 {
        trace.push(action);
        let event = match action {
            Action::Skip { .. } => Event::Continue,
            Action::AwaitDependencies { sleep_ms, .. } => {
                clock += sleep_ms;
                Event::Slept { elapsed_ms: clock }
            }
            Action::Spawn { index, .. } => {
                clock = 0;
                if fail_spawn.contains(&sequence.service(index).name.as_str()) {
                    Event::SpawnFailed
                } else {
                    Event::Spawned { pid: 100 + index as u32 }
                }
            }
            Action::Probe { .. } => Event::Probed {
                ok: ready_at.map_or(false, |at| clock >= at),
                elapsed_ms: clock,
            },
            Action::AwaitReady { sleep_ms, .. } => {
                clock += sleep_ms;
                Event::Slept { elapsed_ms: clock }
            }
            Action::Warn { trouble, .. } => {
                if trouble != Trouble::DependencyTimeout {
                    clock = 0;
                }
                Event::Continue
            }
            Action::Finished(_) => return trace,
        };
        if matches!(action, Action::Skip { .. }) {
            clock = 0;
        }
        action = sequence.step(registry, event);
    }
    panic!("the sequence did not end");
}

fn spawned(trace: &[Action]) -> Vec<usize> {
    trace
        .iter()
        .filter_map(|a| match a {
            Action::Spawn { index, .. } => Some(*index),
            _ => None,
        })
        .collect()
}

fn skipped(trace: &[Action]) -> Vec<usize> {
    trace
        .iter()
        .filter_map(|a| match a {
            Action::Skip { index } => Some(*index),
            _ => None,
        })
        .collect()
}

#[test]
fn a_chain_starts_in_dependency_order() {
    let p = demo();
    let a = args(None, None, false);
    let mut registry = ProcessState::new();
    let mut sequence = StartSequence::new(&a, &p, options(), &registry).unwrap();
    assert_eq!(sequence.len(), 3);
    assert_eq!(sequence.service(0).name, "A");
    assert_eq!(sequence.service(1).name, "B");
    assert_eq!(sequence.service(2).name, "C");
    let trace = drive(&mut sequence, &mut registry, &[], None);
    assert_eq!(
        trace,
        vec![
            Action::Spawn { index: 0, monitor: true },
            Action::Spawn { index: 1, monitor: true },
            Action::Spawn { index: 2, monitor: true },
            Action::Finished(Outcome::Completed),
        ]
    );
    assert_eq!(registry.process_count(), 3);
    assert!(registry.is_service_running("demo", "A"));
    assert!(registry.is_service_running("demo", "B"));
    assert!(registry.is_service_running("demo", "C"));
}

#[test]
fn an_only_filter_spawns_its_service_and_skips_the_others() {
    let p = demo();
    let a = args(Some(&["A"]), None, false);
    let mut registry = ProcessState::new();
    let mut sequence = StartSequence::new(&a, &p, options(), &registry).unwrap();
    let trace = drive(&mut sequence, &mut registry, &[], None);
    assert_eq!(
        trace,
        vec![
            Action::Spawn { index: 0, monitor: true },
            Action::Skip { index: 1 },
            Action::Skip { index: 2 },
            Action::Finished(Outcome::Completed),
        ]
    );
    assert_eq!(spawned(&trace), vec![0]);
    assert_eq!(skipped(&trace), vec![1, 2]);
    assert_eq!(registry.process_count(), 1);
    assert!(registry.is_service_running("demo", "A"));
    assert!(!registry.is_service_running("demo", "B"));
}

#[test]
fn a_skip_filter_leaves_its_service_out() {
    let p = project(vec![service("A", &[]), service("B", &[]), service("C", &[])]);
    let a = args(None, Some(&["B"]), false);
    let mut registry = ProcessState::new();
    let mut sequence = StartSequence::new(&a, &p, options(), &registry).unwrap();
    let trace = drive(&mut sequence, &mut registry, &[], None);
    assert_eq!(spawned(&trace), vec![0, 2]);
    assert_eq!(skipped(&trace), vec![1]);
    assert_eq!(trace.last(), Some(&Action::Finished(Outcome::Completed)));
}

#[test]
fn both_filters_give_a_configuration_error_and_no_sequence() {
    let p = demo();
    let a = args(Some(&["A"]), Some(&["B"]), false);
    let registry = ProcessState::new();
    match StartSequence::new(&a, &p, options(), &registry) {
        Err(ToolError::ConfigError(reason)) => {
            assert_eq!(reason, "Cannot use both --only and --skip filters simultaneously")
        }
        other => panic!("expected a configuration error, got {:?}", other.map(|s| s.pending())),
    }
    assert_eq!(registry.process_count(), 0);
}

#[test]
fn a_blank_filter_entry_gives_a_configuration_error_and_no_sequence() {
    let p = demo();
    let a = args(Some(&[" "]), None, false);
    let registry = ProcessState::new();
    assert!(matches!(
        StartSequence::new(&a, &p, options(), &registry),
        Err(ToolError::ConfigError(_))
    ));
}

#[test]
fn a_project_without_services_is_finished_at_once() {
    let mut p = demo();
    p.services = None;
    let a = args(None, None, false);
    let mut registry = ProcessState::new();
    let mut sequence = StartSequence::new(&a, &p, options(), &registry).unwrap();
    assert_eq!(sequence.len(), 0);
    assert_eq!(sequence.pending(), Action::Finished(Outcome::Completed));
    assert_eq!(
        sequence.step(&mut registry, Event::Continue),
        Action::Finished(Outcome::Completed)
    );
    let p = project(Vec::new());
    let sequence = StartSequence::new(&a, &p, options(), &registry).unwrap();
    assert_eq!(sequence.pending(), Action::Finished(Outcome::Completed));
}

#[test]
fn a_spawn_is_registered_in_the_same_step() {
    let p = demo();
    let a = args(None, None, false);
    let mut registry = ProcessState::new();
    let mut sequence = StartSequence::new(&a, &p, options(), &registry).unwrap();
    assert_eq!(sequence.pending(), Action::Spawn { index: 0, monitor: true });
    assert!(!registry.is_service_running("demo", "A"));
    sequence.step(&mut registry, Event::Spawned { pid: 71 });
    assert!(registry.is_service_running("demo", "A"));
    let all = registry.get_all_processes();
    assert_eq!(all.len(), 1);
    assert_eq!(all[0].pid, 71);
    assert_eq!(all[0].service_name, "A");
    assert_eq!(all[0].project_name, "demo");
    assert_eq!(all[0].command, "run A");
}

#[test]
fn in_the_foreground_a_spawn_that_failed_ends_the_sequence() {
    let p = demo();
    let a = args(None, None, false);
    let mut registry = ProcessState::new();
    let mut sequence = StartSequence::new(&a, &p, options(), &registry).unwrap();
    let trace = drive(&mut sequence, &mut registry, &["B"], None);
    assert_eq!(
        trace,
        vec![
            Action::Spawn { index: 0, monitor: true },
            Action::Spawn { index: 1, monitor: true },
            Action::Finished(Outcome::Aborted { index: 1, trouble: Trouble::SpawnFailed }),
        ]
    );
    // What was started before stays registered.
    assert_eq!(registry.process_count(), 1);
    assert!(registry.is_service_running("demo", "A"));
}

#[test]
fn in_the_background_a_spawn_that_failed_is_reported_and_the_sequence_goes_on() {
    let p = project(vec![service("A", &[]), service("B", &[]), service("C", &[])]);
    let a = args(None, None, true);
    let mut registry = ProcessState::new();
    let mut sequence = StartSequence::new(&a, &p, options(), &registry).unwrap();
    let trace = drive(&mut sequence, &mut registry, &["B"], None);
    assert_eq!(
        trace,
        vec![
            Action::Spawn { index: 0, monitor: false },
            Action::Spawn { index: 1, monitor: false },
            Action::Warn { index: 1, trouble: Trouble::SpawnFailed },
            Action::Spawn { index: 2, monitor: false },
            Action::Finished(Outcome::Completed),
        ]
    );
    assert_eq!(registry.process_count(), 2);
}

#[test]
fn a_dependency_that_is_not_running_is_waited_for_within_the_bound() {
    // B depends on A, and the filters leave A out: A never runs.
    let p = project(vec![service("A", &[]), service("B", &["A"])]);
    let a = args(Some(&["B"]), None, false);
    let mut registry = ProcessState::new();
    let mut sequence = StartSequence::new(&a, &p, options(), &registry).unwrap();
    let trace = drive(&mut sequence, &mut registry, &[], None);
    assert_eq!(
        trace,
        vec![
            Action::Skip { index: 0 },
            Action::AwaitDependencies { index: 1, sleep_ms: 500 },
            Action::AwaitDependencies { index: 1, sleep_ms: 500 },
            Action::Warn { index: 1, trouble: Trouble::DependencyTimeout },
            Action::Spawn { index: 1, monitor: true },
            Action::Finished(Outcome::Completed),
        ]
    );
    assert!(registry.is_service_running("demo", "B"));
}

#[test]
fn a_missed_dependency_bound_ends_the_sequence_where_the_options_say_so() {
    let p = project(vec![service("A", &[]), service("B", &["A"])]);
    let a = args(Some(&["B"]), None, false);
    let mut o = options();
    o.abort_on_dependency_timeout = true;
    let mut registry = ProcessState::new();
    let mut sequence = StartSequence::new(&a, &p, o, &registry).unwrap();
    let trace = drive(&mut sequence, &mut registry, &[], None);
    assert_eq!(
        trace.last(),
        Some(&Action::Finished(Outcome::Aborted {
            index: 1,
            trouble: Trouble::DependencyTimeout
        }))
    );
    assert!(spawned(&trace).is_empty());
    assert_eq!(registry.process_count(), 0);
}

#[test]
fn a_dependency_that_starts_meanwhile_ends_the_wait() {
    let p = project(vec![service("A", &[]), service("B", &["A"])]);
    let a = args(Some(&["B"]), None, false);
    let mut registry = ProcessState::new();
    let mut sequence = StartSequence::new(&a, &p, options(), &registry).unwrap();
    assert_eq!(sequence.pending(), Action::Skip { index: 0 });
    assert_eq!(
        sequence.step(&mut registry, Event::Continue),
        Action::AwaitDependencies { index: 1, sleep_ms: 500 }
    );
    registry.add_process(9, "A", "demo", "run A");
    assert_eq!(
        sequence.step(&mut registry, Event::Slept { elapsed_ms: 500 }),
        Action::Spawn { index: 1, monitor: true }
    );
}

#[test]
fn a_dependency_that_ran_and_ended_is_waited_for() {
    let p = project(vec![service("A", &[]), service("B", &["A"])]);
    let a = args(None, None, false);
    let mut registry = ProcessState::new();
    let mut sequence = StartSequence::new(&a, &p, options(), &registry).unwrap();
    assert_eq!(sequence.pending(), Action::Spawn { index: 0, monitor: true });
    registry.add_process(5, "A", "demo", "run A");
    registry.mark_exited(5, ExitOutcome::Failed("exit status: 1".to_string()));
    // A second process of A is spawned by the sequence, so B finds A running.
    assert_eq!(
        sequence.step(&mut registry, Event::Spawned { pid: 6 }),
        Action::Spawn { index: 1, monitor: true }
    );
    registry.mark_exited(6, ExitOutcome::Succeeded);
    let only_b = args(Some(&["B"]), None, false);
    let mut sequence = StartSequence::new(&only_b, &p, options(), &registry).unwrap();
    assert_eq!(sequence.pending(), Action::Skip { index: 0 });
    assert_eq!(
        sequence.step(&mut registry, Event::Continue),
        Action::AwaitDependencies { index: 1, sleep_ms: 500 }
    );
}

#[test]
fn a_dependency_that_names_no_service_is_not_waited_for() {
    let p = project(vec![service("B", &["ghost"])]);
    let a = args(None, None, false);
    let registry = ProcessState::new();
    let sequence = StartSequence::new(&a, &p, options(), &registry).unwrap();
    assert_eq!(sequence.pending(), Action::Spawn { index: 0, monitor: true });
}

#[test]
fn a_service_that_runs_in_another_project_does_not_meet_a_dependency() {
    let p = project(vec![service("A", &[]), service("B", &["A"])]);
    let a = args(Some(&["B"]), None, false);
    let mut registry = ProcessState::new();
    registry.add_process(1, "A", "other", "run A");
    let mut sequence = StartSequence::new(&a, &p, options(), &registry).unwrap();
    assert_eq!(
        sequence.step(&mut registry, Event::Continue),
        Action::AwaitDependencies { index: 1, sleep_ms: 500 }
    );
}

#[test]
fn a_service_with_a_readiness_check_is_probed_until_it_is_ready() {
    let p = project(vec![checked("A", &[], 8080), service("B", &["A"])]);
    let a = args(None, None, false);
    let mut registry = ProcessState::new();
    let mut sequence = StartSequence::new(&a, &p, options(), &registry).unwrap();
    let trace = drive(&mut sequence, &mut registry, &[], Some(1000));
    assert_eq!(
        trace,
        vec![
            Action::Spawn { index: 0, monitor: true },
            Action::Probe { index: 0 },
            Action::AwaitReady { index: 0, sleep_ms: 500 },
            Action::Probe { index: 0 },
            Action::AwaitReady { index: 0, sleep_ms: 500 },
            Action::Probe { index: 0 },
            Action::Spawn { index: 1, monitor: true },
            Action::Finished(Outcome::Completed),
        ]
    );
}

#[test]
fn a_missed_readiness_bound_is_reported_and_the_sequence_goes_on() {
    let p = project(vec![checked("A", &[], 8080), service("B", &[])]);
    let a = args(None, None, false);
    let mut registry = ProcessState::new();
    let mut sequence = StartSequence::new(&a, &p, options(), &registry).unwrap();
    let trace = drive(&mut sequence, &mut registry, &[], None);
    assert_eq!(
        trace,
        vec![
            Action::Spawn { index: 0, monitor: true },
            Action::Probe { index: 0 },
            Action::AwaitReady { index: 0, sleep_ms: 500 },
            Action::Probe { index: 0 },
            Action::AwaitReady { index: 0, sleep_ms: 500 },
            Action::Probe { index: 0 },
            Action::AwaitReady { index: 0, sleep_ms: 500 },
            Action::Probe { index: 0 },
            Action::AwaitReady { index: 0, sleep_ms: 500 },
            Action::Warn { index: 0, trouble: Trouble::HealthCheckTimeout },
            Action::Spawn { index: 1, monitor: true },
            Action::Finished(Outcome::Completed),
        ]
    );
    assert_eq!(registry.process_count(), 2);
}

#[test]
fn a_missed_readiness_bound_ends_the_sequence_where_the_options_say_so() {
    let p = project(vec![checked("A", &[], 8080), service("B", &[])]);
    let a = args(None, None, false);
    let mut o = options();
    o.abort_on_health_timeout = true;
    let mut registry = ProcessState::new();
    let mut sequence = StartSequence::new(&a, &p, o, &registry).unwrap();
    let trace = drive(&mut sequence, &mut registry, &[], None);
    assert_eq!(
        trace.last(),
        Some(&Action::Finished(Outcome::Aborted {
            index: 0,
            trouble: Trouble::HealthCheckTimeout
        }))
    );
    assert_eq!(spawned(&trace), vec![0]);
    // The service that was started stays registered.
    assert!(registry.is_service_running("demo", "A"));
}

#[test]
fn a_check_with_nothing_to_probe_is_not_probed() {
    let mut unrecognized = service("A", &[]);
    unrecognized.health_check = Some(HealthCheck {
        type_entry: "none".to_string(),
        port: Some(80),
        http_target: "http://localhost".to_string(),
    });
    let p = project(vec![unrecognized]);
    let a = args(None, None, false);
    let mut registry = ProcessState::new();
    let mut sequence = StartSequence::new(&a, &p, options(), &registry).unwrap();
    let trace = drive(&mut sequence, &mut registry, &[], None);
    assert_eq!(
        trace,
        vec![Action::Spawn { index: 0, monitor: true }, Action::Finished(Outcome::Completed)]
    );
}

#[test]
fn an_event_that_does_not_answer_the_action_changes_nothing() {
    let p = demo();
    let a = args(None, None, false);
    let mut registry = ProcessState::new();
    let mut sequence = StartSequence::new(&a, &p, options(), &registry).unwrap();
    let pending = sequence.pending();
    assert_eq!(pending, Action::Spawn { index: 0, monitor: true });
    for event in [
        Event::Continue,
        Event::Slept { elapsed_ms: 5 },
        Event::Probed { ok: true, elapsed_ms: 5 },
    ] {
        assert_eq!(sequence.step(&mut registry, event), pending);
        assert_eq!(sequence.pending(), pending);
        assert_eq!(registry.process_count(), 0);
    }
}

#[test]
fn a_finished_sequence_stays_finished() {
    let p = project(vec![service("A", &[])]);
    let a = args(None, None, false);
    let mut registry = ProcessState::new();
    let mut sequence = StartSequence::new(&a, &p, options(), &registry).unwrap();
    let done = sequence.step(&mut registry, Event::Spawned { pid: 1 });
    assert_eq!(done, Action::Finished(Outcome::Completed));
    for event in [Event::Continue, Event::Spawned { pid: 2 }, Event::SpawnFailed] {
        assert_eq!(sequence.step(&mut registry, event), done);
    }
    assert_eq!(registry.process_count(), 1);
}

#[test]
fn no_service_is_spawned_twice() {
    let p = project(vec![
        checked("db", &[], 5432),
        service("api", &["db", "cache"]),
        service("cache", &[]),
        service("web", &["api"]),
    ]);
    let a = args(None, Some(&["cache"]), true);
    let mut registry = ProcessState::new();
    let mut sequence = StartSequence::new(&a, &p, options(), &registry).unwrap();
    let trace = drive(&mut sequence, &mut registry, &["web"], Some(700));
    let mut started = spawned(&trace);
    let count = started.len();
    started.dedup();
    assert_eq!(started.len(), count);
    assert!(started.windows(2).all(|w| w[0] < w[1]));
    assert_eq!(skipped(&trace).len(), 1);
    assert_eq!(sequence.service(skipped(&trace)[0]).name, "cache");
}

#[test]
fn the_default_options_report_missed_bounds_and_go_on() {
    let o = StartOptions::default();
    assert_eq!(o.dependency_wait, PollPlan { timeout_ms: 10_000, interval_ms: 500 });
    assert_eq!(o.health_wait, PollPlan { timeout_ms: 30_000, interval_ms: 500 });
    assert!(!o.abort_on_dependency_timeout);
    assert!(!o.abort_on_health_timeout);
}

#[test]
fn each_trouble_has_its_error() {
    let s = service("api", &[]);
    match trouble_error(&s, Trouble::SpawnFailed, "No such file or directory") {
        ToolError::ProcessError(text) => {
            assert_eq!(text, "Failed to start service api: No such file or directory")
        }
        other => panic!("unexpected error {:?}", other),
    }
    assert!(matches!(
        trouble_error(&s, Trouble::DependencyTimeout, ""),
        ToolError::DependencyTimeout(name) if name == "api"
    ));
    assert!(matches!(
        trouble_error(&s, Trouble::HealthCheckTimeout, "ignored"),
        ToolError::HealthCheckTimeout(name) if name == "api"
    ));
}
