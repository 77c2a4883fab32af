use devspin_cli::registry::{ExitOutcome, ProcessState, ProcessStatus};

#[test]
fn test_process_creation() {
    let process_state = ProcessState::new();
    // Just creating it should work fine
    assert_eq!(process_state.process_count(), 0);
}

#[test]
fn test_process_state_error_cases() {
    let mut process_state = ProcessState::new();

    let _ = process_state.remove_process(99999); // Should not panic

    let processes = process_state.get_project_processes("non-existent-project");
    assert_eq!(processes.len(), 0, "Should return empty Vec for non-existent project");
}

#[test]
fn test_process_state_operations() {
    let mut process_state = ProcessState::new();

    let processes = process_state.get_all_processes();
    assert_eq!(processes.len(), 0, "New ProcessState should have no processes");

    let pid = 4242;
    let _ = process_state.add_process(pid, "test-service", "test-project", "sleep 1");

    let processes = process_state.get_all_processes();
    assert_eq!(processes.len(), 1, "Should have one process after adding");

    let project_processes = process_state.get_project_processes("test-project");
    assert_eq!(project_processes.len(), 1, "Should find process by project name");

    let _ = process_state.remove_process(pid);

    let processes = process_state.get_all_processes();
    assert_eq!(processes.len(), 0, "Should have no processes after removal");
}

#[test]
fn test_process_state_persistence() {
    let mut process_state = ProcessState::new();

    let pid = 777;
    let _ = process_state.add_process(pid, "persistence-service", "persistence-project", "sleep 1");

    let processes = process_state.get_all_processes();
    assert_eq!(processes.len(), 1, "Should still have the process");
    assert_eq!(processes[0].pid, pid, "Should have same PID");
    assert_eq!(processes[0].service_name, "persistence-service");
    assert_eq!(processes[0].project_name, "persistence-project");

    let _ = process_state.remove_process(pid);
}

#[test]
fn a_registered_process_is_running_at_once() {
    let mut state = ProcessState::new();
    assert!(!state.is_service_running("demo", "api"));
    let id = state.add_process(10, "api", "demo", "npm start");
    assert_eq!(id, 10);
    assert!(state.is_service_running("demo", "api"));
    assert!(!state.is_service_running("demo", "web"));
    assert!(!state.is_service_running("other", "api"));
}

#[test]
fn a_registration_writes_down_what_it_was_given() {
    let mut state = ProcessState::new();
    let before = std::time::SystemTime::now();
    state.add_process(31, "db", "demo", "postgres -D data");
    let after = std::time::SystemTime::now();
    let all = state.get_all_processes();
    assert_eq!(all.len(), 1);
    assert_eq!(all[0].pid, 31);
    assert_eq!(all[0].service_name, "db");
    assert_eq!(all[0].project_name, "demo");
    assert_eq!(all[0].command, "postgres -D data");
    assert!(matches!(all[0].status, ProcessStatus::Running));
    assert!(before <= all[0].start_time && all[0].start_time <= after);
}

#[test]
fn removing_an_unknown_process_changes_nothing() {
    let mut state = ProcessState::new();
    state.add_process(1, "api", "demo", "a");
    state.add_process(2, "web", "demo", "b");
    state.remove_process(3);
    assert_eq!(state.process_count(), 2);
    assert!(state.is_service_running("demo", "api"));
    assert!(state.is_service_running("demo", "web"));
}

#[test]
fn removing_a_process_leaves_the_others() {
    let mut state = ProcessState::new();
    state.add_process(1, "api", "demo", "a");
    state.add_process(2, "web", "demo", "b");
    state.remove_process(1);
    assert_eq!(state.process_count(), 1);
    assert!(!state.is_service_running("demo", "api"));
    assert!(state.is_service_running("demo", "web"));
    let all = state.get_all_processes();
    assert_eq!(all.len(), 1);
    assert_eq!(all[0].pid, 2);
}

#[test]
fn a_process_id_is_held_once() {
    let mut state = ProcessState::new();
    state.add_process(5, "api", "demo", "old");
    state.add_process(5, "web", "demo", "new");
    assert_eq!(state.process_count(), 1);
    let all = state.get_all_processes();
    assert_eq!(all[0].service_name, "web");
    assert_eq!(all[0].command, "new");
    assert!(!state.is_service_running("demo", "api"));
}

#[test]
fn a_process_that_ended_in_success_is_stopped() {
    let mut state = ProcessState::new();
    state.add_process(8, "api", "demo", "a");
    state.mark_exited(8, ExitOutcome::Succeeded);
    assert_eq!(state.process_count(), 1);
    assert!(!state.is_service_running("demo", "api"));
    let all = state.get_all_processes();
    assert!(matches!(all[0].status, ProcessStatus::Stopped));
    assert_eq!(all[0].pid, 8);
    assert_eq!(all[0].service_name, "api");
    assert_eq!(all[0].command, "a");
}

#[test]
fn a_process_that_failed_keeps_the_reason() {
    let mut state = ProcessState::new();
    state.add_process(9, "api", "demo", "a");
    state.mark_exited(9, ExitOutcome::Failed("exit status: 2".to_string()));
    assert!(!state.is_service_running("demo", "api"));
    let all = state.get_all_processes();
    match &all[0].status {
        ProcessStatus::Error(reason) => assert_eq!(reason, "exit status: 2"),
        other => panic!("unexpected status {:?}", other),
    }
}

#[test]
fn marking_an_unknown_process_changes_nothing() {
    let mut state = ProcessState::new();
    state.add_process(1, "api", "demo", "a");
    state.mark_exited(2, ExitOutcome::Succeeded);
    assert_eq!(state.process_count(), 1);
    assert!(state.is_service_running("demo", "api"));
}

#[test]
fn a_second_process_keeps_a_service_running() {
    let mut state = ProcessState::new();
    state.add_process(1, "api", "demo", "a");
    state.add_process(2, "api", "demo", "a");
    state.mark_exited(1, ExitOutcome::Succeeded);
    assert!(state.is_service_running("demo", "api"));
    state.mark_exited(2, ExitOutcome::Failed("killed".to_string()));
    assert!(!state.is_service_running("demo", "api"));
}

#[test]
fn the_processes_of_a_project_are_its_running_ones() {
    let mut state = ProcessState::new();
    state.add_process(1, "api", "demo", "a");
    state.add_process(2, "web", "demo", "b");
    state.add_process(3, "api", "other", "c");
    state.add_process(4, "db", "demo", "d");
    state.mark_exited(4, ExitOutcome::Succeeded);
    let mut pids: Vec<u32> = state.get_project_processes("demo").iter().map(|p| p.pid).collect();
    pids.sort();
    assert_eq!(pids, vec![1, 2]);
    let mut all: Vec<u32> = state.get_all_processes().iter().map(|p| p.pid).collect();
    all.sort();
    assert_eq!(all, vec![1, 2, 3, 4]);
    assert_eq!(state.process_count(), 4);
}

#[test]
fn draining_hands_back_every_record_and_empties_the_registry() {
    let mut state = ProcessState::new();
    state.add_process(1, "api", "demo", "a");
    state.add_process(2, "web", "demo", "b");
    let mut drained: Vec<u32> = state.drain().iter().map(|p| p.pid).collect();
    drained.sort();
    assert_eq!(drained, vec![1, 2]);
    assert_eq!(state.process_count(), 0);
    assert!(state.get_all_processes().is_empty());
    assert!(state.drain().is_empty());
}

#[test]
fn the_default_registry_is_empty() {
    let state = ProcessState::default();
    assert_eq!(state.process_count(), 0);
}

#[test]
fn a_copy_of_a_record_is_the_record() {
    let mut state = ProcessState::new();
    state.add_process(1, "api", "demo", "a");
    state.mark_exited(1, ExitOutcome::Failed("boom".to_string()));
    let all = state.get_all_processes();
    let copy = all[0].clone();
    assert_eq!(copy.pid, all[0].pid);
    assert_eq!(copy.service_name, all[0].service_name);
    assert_eq!(copy.project_name, all[0].project_name);
    assert_eq!(copy.command, all[0].command);
    assert_eq!(copy.start_time, all[0].start_time);
    assert!(matches!(&copy.status, ProcessStatus::Error(r) if r == "boom"));
}
