use superviseur::engine::{EngineError, Event, Lifecycle, Project};
use superviseur::graph::GraphError;

#[test]
fn start_then_stop_two_dependent_services() {
    let mut p = Project::new();
    assert_eq!(p.load_config(vec![vec![], vec![0]]), Ok(()));
    assert_eq!(p.state(0), Some(Lifecycle::Stopped));
    assert_eq!(p.state(1), Some(Lifecycle::Stopped));

    assert_eq!(p.start_service(1), Err(EngineError::DependencyNotReady { dependency: 0 }));
    assert_eq!(p.state(1), Some(Lifecycle::Stopped));

    assert_eq!(p.start_service(0), Ok(()));
    assert_eq!(p.state(0), Some(Lifecycle::Starting));
    assert_eq!(p.spawn_succeeded(0, 4100), Ok(Event::ServiceStarted { service: 0, pid: 4100 }));
    assert_eq!(p.state(0), Some(Lifecycle::Running));

    assert_eq!(p.start_service(1), Ok(()));
    assert_eq!(p.state(1), Some(Lifecycle::Starting));
    assert_eq!(p.spawn_succeeded(1, 4101), Ok(Event::ServiceStarted { service: 1, pid: 4101 }));
    assert_eq!(p.state(1), Some(Lifecycle::Running));
    assert_eq!(p.pid(1), Some(4101));

    let plan = p.stop_plan(0).unwrap();
    assert_eq!(plan, vec![1, 0]);
    for &s in plan.iter() {
        assert_eq!(p.begin_stop(s), Ok(()));
        assert_eq!(p.state(s), Some(Lifecycle::Stopping));
        assert_eq!(p.finish_stop(s), Ok(Event::ServiceStopped { service: s }));
        assert_eq!(p.state(s), Some(Lifecycle::Stopped));
    }
    assert_eq!(p.pid(0), None);
    assert_eq!(p.pid(1), None);
}

#[test]
fn cyclic_config_leaves_project_empty() {
    let mut p = Project::new();
    assert_eq!(
        p.load_config(vec![vec![1], vec![0]]),
        Err(EngineError::Config(GraphError::Cycle))
    );
    assert_eq!(p.len(), 0);
    assert_eq!(p.state(0), None);
}

#[test]
fn cyclic_reload_keeps_running_services() {
    let mut p = Project::new();
    assert_eq!(p.load_config(vec![vec![]]), Ok(()));
    assert_eq!(p.start_service(0), Ok(()));
    assert_eq!(p.spawn_succeeded(0, 7), Ok(Event::ServiceStarted { service: 0, pid: 7 }));
    assert_eq!(
        p.load_config(vec![vec![1], vec![0]]),
        Err(EngineError::Config(GraphError::Cycle))
    );
    assert_eq!(p.len(), 1);
    assert_eq!(p.state(0), Some(Lifecycle::Running));
    assert_eq!(p.pid(0), Some(7));
}

#[test]
fn unknown_dependency_in_config() {
    let mut p = Project::new();
    assert_eq!(
        p.load_config(vec![vec![2]]),
        Err(EngineError::Config(GraphError::UnknownDependency { service: 0, dependency: 2 }))
    );
}

#[test]
fn unknown_service_is_not_found() {
    let mut p = Project::new();
    assert_eq!(p.load_config(vec![vec![]]), Ok(()));
    assert_eq!(p.start_service(3), Err(EngineError::NotFound));
    assert_eq!(p.stop_plan(3), Err(EngineError::NotFound));
    assert_eq!(p.begin_stop(3), Err(EngineError::NotFound));
}

#[test]
fn starting_a_running_service_is_refused() {
    let mut p = Project::new();
    assert_eq!(p.load_config(vec![vec![]]), Ok(()));
    assert_eq!(p.start_service(0), Ok(()));
    assert_eq!(
        p.start_service(0),
        Err(EngineError::InvalidTransition { state: Lifecycle::Starting })
    );
}

#[test]
fn spawn_failure_then_restart() {
    let mut p = Project::new();
    assert_eq!(p.load_config(vec![vec![]]), Ok(()));
    assert_eq!(p.start_service(0), Ok(()));
    assert_eq!(p.spawn_failed(0), Ok(Event::ServiceFailed { service: 0 }));
    assert_eq!(p.state(0), Some(Lifecycle::Failed));
    assert_eq!(p.start_service(0), Ok(()));
    assert_eq!(p.state(0), Some(Lifecycle::Starting));
}

#[test]
fn unexpected_exit_fails_the_service() {
    let mut p = Project::new();
    assert_eq!(p.load_config(vec![vec![]]), Ok(()));
    assert_eq!(
        p.process_exited(0),
        Err(EngineError::InvalidTransition { state: Lifecycle::Stopped })
    );
    assert_eq!(p.start_service(0), Ok(()));
    assert_eq!(p.spawn_succeeded(0, 9), Ok(Event::ServiceStarted { service: 0, pid: 9 }));
    assert_eq!(p.process_exited(0), Ok(Event::ServiceFailed { service: 0 }));
    assert_eq!(p.state(0), Some(Lifecycle::Failed));
    assert_eq!(p.pid(0), None);
}

#[test]
fn stop_plan_skips_dependents_that_do_not_run() {
    let mut p = Project::new();
    // 1 and 2 depend on 0, 3 depends on 1
    assert_eq!(p.load_config(vec![vec![], vec![0], vec![0], vec![1]]), Ok(()));
    for (s, pid) in [(0usize, 10u32), (1, 11), (3, 13)] {
        assert_eq!(p.start_service(s), Ok(()));
        assert_eq!(p.spawn_succeeded(s, pid), Ok(Event::ServiceStarted { service: s, pid }));
    }
    assert_eq!(p.stop_plan(0).unwrap(), vec![3, 1, 0]);
    assert_eq!(p.stop_plan(3).unwrap(), vec![3]);
}

fn run_start_all(p: &mut Project, failing: usize) -> Vec<usize> {
    let mut started = Vec::new();
    while let Some(k) = p.next_to_start() {
        assert_eq!(p.start_service(k), Ok(()));
        if k == failing {
            assert_eq!(p.spawn_failed(k), Ok(Event::ServiceFailed { service: k }));
        } else {
            assert_eq!(p.spawn_succeeded(k, 100 + k as u32), Ok(Event::ServiceStarted { service: k, pid: 100 + k as u32 }));
            started.push(k);
        }
    }
    started
}

#[test]
fn start_all_skips_dependents_of_a_failed_service() {
    let mut p = Project::new();
    // 1 depends on 0, 2 is independent, 3 depends on 1 and 2
    assert_eq!(p.load_config(vec![vec![], vec![0], vec![], vec![1, 2]]), Ok(()));
    let started = run_start_all(&mut p, 1);
    assert_eq!(started, vec![0, 2]);
    assert_eq!(p.state(1), Some(Lifecycle::Failed));
    assert_eq!(p.state(3), Some(Lifecycle::Stopped));
}

#[test]
fn stop_all_stops_dependents_first() {
    let mut p = Project::new();
    assert_eq!(p.load_config(vec![vec![], vec![0], vec![1], vec![]]), Ok(()));
    assert_eq!(run_start_all(&mut p, 99), vec![0, 1, 2, 3]);
    let mut stopped = Vec::new();
    while let Some(k) = p.next_to_stop() {
        assert_eq!(p.begin_stop(k), Ok(()));
        assert_eq!(p.finish_stop(k), Ok(Event::ServiceStopped { service: k }));
        stopped.push(k);
    }
    assert_eq!(stopped, vec![3, 2, 1, 0]);
    assert_eq!(p.next_to_start(), Some(0));
}

#[test]
fn list_is_a_snapshot_of_states_and_pids() {
    let mut p = Project::new();
    assert_eq!(p.load_config(vec![vec![], vec![0]]), Ok(()));
    assert_eq!(p.start_service(0), Ok(()));
    assert_eq!(p.spawn_succeeded(0, 55), Ok(Event::ServiceStarted { service: 0, pid: 55 }));
    assert_eq!(
        p.list(),
        vec![(Lifecycle::Running, Some(55)), (Lifecycle::Stopped, None)]
    );
}
