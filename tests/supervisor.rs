use superviseur::engine::{Command, EngineError, Event, Lifecycle};
use superviseur::graph::GraphError;
use superviseur::supervisor::Supervisor;

#[test]
fn commands_drive_two_dependent_services() {
    let id = "/srv/app/superviseur.hcl".to_string();
    let mut s = Supervisor::new();
    assert_eq!(s.load_config(&id, vec![vec![], vec![0]]), Ok(()));
    assert_eq!(
        s.apply(&id, Command::StartService(1)),
        Err(EngineError::DependencyNotReady { dependency: 0 })
    );
    assert_eq!(s.apply(&id, Command::StartService(0)), Ok(None));
    assert_eq!(
        s.apply(&id, Command::SpawnSucceeded(0, 300)),
        Ok(Some(Event::ServiceStarted { service: 0, pid: 300 }))
    );
    assert_eq!(s.apply(&id, Command::StartService(1)), Ok(None));
    assert_eq!(
        s.apply(&id, Command::SpawnSucceeded(1, 301)),
        Ok(Some(Event::ServiceStarted { service: 1, pid: 301 }))
    );
    let plan = s.get(&id).unwrap().stop_plan(0).unwrap();
    assert_eq!(plan, vec![1, 0]);
    for k in plan {
        assert_eq!(s.apply(&id, Command::BeginStop(k)), Ok(None));
        assert_eq!(
            s.apply(&id, Command::FinishStop(k)),
            Ok(Some(Event::ServiceStopped { service: k }))
        );
    }
    assert_eq!(
        s.list(&id),
        Ok(vec![(Lifecycle::Stopped, None), (Lifecycle::Stopped, None)])
    );
}

#[test]
fn rejected_load_leaves_projects_as_they_were() {
    let a = "/a".to_string();
    let b = "/b".to_string();
    let mut s = Supervisor::new();
    assert_eq!(
        s.load_config(&b, vec![vec![1], vec![0]]),
        Err(EngineError::Config(GraphError::Cycle))
    );
    assert!(s.get(&b).is_none());
    assert_eq!(s.list(&b), Err(EngineError::NotFound));
    assert_eq!(s.load_config(&a, vec![vec![]]), Ok(()));
    assert_eq!(s.apply(&a, Command::StartService(0)), Ok(None));
    assert_eq!(
        s.load_config(&a, vec![vec![1], vec![0]]),
        Err(EngineError::Config(GraphError::Cycle))
    );
    assert_eq!(s.list(&a), Ok(vec![(Lifecycle::Starting, None)]));
}

#[test]
fn projects_are_independent() {
    let a = "/a".to_string();
    let b = "/b".to_string();
    let mut s = Supervisor::new();
    assert_eq!(s.load_config(&a, vec![vec![]]), Ok(()));
    assert_eq!(s.load_config(&b, vec![vec![], vec![]]), Ok(()));
    assert_eq!(s.apply(&a, Command::StartService(0)), Ok(None));
    assert_eq!(s.apply(&a, Command::SpawnFailed(0)), Ok(Some(Event::ServiceFailed { service: 0 })));
    assert_eq!(s.list(&b), Ok(vec![(Lifecycle::Stopped, None), (Lifecycle::Stopped, None)]));
    assert_eq!(s.apply(&"/c".to_string(), Command::StartService(0)), Err(EngineError::NotFound));
    assert_eq!(s.apply(&b, Command::FinishStop(1)), Err(EngineError::InvalidTransition { state: Lifecycle::Stopped }));
    assert_eq!(s.apply(&b, Command::ProcessExited(5)), Err(EngineError::NotFound));
}
