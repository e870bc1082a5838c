use superviseur::graph::{DependencyGraph, GraphError};

#[test]
fn start_order_follows_dependencies_and_declaration_order() {
    let g = DependencyGraph::build(vec![vec![2], vec![], vec![]]).unwrap();
    assert_eq!(g.start_order(), vec![1, 2, 0]);
    assert_eq!(g.stop_order(), vec![0, 2, 1]);
}

#[test]
fn independent_services_keep_declaration_order() {
    let g = DependencyGraph::build(vec![vec![], vec![], vec![]]).unwrap();
    assert_eq!(g.start_order(), vec![0, 1, 2]);
    assert_eq!(g.stop_order(), vec![2, 1, 0]);
}

#[test]
fn each_service_once_each_way() {
    let g = DependencyGraph::build(vec![vec![1, 3], vec![3], vec![0], vec![]]).unwrap();
    let start = g.start_order();
    assert_eq!(start, vec![3, 1, 0, 2]);
    let mut stop = g.stop_order();
    stop.reverse();
    assert_eq!(stop, start);
}

#[test]
fn two_service_cycle_is_rejected() {
    assert_eq!(
        DependencyGraph::build(vec![vec![1], vec![0]]).err(),
        Some(GraphError::Cycle)
    );
}

#[test]
fn three_service_cycle_is_rejected() {
    assert_eq!(
        DependencyGraph::build(vec![vec![], vec![3], vec![1], vec![2]]).err(),
        Some(GraphError::Cycle)
    );
}

#[test]
fn self_dependency_is_a_cycle() {
    assert_eq!(DependencyGraph::build(vec![vec![0]]).err(), Some(GraphError::Cycle));
}

#[test]
fn unknown_dependency_is_rejected() {
    assert_eq!(
        DependencyGraph::build(vec![vec![], vec![5]]).err(),
        Some(GraphError::UnknownDependency { service: 1, dependency: 5 })
    );
}

#[test]
fn empty_set_builds() {
    let g = DependencyGraph::build(vec![]).unwrap();
    assert_eq!(g.len(), 0);
    assert_eq!(g.start_order(), Vec::<usize>::new());
}

#[test]
fn dependents_are_transitive_and_in_start_order() {
    // 1 depends on 0, 2 on 1, 3 is independent, 4 on 2 and 3
    let g = DependencyGraph::build(vec![vec![], vec![0], vec![1], vec![], vec![2, 3]]).unwrap();
    assert_eq!(g.dependents_of(0), vec![1, 2, 4]);
    assert_eq!(g.dependents_of(3), vec![4]);
    assert_eq!(g.dependents_of(4), Vec::<usize>::new());
    assert_eq!(g.dependencies(4), &vec![2, 3]);
}

use superviseur::graph::resolve_dependencies;

fn strings(v: &[&str]) -> Vec<String> {
    v.iter().map(|s| s.to_string()).collect()
}

#[test]
fn dependency_names_resolve_to_indices() {
    let names = strings(&["db", "api", "web"]);
    let deps = vec![strings(&[]), strings(&["db"]), strings(&["api", "db"])];
    assert_eq!(resolve_dependencies(&names, &deps), Ok(vec![vec![], vec![0], vec![1, 0]]));
}

#[test]
fn unknown_dependency_name_is_rejected() {
    let names = strings(&["db", "api"]);
    let deps = vec![strings(&[]), strings(&["db", "cache"])];
    assert_eq!(
        resolve_dependencies(&names, &deps),
        Err(GraphError::UnknownDependencyName { service: 1, position: 1 })
    );
}
