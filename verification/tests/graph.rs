use proctor::orchestrator::graph::DependencyGraph;
use proctor::parser::ast::{ProcessDef, ProcessOptions};

fn defs(processes: &[(&str, Vec<String>)]) -> Vec<ProcessDef> {
    processes
        .iter()
        .map(|(name, deps)| {
            let mut options = ProcessOptions::default();
            options.after = deps.clone();
            ProcessDef {
                name: name.to_string(),
                watch_patterns: vec![],
                options,
                command: "true".to_string(),
                oneshot: false,
            }
        })
        .collect()
}

#[test]
fn test_empty_graph() {
    let graph = DependencyGraph::new(&defs(&[]));
    assert!(graph.roots().is_empty());
    assert!(graph.reverse_topological_order().is_empty());
}

#[test]
fn test_no_dependencies() {
    let processes = vec![("a", vec![]), ("b", vec![]), ("c", vec![])];
    let graph = DependencyGraph::new(&defs(&processes));

    let mut roots = graph.roots();
    roots.sort();
    assert_eq!(roots, vec!["a", "b", "c"]);
}

#[test]
fn test_linear_chain() {
    // c depends on b, b depends on a
    let processes = vec![
        ("a", vec![]),
        ("b", vec!["a".to_string()]),
        ("c", vec!["b".to_string()]),
    ];
    let graph = DependencyGraph::new(&defs(&processes));

    assert_eq!(graph.roots(), vec!["a"]);
    assert_eq!(graph.dependencies_of("c"), vec!["b"]);
    assert_eq!(graph.dependents_of("a"), vec!["b"]);
    assert_eq!(graph.dependents_of("b"), vec!["c"]);

    // Reverse topo: c, b, a (shutdown order)
    let order = graph.reverse_topological_order();
    assert_eq!(order, vec!["c", "b", "a"]);
}

#[test]
fn test_diamond_dependencies() {
    //     a
    //    / \
    //   b   c
    //    \ /
    //     d
    let processes = vec![
        ("a", vec![]),
        ("b", vec!["a".to_string()]),
        ("c", vec!["a".to_string()]),
        ("d", vec!["b".to_string(), "c".to_string()]),
    ];
    let graph = DependencyGraph::new(&defs(&processes));

    assert_eq!(graph.roots(), vec!["a"]);

    let mut a_dependents = graph.dependents_of("a");
    a_dependents.sort();
    assert_eq!(a_dependents, vec!["b", "c"]);

    // d should be first in shutdown order
    let order = graph.reverse_topological_order();
    assert_eq!(order[0], "d");
    assert_eq!(*order.last().unwrap(), "a");
}

#[test]
fn test_multiple_roots() {
    // a and b are roots, c depends on both
    let processes = vec![
        ("a", vec![]),
        ("b", vec![]),
        ("c", vec!["a".to_string(), "b".to_string()]),
    ];
    let graph = DependencyGraph::new(&defs(&processes));

    let mut roots = graph.roots();
    roots.sort();
    assert_eq!(roots, vec!["a", "b"]);

    // c must be first in shutdown order
    let order = graph.reverse_topological_order();
    assert_eq!(order[0], "c");
}

#[test]
fn test_every_edge_runs_forward_in_shutdown_order() {
    let processes = vec![
        ("web", vec!["api".to_string(), "cache".to_string()]),
        ("api", vec!["db".to_string()]),
        ("db", vec![]),
        ("cache", vec!["db".to_string()]),
        ("cron", vec!["api".to_string()]),
    ];
    let graph = DependencyGraph::new(&defs(&processes));
    let order = graph.reverse_topological_order();
    assert_eq!(order.len(), 5);
    let place = |name: &str| order.iter().position(|n| n == name).unwrap();
    for (name, deps) in &processes {
        for dep in deps {
            assert!(place(name) < place(dep));
        }
    }
}

#[test]
fn test_unknown_name_has_no_neighbours() {
    let processes = vec![("a", vec![]), ("b", vec!["a".to_string()])];
    let graph = DependencyGraph::new(&defs(&processes));
    assert!(graph.dependents_of("zzz").is_empty());
    assert!(graph.dependencies_of("zzz").is_empty());
}

#[test]
fn test_repeated_dependency_is_listed_once() {
    let processes = vec![("a", vec![]), ("b", vec!["a".to_string(), "a".to_string()])];
    let graph = DependencyGraph::new(&defs(&processes));
    assert_eq!(graph.dependencies_of("b"), vec!["a"]);
    assert_eq!(graph.dependents_of("a"), vec!["b"]);
}
