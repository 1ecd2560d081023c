use modgraph::graph::DependencyGraph;
use modgraph::model::{
    DependencyEdge, ErrorKind, FileError, ImportKind, ModuleKind, RawReference, ResolvedModule, Span,
};

fn module(path: &str, kind: ModuleKind) -> ResolvedModule {
    ResolvedModule { absolute_path: path.to_string(), kind }
}

fn reference(specifier: &str) -> RawReference {
    RawReference {
        specifier: specifier.to_string(),
        kind: ImportKind::ImportDefault,
        source_span: Span { start: 1, end: 2 },
    }
}

#[test]
fn new_graph_is_empty() {
    let graph = DependencyGraph::new();
    assert_eq!(graph.node_count(), 0);
    assert_eq!(graph.edge_count(), 0);
    assert!(graph.nodes().is_empty() && graph.edges().is_empty() && graph.errors().is_empty());
    assert_eq!(graph.position("/a"), None);
    assert_eq!(graph.node("/a"), None);
}

#[test]
fn ensure_node_adds_a_path_once() {
    let mut graph = DependencyGraph::new();
    assert!(graph.ensure_node(module("/a", ModuleKind::File)));
    assert!(graph.ensure_node(module("/b", ModuleKind::DirectoryIndex)));
    assert!(!graph.ensure_node(module("/a", ModuleKind::PackageMain)));
    assert_eq!(graph.nodes(), &vec![module("/a", ModuleKind::File), module("/b", ModuleKind::DirectoryIndex)]);
    assert_eq!(graph.position("/b"), Some(1));
    assert_eq!(graph.node("/a"), Some(&module("/a", ModuleKind::File)));
    assert_eq!(graph.node_at(1), &module("/b", ModuleKind::DirectoryIndex));
}

#[test]
fn add_edge_keeps_every_reference() {
    let mut graph = DependencyGraph::new();
    graph.ensure_node(module("/a", ModuleKind::File));
    assert!(graph.add_edge(0, module("/b", ModuleKind::File), reference("./b")));
    assert!(!graph.add_edge(0, module("/b", ModuleKind::File), reference("./b.js")));
    assert!(!graph.add_edge(1, module("/a", ModuleKind::File), reference("./a")));
    assert_eq!(graph.node_count(), 2);
    assert_eq!(graph.edge_count(), 3);
    assert_eq!(
        graph.outgoing("/a"),
        vec![
            DependencyEdge {
                from: module("/a", ModuleKind::File),
                to: module("/b", ModuleKind::File),
                reference: reference("./b"),
            },
            DependencyEdge {
                from: module("/a", ModuleKind::File),
                to: module("/b", ModuleKind::File),
                reference: reference("./b.js"),
            },
        ]
    );
    assert_eq!(graph.outgoing("/b").len(), 1);
    assert_eq!(graph.outgoing("/c").len(), 0);
}

#[test]
fn errors_are_kept_in_order_and_by_file() {
    let mut graph = DependencyGraph::new();
    graph.ensure_node(module("/a", ModuleKind::File));
    graph.record_error("/a".to_string(), ErrorKind::Io);
    graph.record_error("/b".to_string(), ErrorKind::Io);
    assert_eq!(graph.errors().len(), 2);
    assert_eq!(graph.errors_of("/a"), vec![FileError { path: "/a".to_string(), kind: ErrorKind::Io }]);
    assert!(graph.errors_of("/c").is_empty());
}
