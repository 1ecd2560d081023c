use modgraph::builder::{
    build, build_all, expand_node, expand_with, link_reference, link_references, BuildError,
};
use modgraph::fs::FileSystem;
use modgraph::graph::DependencyGraph;
use modgraph::model::{
    DependencyEdge, ErrorKind, FileError, ImportKind, ModuleKind, RawReference, ResolutionError,
    ResolvedModule, Span, SyntaxError,
};
use modgraph::resolve::ResolverConfig;

fn module(path: &str, kind: ModuleKind) -> ResolvedModule {
    ResolvedModule { absolute_path: path.to_string(), kind }
}

fn file(path: &str) -> ResolvedModule {
    module(path, ModuleKind::File)
}

fn require(specifier: &str, start: u32, end: u32) -> RawReference {
    RawReference {
        specifier: specifier.to_string(),
        kind: ImportKind::RequireCall,
        source_span: Span { start, end },
    }
}

#[test]
fn single_file_without_references() {
    let mut fs = FileSystem::new();
    fs.add_file("/p/main.js", "const a = 1;");
    let graph = build(&fs, &ResolverConfig::default(), "/p/main.js", 10).unwrap();
    assert_eq!(graph.nodes(), &vec![file("/p/main.js")]);
    assert!(graph.edges().is_empty());
    assert!(graph.errors().is_empty());
}

#[test]
fn entry_path_is_normalised() {
    let mut fs = FileSystem::new();
    fs.add_file("/p/main.js", "");
    let graph = build(&fs, &ResolverConfig::default(), "/p/./x/../main.js", 10).unwrap();
    assert_eq!(graph.nodes(), &vec![file("/p/main.js")]);
}

#[test]
fn circular_requires_end_with_two_nodes_and_two_edges() {
    let mut fs = FileSystem::new();
    fs.add_file("/p/a.js", "require('./b.js');");
    fs.add_file("/p/b.js", "require('./a.js');");
    let graph = build(&fs, &ResolverConfig::default(), "/p/a.js", 10).unwrap();
    assert_eq!(graph.nodes(), &vec![file("/p/a.js"), file("/p/b.js")]);
    assert_eq!(
        graph.edges(),
        &vec![
            DependencyEdge { from: file("/p/a.js"), to: file("/p/b.js"), reference: require("./b.js", 1, 18) },
            DependencyEdge { from: file("/p/b.js"), to: file("/p/a.js"), reference: require("./a.js", 1, 18) },
        ]
    );
    assert!(graph.errors().is_empty());
}

#[test]
fn file_that_requires_itself() {
    let mut fs = FileSystem::new();
    fs.add_file("/p/a.js", "require('./a');");
    let graph = build(&fs, &ResolverConfig::default(), "/p/a.js", 1).unwrap();
    assert_eq!(graph.node_count(), 1);
    assert_eq!(graph.edge_count(), 1);
}

#[test]
fn aliases_of_one_file_share_a_node() {
    let mut fs = FileSystem::new();
    fs.add_file("/p/main.js", "require('./real');\nrequire('./alias');");
    fs.add_file("/p/real.js", "");
    assert!(fs.add_link("/p/alias.js", "/p/real.js"));
    let graph = build(&fs, &ResolverConfig::default(), "/p/main.js", 10).unwrap();
    assert_eq!(graph.nodes(), &vec![file("/p/main.js"), file("/p/real.js")]);
    assert_eq!(
        graph.edges(),
        &vec![
            DependencyEdge { from: file("/p/main.js"), to: file("/p/real.js"), reference: require("./real", 1, 18) },
            DependencyEdge { from: file("/p/main.js"), to: file("/p/real.js"), reference: require("./alias", 20, 38) },
        ]
    );
}

#[test]
fn entry_given_by_an_alias_is_known_by_its_real_path() {
    let mut fs = FileSystem::new();
    fs.add_file("/real/main.js", "require('./a');");
    fs.add_file("/real/a.js", "");
    assert!(fs.add_link("/link/main.js", "/real/main.js"));
    let graph = build(&fs, &ResolverConfig::default(), "/link/main.js", 10).unwrap();
    assert_eq!(graph.nodes(), &vec![file("/real/main.js"), file("/real/a.js")]);
}

#[test]
fn syntax_error_in_a_dependency_does_not_end_the_build() {
    let mut fs = FileSystem::new();
    fs.add_file("/p/main.js", "require('./broken');\nrequire('./fine');");
    fs.add_file("/p/broken.js", "const = ;\nrequire('./never');");
    fs.add_file("/p/fine.js", "require('./leaf');");
    fs.add_file("/p/leaf.js", "");
    fs.add_file("/p/never.js", "");
    let graph = build(&fs, &ResolverConfig::default(), "/p/main.js", 10).unwrap();
    assert_eq!(
        graph.nodes(),
        &vec![file("/p/main.js"), file("/p/broken.js"), file("/p/fine.js"), file("/p/leaf.js")]
    );
    assert_eq!(graph.edge_count(), 3);
    assert_eq!(graph.errors().len(), 1);
    assert_eq!(graph.errors()[0].path, "/p/broken.js");
    assert!(matches!(graph.errors()[0].kind, ErrorKind::Syntax(_)));
    assert!(graph.outgoing("/p/broken.js").is_empty());
    assert_eq!(graph.errors_of("/p/broken.js").len(), 1);
    assert!(graph.errors_of("/p/main.js").is_empty());
}

#[test]
fn syntax_error_in_the_entry_gives_an_error_only_graph() {
    let mut fs = FileSystem::new();
    fs.add_file("/p/main.js", "import from;");
    let graph = build(&fs, &ResolverConfig::default(), "/p/main.js", 10).unwrap();
    assert_eq!(graph.node_count(), 1);
    assert_eq!(graph.edge_count(), 0);
    assert_eq!(graph.errors().len(), 1);
}

#[test]
fn unresolved_references_are_recorded_and_the_rest_is_followed() {
    let mut fs = FileSystem::new();
    fs.add_file("/p/main.js", "require('./gone');\nimport x from 'nopkg';\nrequire('./a');");
    fs.add_file("/p/a.js", "");
    let graph = build(&fs, &ResolverConfig::default(), "/p/main.js", 10).unwrap();
    assert_eq!(graph.nodes(), &vec![file("/p/main.js"), file("/p/a.js")]);
    assert_eq!(graph.edge_count(), 1);
    assert_eq!(
        graph.errors(),
        &vec![
            FileError {
                path: "/p/main.js".to_string(),
                kind: ErrorKind::Resolution {
                    error: ResolutionError::NotFound {
                        specifier: "./gone".to_string(),
                        containing_file: "/p/main.js".to_string(),
                    },
                    span: Span { start: 1, end: 18 },
                },
            },
            FileError {
                path: "/p/main.js".to_string(),
                kind: ErrorKind::Resolution {
                    error: ResolutionError::PackageNotFound { specifier: "nopkg".to_string() },
                    span: Span { start: 20, end: 42 },
                },
            },
        ]
    );
}

#[test]
fn missing_entry_is_an_io_error() {
    let fs = FileSystem::new();
    let graph = build(&fs, &ResolverConfig::default(), "/p/main.js", 10).unwrap();
    assert_eq!(graph.nodes(), &vec![file("/p/main.js")]);
    assert_eq!(graph.errors(), &vec![FileError { path: "/p/main.js".to_string(), kind: ErrorKind::Io }]);
}

#[test]
fn diamond_is_walked_breadth_first_and_each_file_once() {
    let mut fs = FileSystem::new();
    fs.add_file("/p/main.js", "require('./l');\nrequire('./r');");
    fs.add_file("/p/l.js", "require('./deep');\nrequire('./shared');");
    fs.add_file("/p/r.js", "require('./shared');");
    fs.add_file("/p/shared.js", "");
    fs.add_file("/p/deep.js", "");
    let graph = build(&fs, &ResolverConfig::default(), "/p/main.js", 10).unwrap();
    assert_eq!(
        graph.nodes(),
        &vec![file("/p/main.js"), file("/p/l.js"), file("/p/r.js"), file("/p/deep.js"), file("/p/shared.js")]
    );
    let targets: Vec<&str> = graph.edges().iter().map(|edge| edge.to.absolute_path.as_str()).collect();
    assert_eq!(targets, vec!["/p/l.js", "/p/r.js", "/p/deep.js", "/p/shared.js", "/p/shared.js"]);
    assert_eq!(graph.outgoing("/p/l.js").len(), 2);
    assert_eq!(graph.outgoing("/p/shared.js").len(), 0);
}

#[test]
fn building_twice_gives_the_same_graph() {
    let mut fs = FileSystem::new();
    fs.add_file("/p/main.js", "import a from './a';\nimport { b } from 'pkg';\nrequire('./gone');");
    fs.add_file("/p/a.js", "require('pkg/extra');");
    fs.add_directory("/p/node_modules/pkg");
    fs.add_file("/p/node_modules/pkg/package.json", "{\"main\": \"main.js\"}");
    fs.add_file("/p/node_modules/pkg/main.js", "require('./extra');");
    fs.add_file("/p/node_modules/pkg/extra.js", "require('../../a');");
    let config = ResolverConfig::default();
    let first = build(&fs, &config, "/p/main.js", 10).unwrap();
    let second = build(&fs, &config, "/p/main.js", 10).unwrap();
    assert_eq!(first, second);
    assert_eq!(
        first.nodes(),
        &vec![
            file("/p/main.js"),
            file("/p/a.js"),
            module("/p/node_modules/pkg/main.js", ModuleKind::PackageMain),
            file("/p/node_modules/pkg/extra.js"),
        ]
    );
    assert_eq!(first.edge_count(), 5);
    assert_eq!(first.errors().len(), 1);
}

#[test]
fn limit_ends_the_build() {
    let mut fs = FileSystem::new();
    fs.add_file("/p/main.js", "require('./a');\nrequire('./b');");
    fs.add_file("/p/a.js", "");
    fs.add_file("/p/b.js", "");
    let config = ResolverConfig::default();
    assert_eq!(build(&fs, &config, "/p/main.js", 0), Err(BuildError::LimitExceeded { limit: 0 }));
    assert_eq!(build(&fs, &config, "/p/main.js", 2), Err(BuildError::LimitExceeded { limit: 2 }));
    assert_eq!(build(&fs, &config, "/p/main.js", 3).unwrap().node_count(), 3);
}

#[test]
fn link_reference_adds_edge_or_error() {
    let mut fs = FileSystem::new();
    fs.add_file("/p/a.js", "");
    let config = ResolverConfig::default();
    let mut graph = DependencyGraph::new();
    assert!(graph.ensure_node(file("/p/main.js")));
    assert_eq!(link_reference(&mut graph, &fs, &config, 2, 0, require("./a", 1, 5)), Ok(()));
    assert_eq!(link_reference(&mut graph, &fs, &config, 2, 0, require("./b", 6, 9)), Ok(()));
    assert_eq!(graph.node_count(), 2);
    assert_eq!(graph.edge_count(), 1);
    assert_eq!(graph.errors().len(), 1);
    fs.add_file("/p/b.js", "");
    let before = graph.edge_count();
    assert_eq!(
        link_reference(&mut graph, &fs, &config, 2, 0, require("./b", 6, 9)),
        Err(BuildError::LimitExceeded { limit: 2 })
    );
    assert_eq!(graph.node_count(), 2);
    assert_eq!(graph.edge_count(), before);
    assert_eq!(link_reference(&mut graph, &fs, &config, 2, 1, require("./a", 1, 5)), Ok(()));
    assert_eq!(graph.edge_count(), before + 1);
}

#[test]
fn expand_with_records_the_syntax_error_it_is_given() {
    let fs = FileSystem::new();
    let config = ResolverConfig::default();
    let mut graph = DependencyGraph::new();
    graph.ensure_node(file("/p/main.js"));
    let error = SyntaxError { message: "unexpected".to_string(), span: Span { start: 4, end: 5 } };
    assert_eq!(expand_with(&mut graph, &fs, &config, 5, 0, Err(error.clone())), Ok(()));
    assert_eq!(
        graph.errors(),
        &vec![FileError { path: "/p/main.js".to_string(), kind: ErrorKind::Syntax(error) }]
    );
    assert_eq!(expand_with(&mut graph, &fs, &config, 5, 0, Ok(vec![])), Ok(()));
    assert_eq!(graph.errors().len(), 1);
}

#[test]
fn expand_node_reads_the_file_of_the_node() {
    let mut fs = FileSystem::new();
    fs.add_file("/p/main.js", "require('./a');");
    fs.add_file("/p/a.js", "");
    let config = ResolverConfig::default();
    let mut graph = DependencyGraph::new();
    graph.ensure_node(file("/p/main.js"));
    assert_eq!(expand_node(&mut graph, &fs, &config, 5, 0), Ok(()));
    assert_eq!(graph.nodes(), &vec![file("/p/main.js"), file("/p/a.js")]);
}

#[test]
fn link_references_follows_all_in_order() {
    let mut fs = FileSystem::new();
    fs.add_file("/p/a.js", "");
    fs.add_file("/p/b.js", "");
    let config = ResolverConfig::default();
    let mut graph = DependencyGraph::new();
    graph.ensure_node(file("/p/main.js"));
    let references = vec![require("./b", 1, 2), require("./none", 3, 4), require("./a", 5, 6)];
    assert_eq!(link_references(&mut graph, &fs, &config, 3, 0, references), Ok(()));
    assert_eq!(graph.nodes(), &vec![file("/p/main.js"), file("/p/b.js"), file("/p/a.js")]);
    assert_eq!(graph.edge_count(), 2);
    assert_eq!(graph.errors().len(), 1);
    let mut small = DependencyGraph::new();
    small.ensure_node(file("/p/main.js"));
    let references = vec![require("./b", 1, 2), require("./a", 5, 6)];
    assert_eq!(
        link_references(&mut small, &fs, &config, 2, 0, references),
        Err(BuildError::LimitExceeded { limit: 2 })
    );
}

#[test]
fn build_all_needs_no_limit() {
    let mut fs = FileSystem::new();
    fs.add_file("/p/a.js", "require('./b');\nrequire('./c');");
    fs.add_file("/p/b.js", "require('./c');\nrequire('./a');");
    fs.add_file("/p/c.js", "require('./a');");
    let config = ResolverConfig::default();
    let graph = build_all(&fs, &config, "/p/a.js");
    assert_eq!(graph.nodes(), &vec![file("/p/a.js"), file("/p/b.js"), file("/p/c.js")]);
    assert_eq!(graph.edge_count(), 5);
    assert_eq!(Ok(graph), build(&fs, &config, "/p/a.js", 3));
}

#[test]
fn limit_changes_nothing_of_a_graph_within_it() {
    let mut fs = FileSystem::new();
    fs.add_file("/p/a.js", "require('./b');");
    fs.add_file("/p/b.js", "require('./a');");
    let config = ResolverConfig::default();
    let small = build(&fs, &config, "/p/a.js", 2).unwrap();
    let large = build(&fs, &config, "/p/a.js", usize::MAX).unwrap();
    assert_eq!(small, large);
}

#[test]
fn build_all_of_a_missing_entry_has_one_node() {
    let fs = FileSystem::new();
    let graph = build_all(&fs, &ResolverConfig::default(), "/none.js");
    assert_eq!(graph.node_count(), 1);
    assert_eq!(graph.errors().len(), 1);
}

#[test]
fn nodes_behind_the_entry_are_files_under_their_own_real_paths() {
    let mut fs = FileSystem::new();
    fs.add_file("/real/main.js", "require('./a');\nrequire('pkg');\nrequire('./gone');");
    fs.add_file("/real/shared.js", "require('./main');");
    assert!(fs.add_link("/real/a.js", "/real/shared.js"));
    fs.add_directory("/real/node_modules/pkg");
    fs.add_file("/real/node_modules/pkg/index.js", "require('../../a.js');");
    let graph = build_all(&fs, &ResolverConfig::default(), "/real/main.js");
    assert_eq!(
        graph.nodes(),
        &vec![
            file("/real/main.js"),
            file("/real/shared.js"),
            module("/real/node_modules/pkg/index.js", ModuleKind::DirectoryIndex),
        ]
    );
    for node in graph.nodes() {
        assert!(fs.is_file(&node.absolute_path));
        assert_eq!(fs.canonicalize(&node.absolute_path), Some(node.absolute_path.clone()));
    }
    assert_eq!(graph.edge_count(), 4);
}
