//! What a build yields, stated step by step and as a whole.
//!
//! The graph grows by one reference at a time: an edge, with its target as
//! a new node if need be, or an error. The references of a file are followed
//! in source order, and the nodes are expanded in the order in which they
//! were discovered. Apart from these steps the module says what the finished
//! graph is: complete, sound, and reached from the entry.
use crate::extract::extracted;
use crate::fs::{content_of, real_paths, EntryView};
use crate::graph::{has_node, well_formed, with_edge, with_error, GraphView};
use crate::model::{
    DependencyEdgeView, ErrorKindView, FileErrorView, ModuleKind, RawReferenceView,
    ResolvedModuleView, SyntaxErrorView,
};
use crate::path::normalize;
use crate::resolve::{module_at, resolution, ResolverConfigView};
use crate::syntax::SyntaxSiteView;
use crate::visitor::scanned;
use vstd::prelude::*;

verus! {

/// The graph after one reference of the file of node `from`: with one more
/// edge if the reference resolves, with one more error if it does not, and
/// nothing if the edge would lead to a node beyond the limit.
pub open spec fn after_reference(
    graph: GraphView,
    fs: Seq<EntryView>,
    config: ResolverConfigView,
    limit: nat,
    from: int,
    reference: RawReferenceView,
) -> Option<GraphView> {
    let containing_file = graph.nodes[from].absolute_path;
    match resolution(fs, config, reference.specifier, containing_file) {
        Ok(module) => if has_node(graph.nodes, module.absolute_path) || graph.nodes.len()
            < limit {
            Some(with_edge(graph, from, module, reference))
        } else {
            None
        },
        Err(error) => Some(
            with_error(
                graph,
                FileErrorView {
                    path: containing_file,
                    kind: ErrorKindView::Resolution { error, span: reference.source_span },
                },
            ),
        ),
    }
}

/// The graph after the references of the file of node `from`, taken in
/// order.
pub open spec fn after_references(
    graph: GraphView,
    fs: Seq<EntryView>,
    config: ResolverConfigView,
    limit: nat,
    from: int,
    references: Seq<RawReferenceView>,
) -> Option<GraphView>
    decreases references.len(),
{
    if references.len() == 0 {
        Some(graph)
    } else {
        match after_reference(graph, fs, config, limit, from, references.first()) {
            Some(next) => after_references(next, fs, config, limit, from, references.drop_first()),
            None => None,
        }
    }
}

/// The graph after the file of node `from`, given what parsing it yields:
/// its references are followed, or its syntax error is recorded.
pub open spec fn after_scan(
    graph: GraphView,
    fs: Seq<EntryView>,
    config: ResolverConfigView,
    limit: nat,
    from: int,
    scan: Result<Seq<SyntaxSiteView>, SyntaxErrorView>,
) -> Option<GraphView> {
    match scan {
        Ok(sites) => after_references(graph, fs, config, limit, from, extracted(sites)),
        Err(error) => Some(
            with_error(
                graph,
                FileErrorView {
                    path: graph.nodes[from].absolute_path,
                    kind: ErrorKindView::Syntax(error),
                },
            ),
        ),
    }
}

/// The graph after node `from` is expanded: its file is read and parsed, or
/// recorded as unreadable.
pub open spec fn after_node(
    graph: GraphView,
    fs: Seq<EntryView>,
    config: ResolverConfigView,
    limit: nat,
    from: int,
) -> Option<GraphView> {
    match content_of(fs, graph.nodes[from].absolute_path) {
        Some(text) => after_scan(graph, fs, config, limit, from, scanned(text)),
        None => Some(
            with_error(
                graph,
                FileErrorView { path: graph.nodes[from].absolute_path, kind: ErrorKindView::Io },
            ),
        ),
    }
}

/// The graph after every node from `next` on is expanded, those included
/// that are discovered on the way.
pub open spec fn closure_from(
    graph: GraphView,
    fs: Seq<EntryView>,
    config: ResolverConfigView,
    limit: nat,
    next: nat,
) -> Option<GraphView>
    decreases limit - next,
{
    if next >= graph.nodes.len() {
        Some(graph)
    } else if next >= limit {
        None
    } else {
        match after_node(graph, fs, config, limit, next as int) {
            Some(expanded) => closure_from(expanded, fs, config, limit, next + 1),
            None => None,
        }
    }
}

/// The module that a build starts from: the file at the normalised entry
/// path, under its real path.
pub open spec fn entry_module(fs: Seq<EntryView>, entry: Seq<char>) -> ResolvedModuleView {
    module_at(fs, normalize(entry), ModuleKind::File)
}

/// The graph with the entry module as its only node.
pub open spec fn seeded(root: ResolvedModuleView) -> GraphView {
    GraphView { nodes: Seq::empty().push(root), edges: Seq::empty(), errors: Seq::empty() }
}

/// The dependency graph of `entry`, or nothing if it has more than `limit`
/// nodes.
pub open spec fn built(
    fs: Seq<EntryView>,
    config: ResolverConfigView,
    entry: Seq<char>,
    limit: nat,
) -> Option<GraphView> {
    if limit == 0 {
        None
    } else {
        closure_from(seeded(entry_module(fs, entry)), fs, config, limit, 0)
    }
}

/// The edges that the references of the file of `from` make, in order: one
/// for each reference that resolves.
pub open spec fn reference_edges(
    fs: Seq<EntryView>,
    config: ResolverConfigView,
    from: ResolvedModuleView,
    references: Seq<RawReferenceView>,
) -> Seq<DependencyEdgeView>
    decreases references.len(),
{
    if references.len() == 0 {
        Seq::empty()
    } else {
        let rest = reference_edges(fs, config, from, references.drop_first());
        match resolution(fs, config, references.first().specifier, from.absolute_path) {
            Ok(to) => seq![DependencyEdgeView { from, to, reference: references.first() }] + rest,
            Err(error) => rest,
        }
    }
}

/// The errors that the references of the file at `path` make, in order: one
/// for each reference that does not resolve, with the span of the
/// reference.
pub open spec fn reference_errors(
    fs: Seq<EntryView>,
    config: ResolverConfigView,
    path: Seq<char>,
    references: Seq<RawReferenceView>,
) -> Seq<FileErrorView>
    decreases references.len(),
{
    if references.len() == 0 {
        Seq::empty()
    } else {
        let rest = reference_errors(fs, config, path, references.drop_first());
        match resolution(fs, config, references.first().specifier, path) {
            Ok(to) => rest,
            Err(error) => seq![
                FileErrorView {
                    path,
                    kind: ErrorKindView::Resolution {
                        error,
                        span: references.first().source_span,
                    },
                },
            ] + rest,
        }
    }
}

/// The edges that leave a module: those of the references of its file, and
/// none if the file cannot be read or parsed.
pub open spec fn module_edges(
    fs: Seq<EntryView>,
    config: ResolverConfigView,
    module: ResolvedModuleView,
) -> Seq<DependencyEdgeView> {
    match content_of(fs, module.absolute_path) {
        Some(text) => match scanned(text) {
            Ok(sites) => reference_edges(fs, config, module, extracted(sites)),
            Err(error) => Seq::empty(),
        },
        None => Seq::empty(),
    }
}

/// The errors of a module: those of the references of its file, or the one
/// error that kept the file from being read or parsed.
pub open spec fn module_errors(
    fs: Seq<EntryView>,
    config: ResolverConfigView,
    module: ResolvedModuleView,
) -> Seq<FileErrorView> {
    match content_of(fs, module.absolute_path) {
        Some(text) => match scanned(text) {
            Ok(sites) => reference_errors(
                fs,
                config,
                module.absolute_path,
                extracted(sites),
            ),
            Err(error) => seq![
                FileErrorView { path: module.absolute_path, kind: ErrorKindView::Syntax(error) },
            ],
        },
        None => seq![FileErrorView { path: module.absolute_path, kind: ErrorKindView::Io }],
    }
}

/// The edges of the first `count` nodes, node after node.
pub open spec fn edges_through(
    fs: Seq<EntryView>,
    config: ResolverConfigView,
    nodes: Seq<ResolvedModuleView>,
    count: nat,
) -> Seq<DependencyEdgeView>
    decreases count,
{
    if count == 0 {
        Seq::empty()
    } else {
        edges_through(fs, config, nodes, (count - 1) as nat) + module_edges(
            fs,
            config,
            nodes[count - 1],
        )
    }
}

/// The errors of the first `count` nodes, node after node.
pub open spec fn errors_through(
    fs: Seq<EntryView>,
    config: ResolverConfigView,
    nodes: Seq<ResolvedModuleView>,
    count: nat,
) -> Seq<FileErrorView>
    decreases count,
{
    if count == 0 {
        Seq::empty()
    } else {
        errors_through(fs, config, nodes, (count - 1) as nat) + module_errors(
            fs,
            config,
            nodes[count - 1],
        )
    }
}

/// Whether the graph is complete: it holds, node after node, exactly the
/// edges and the errors of the files of its nodes.
pub open spec fn complete(fs: Seq<EntryView>, config: ResolverConfigView, graph: GraphView)
    -> bool {
    &&& graph.edges == edges_through(fs, config, graph.nodes, graph.nodes.len())
    &&& graph.errors == errors_through(fs, config, graph.nodes, graph.nodes.len())
}

/// Whether edge `edge` leads to node `node` from the node `parent`, which
/// was discovered before it.
pub open spec fn discovered(graph: GraphView, node: int, edge: int, parent: int) -> bool {
    &&& 0 <= edge < graph.edges.len()
    &&& 0 <= parent < node
    &&& graph.edges[edge].to == graph.nodes[node]
    &&& graph.edges[edge].from == graph.nodes[parent]
}

/// Whether some edge leads to node `node` from a node discovered before it.
pub open spec fn was_discovered(graph: GraphView, node: int) -> bool {
    exists|edge: int, parent: int| discovered(graph, node, edge, parent)
}

/// Whether every node but the first was reached: an edge leads to it from a
/// node discovered before it, so that a chain of edges leads to it from the
/// first node.
pub open spec fn reached(graph: GraphView) -> bool {
    forall|node: int| 0 < node < graph.nodes.len() ==> #[trigger] was_discovered(graph, node)
}

/// Whether a graph is sound and every node of it was reached.
pub open spec fn sound(graph: GraphView) -> bool {
    well_formed(graph) && reached(graph)
}

/// Whether every node but the first has the real path of an entry of the
/// file system.
pub open spec fn within(graph: GraphView, fs: Seq<EntryView>) -> bool {
    forall|node: int|
        0 < node < graph.nodes.len() ==> real_paths(fs).contains(
            (#[trigger] graph.nodes[node]).absolute_path,
        )
}

/// Whether `after` holds everything that `before` holds, in the same places.
pub open spec fn extends(before: GraphView, after: GraphView) -> bool {
    &&& before.nodes.is_prefix_of(after.nodes)
    &&& before.edges.is_prefix_of(after.edges)
    &&& before.errors.is_prefix_of(after.errors)
}

} // verus!
