//! The dependency graph: modules, the references between them, and the
//! errors met on the way.
//!
//! A graph only grows. Its nodes are kept in the order in which they were
//! discovered and its edges in the order in which they were recorded, so
//! that enumerating it gives the same sequence for the same construction.
use crate::model::{
    views, DependencyEdge, DependencyEdgeView, ErrorKind, FileError, FileErrorView,
    RawReference, RawReferenceView, ResolvedModule, ResolvedModuleView,
};
use vstd::prelude::*;
use vstd::string::StringExecFns;

verus! {

/// What a graph holds.
pub struct GraphView {
    /// The modules, in order of discovery.
    pub nodes: Seq<ResolvedModuleView>,
    /// The references between modules, in the order in which they were
    /// recorded.
    pub edges: Seq<DependencyEdgeView>,
    /// The errors, in the order in which they were met.
    pub errors: Seq<FileErrorView>,
}

/// Whether some node has the path `path`.
pub open spec fn has_node(nodes: Seq<ResolvedModuleView>, path: Seq<char>) -> bool {
    exists|index: int| 0 <= index < nodes.len() && (#[trigger] nodes[index]).absolute_path == path
}

/// No two nodes have the same path.
pub open spec fn distinct_paths(nodes: Seq<ResolvedModuleView>) -> bool {
    forall|first: int, second: int|
        0 <= first < second < nodes.len() ==> (#[trigger] nodes[first]).absolute_path != (
        #[trigger] nodes[second]).absolute_path
}

/// Whether some node is the module `module`, with its path and its kind.
pub open spec fn is_node(nodes: Seq<ResolvedModuleView>, module: ResolvedModuleView) -> bool {
    exists|index: int| 0 <= index < nodes.len() && #[trigger] nodes[index] == module
}

/// The graph is sound: each path is the identity of one node, every edge
/// leaves a node of the graph, and every edge arrives at the path of one.
pub open spec fn well_formed(graph: GraphView) -> bool {
    &&& distinct_paths(graph.nodes)
    &&& forall|index: int|
        0 <= index < graph.edges.len() ==> is_node(graph.nodes, (#[trigger] graph.edges[index]).from)
    &&& forall|index: int|
        0 <= index < graph.edges.len() ==> has_node(
            graph.nodes,
            (#[trigger] graph.edges[index]).to.absolute_path,
        )
}

/// The graph without nodes.
pub open spec fn empty_graph() -> GraphView {
    GraphView { nodes: Seq::empty(), edges: Seq::empty(), errors: Seq::empty() }
}

/// The nodes with `module` among them: it is added behind the others unless
/// its path is already the path of a node.
pub open spec fn with_node(nodes: Seq<ResolvedModuleView>, module: ResolvedModuleView) -> Seq<
    ResolvedModuleView,
> {
    if has_node(nodes, module.absolute_path) {
        nodes
    } else {
        nodes.push(module)
    }
}

/// The graph with one more edge, from node `from` to `to`, and with `to`
/// among its nodes.
pub open spec fn with_edge(
    graph: GraphView,
    from: int,
    to: ResolvedModuleView,
    reference: RawReferenceView,
) -> GraphView {
    GraphView {
        nodes: with_node(graph.nodes, to),
        edges: graph.edges.push(DependencyEdgeView { from: graph.nodes[from], to, reference }),
        errors: graph.errors,
    }
}

/// The graph with one more error.
pub open spec fn with_error(graph: GraphView, error: FileErrorView) -> GraphView {
    GraphView { nodes: graph.nodes, edges: graph.edges, errors: graph.errors.push(error) }
}

/// The edges that leave the module at `path`, in the order in which they
/// were recorded.
pub open spec fn edges_from(edges: Seq<DependencyEdgeView>, path: Seq<char>) -> Seq<
    DependencyEdgeView,
>
    decreases edges.len(),
{
    if edges.len() == 0 {
        Seq::empty()
    } else if edges.last().from.absolute_path == path {
        edges_from(edges.drop_last(), path).push(edges.last())
    } else {
        edges_from(edges.drop_last(), path)
    }
}

/// The errors met in the file at `path`, in the order in which they were
/// met.
pub open spec fn errors_in(errors: Seq<FileErrorView>, path: Seq<char>) -> Seq<FileErrorView>
    decreases errors.len(),
{
    if errors.len() == 0 {
        Seq::empty()
    } else if errors.last().path == path {
        errors_in(errors.drop_last(), path).push(errors.last())
    } else {
        errors_in(errors.drop_last(), path)
    }
}

/// A dependency graph.
#[derive(Debug, PartialEq, Eq)]
pub struct DependencyGraph {
    nodes: Vec<ResolvedModule>,
    edges: Vec<DependencyEdge>,
    errors: Vec<FileError>,
}

impl View for DependencyGraph {
    type V = GraphView;

    closed spec fn view(&self) -> GraphView {
        GraphView {
            nodes: views(self.nodes@),
            edges: views(self.edges@),
            errors: views(self.errors@),
        }
    }
}

impl DependencyGraph {
    /// The graph without nodes.
    pub fn new() -> (graph: DependencyGraph)
        ensures
            graph@ == empty_graph(),
            well_formed(graph@),
    {
        let graph = DependencyGraph { nodes: Vec::new(), edges: Vec::new(), errors: Vec::new() };
        assert(graph@.nodes =~= Seq::empty());
        assert(graph@.edges =~= Seq::empty());
        assert(graph@.errors =~= Seq::empty());
        graph
    }

    /// The number of nodes.
    pub fn node_count(&self) -> (count: usize)
        ensures
            count == self@.nodes.len(),
    {
        self.nodes.len()
    }

    /// The number of edges.
    pub fn edge_count(&self) -> (count: usize)
        ensures
            count == self@.edges.len(),
    {
        self.edges.len()
    }

    /// The nodes, in order of discovery.
    pub fn nodes(&self) -> (nodes: &Vec<ResolvedModule>)
        ensures
            views(nodes@) == self@.nodes,
    {
        &self.nodes
    }

    /// The edges, in the order in which they were recorded.
    pub fn edges(&self) -> (edges: &Vec<DependencyEdge>)
        ensures
            views(edges@) == self@.edges,
    {
        &self.edges
    }

    /// The errors, in the order in which they were met.
    pub fn errors(&self) -> (errors: &Vec<FileError>)
        ensures
            views(errors@) == self@.errors,
    {
        &self.errors
    }

    /// The node at `index` in order of discovery.
    pub fn node_at(&self, index: usize) -> (module: &ResolvedModule)
        requires
            index < self@.nodes.len(),
        ensures
            module@ == self@.nodes[index as int],
    {
        &self.nodes[index]
    }

    /// Where the node with the path `path` stands in order of discovery.
    pub fn position(&self, path: &str) -> (found: Option<usize>)
        ensures
            found is Some == has_node(self@.nodes, path@),
            found matches Some(index) ==> index < self@.nodes.len()
                && self@.nodes[index as int].absolute_path == path@ && forall|earlier: int|
                0 <= earlier < index ==> (#[trigger] self@.nodes[earlier]).absolute_path != path@,
    {
        let wanted = String::from_str(path);
        let mut index: usize = 0;
        while index < self.nodes.len()
            invariant
                index <= self.nodes.len(),
                wanted@ == path@,
                forall|earlier: int|
                    0 <= earlier < index ==> (#[trigger] self@.nodes[earlier]).absolute_path
                        != path@,
            decreases self.nodes.len() - index,
        {
            assert(self@.nodes[index as int] == self.nodes@[index as int]@);
            if self.nodes[index].absolute_path == wanted {
                return Some(index);
            }
            index = index + 1;
        }
        None
    }

    /// The node with the path `path`, if there is one.
    pub fn node(&self, path: &str) -> (module: Option<&ResolvedModule>)
        ensures
            module is Some == has_node(self@.nodes, path@),
            module matches Some(found) ==> is_node(self@.nodes, found@) && found@.absolute_path
                == path@,
    {
        match self.position(path) {
            Some(index) => {
                assert(self@.nodes[index as int] == self.nodes@[index as int]@);
                Some(&self.nodes[index])
            },
            None => None,
        }
    }

    /// The edges that leave the module at `path`, in the order in which they
    /// were recorded.
    pub fn outgoing(&self, path: &str) -> (edges: Vec<DependencyEdge>)
        ensures
            views(edges@) == edges_from(self@.edges, path@),
    {
        let wanted = String::from_str(path);
        let mut edges: Vec<DependencyEdge> = Vec::new();
        let mut index: usize = 0;
        assert(self@.edges.take(0) =~= Seq::empty());
        assert(views(edges@) =~= Seq::empty());
        while index < self.edges.len()
            invariant
                index <= self.edges.len(),
                wanted@ == path@,
                views(edges@) == edges_from(self@.edges.take(index as int), path@),
            decreases self.edges.len() - index,
        {
            let ghost held = views(edges@);
            let ghost done = self@.edges.take(index + 1);
            assert(done.drop_last() =~= self@.edges.take(index as int));
            assert(done.last() == self.edges@[index as int]@);
            if self.edges[index].from.absolute_path == wanted {
                let edge = self.edges[index].clone();
                edges.push(edge);
                assert(views(edges@) =~= held.push(edge@));
            }
            index = index + 1;
        }
        assert(self@.edges.take(index as int) =~= self@.edges);
        edges
    }

    /// The errors met in the file at `path`, in the order in which they were
    /// met.
    pub fn errors_of(&self, path: &str) -> (errors: Vec<FileError>)
        ensures
            views(errors@) == errors_in(self@.errors, path@),
    {
        let wanted = String::from_str(path);
        let mut errors: Vec<FileError> = Vec::new();
        let mut index: usize = 0;
        assert(self@.errors.take(0) =~= Seq::empty());
        assert(views(errors@) =~= Seq::empty());
        while index < self.errors.len()
            invariant
                index <= self.errors.len(),
                wanted@ == path@,
                views(errors@) == errors_in(self@.errors.take(index as int), path@),
            decreases self.errors.len() - index,
        {
            let ghost held = views(errors@);
            let ghost done = self@.errors.take(index + 1);
            assert(done.drop_last() =~= self@.errors.take(index as int));
            assert(done.last() == self.errors@[index as int]@);
            if self.errors[index].path == wanted {
                let error = self.errors[index].clone();
                errors.push(error);
                assert(views(errors@) =~= held.push(error@));
            }
            index = index + 1;
        }
        assert(self@.errors.take(index as int) =~= self@.errors);
        errors
    }

    /// Makes `module` a node unless its path is already the path of one.
    /// The answer tells whether a node was added.
    pub fn ensure_node(&mut self, module: ResolvedModule) -> (added: bool)
        requires
            well_formed(old(self)@),
        ensures
            well_formed(final(self)@),
            added == !has_node(old(self)@.nodes, module@.absolute_path),
            final(self)@ == (GraphView {
                nodes: with_node(old(self)@.nodes, module@),
                edges: old(self)@.edges,
                errors: old(self)@.errors,
            }),
    {
        let ghost before = self@;
        match self.position(module.absolute_path.as_str()) {
            Some(_) => false,
            None => {
                self.nodes.push(module);
                assert(self@.nodes =~= before.nodes.push(module@));
                proof {
                    lemma_push_keeps_well_formed(before, module@);
                }
                true
            },
        }
    }

    /// Records a reference from the node at `from` to `to`, and makes `to` a
    /// node unless its path is already the path of one. The answer tells
    /// whether a node was added.
    pub fn add_edge(&mut self, from: usize, to: ResolvedModule, reference: RawReference) -> (added:
        bool)
        requires
            well_formed(old(self)@),
            from < old(self)@.nodes.len(),
        ensures
            well_formed(final(self)@),
            added == !has_node(old(self)@.nodes, to@.absolute_path),
            final(self)@ == with_edge(old(self)@, from as int, to@, reference@),
    {
        let ghost before = self@;
        assert(before.nodes[from as int] == self.nodes@[from as int]@);
        let edge = DependencyEdge { from: self.nodes[from].clone(), to: to.clone(), reference };
        let added = self.ensure_node(to);
        let ghost between = self@;
        self.edges.push(edge);
        assert(self@.edges =~= before.edges.push(edge@));
        proof {
            lemma_with_edge_well_formed(before, from as int, to@, reference@);
            assert(self@ == with_edge(before, from as int, to@, reference@));
        }
        added
    }

    /// Records an error met in the file at `path`.
    pub fn record_error(&mut self, path: String, kind: ErrorKind)
        requires
            well_formed(old(self)@),
        ensures
            well_formed(final(self)@),
            final(self)@ == with_error(old(self)@, FileErrorView { path: path@, kind: kind@ }),
    {
        let ghost before = self@;
        let error = FileError { path, kind };
        self.errors.push(error);
        assert(self@.errors =~= before.errors.push(error@));
    }
}

/// A sound graph stays sound when a module with a new path becomes a node.
pub proof fn lemma_push_keeps_well_formed(graph: GraphView, module: ResolvedModuleView)
    requires
        well_formed(graph),
        !has_node(graph.nodes, module.absolute_path),
    ensures
        well_formed(
            GraphView {
                nodes: graph.nodes.push(module),
                edges: graph.edges,
                errors: graph.errors,
            },
        ),
{
    let nodes = graph.nodes.push(module);
    assert forall|first: int, second: int| 0 <= first < second < nodes.len() implies (
    #[trigger] nodes[first]).absolute_path != (#[trigger] nodes[second]).absolute_path by {
        if second == graph.nodes.len() {
            assert(nodes[first] == graph.nodes[first]);
        } else {
            assert(nodes[first] == graph.nodes[first]);
            assert(nodes[second] == graph.nodes[second]);
        }
    }
    assert forall|index: int| 0 <= index < graph.edges.len() implies is_node(
        nodes,
        (#[trigger] graph.edges[index]).from,
    ) by {
        let at = choose|at: int|
            0 <= at < graph.nodes.len() && #[trigger] graph.nodes[at] == graph.edges[index].from;
        assert(nodes[at] == graph.nodes[at]);
    }
    assert forall|index: int| 0 <= index < graph.edges.len() implies has_node(
        nodes,
        (#[trigger] graph.edges[index]).to.absolute_path,
    ) by {
        let at = choose|at: int|
            0 <= at < graph.nodes.len() && (#[trigger] graph.nodes[at]).absolute_path
                == graph.edges[index].to.absolute_path;
        assert(nodes[at] == graph.nodes[at]);
    }
}

/// A sound graph stays sound when an edge from one of its nodes is
/// recorded, whether or not the edge leads to a new node.
pub proof fn lemma_with_edge_well_formed(
    graph: GraphView,
    from: int,
    to: ResolvedModuleView,
    reference: RawReferenceView,
)
    requires
        well_formed(graph),
        0 <= from < graph.nodes.len(),
    ensures
        well_formed(with_edge(graph, from, to, reference)),
{
    let grown = GraphView {
        nodes: with_node(graph.nodes, to),
        edges: graph.edges,
        errors: graph.errors,
    };
    if !has_node(graph.nodes, to.absolute_path) {
        lemma_push_keeps_well_formed(graph, to);
        assert(grown.nodes[graph.nodes.len() as int] == to);
    }
    assert(has_node(grown.nodes, to.absolute_path));
    assert(grown.nodes[from] == graph.nodes[from]);
    let after = with_edge(graph, from, to, reference);
    assert forall|index: int| 0 <= index < after.edges.len() implies is_node(
        after.nodes,
        (#[trigger] after.edges[index]).from,
    ) by {
        if index < graph.edges.len() {
            assert(after.edges[index] == grown.edges[index]);
        }
    }
    assert forall|index: int| 0 <= index < after.edges.len() implies has_node(
        after.nodes,
        (#[trigger] after.edges[index]).to.absolute_path,
    ) by {
        if index < graph.edges.len() {
            assert(after.edges[index] == grown.edges[index]);
        }
    }
}

} // verus!
