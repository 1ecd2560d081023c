//! What every step of a build keeps.
//!
//! A graph under construction only grows. It stays sound, its nodes stay
//! reached from the first, and it holds exactly the edges and errors of the
//! nodes expanded so far. The finished graph is therefore complete and
//! sound.
use crate::extract::extracted;
use crate::fs::{EntryView, content_of};
use crate::graph::{GraphView, lemma_with_edge_well_formed};
use crate::model::{
    DependencyEdgeView, ErrorKindView, FileErrorView, RawReferenceView, ResolvedModuleView,
};
use crate::plan::{
    after_node, after_reference, after_references, built, closure_from, complete, discovered,
    edges_through, entry_module, errors_through, extends, module_edges, module_errors, reached,
    reference_edges, reference_errors, seeded, sound, was_discovered, within,
};
use crate::resolve::{ResolverConfigView, resolution};
use crate::visitor::scanned;
use vstd::prelude::*;

verus! {

/// Following a reference removes nothing from the graph and keeps it within
/// the limit.
pub proof fn lemma_reference_extends(
    graph: GraphView,
    fs: Seq<EntryView>,
    config: ResolverConfigView,
    limit: nat,
    from: int,
    reference: RawReferenceView,
)
    requires
        after_reference(graph, fs, config, limit, from, reference) is Some,
    ensures
        extends(graph, after_reference(graph, fs, config, limit, from, reference)->Some_0),
        graph.nodes.len() <= limit ==> after_reference(
            graph,
            fs,
            config,
            limit,
            from,
            reference,
        )->Some_0.nodes.len() <= limit,
{
}

/// Following the references of a file removes nothing from the graph and
/// keeps it within the limit.
pub proof fn lemma_references_extend(
    graph: GraphView,
    fs: Seq<EntryView>,
    config: ResolverConfigView,
    limit: nat,
    from: int,
    references: Seq<RawReferenceView>,
)
    requires
        after_references(graph, fs, config, limit, from, references) is Some,
    ensures
        extends(graph, after_references(graph, fs, config, limit, from, references)->Some_0),
        graph.nodes.len() <= limit ==> after_references(
            graph,
            fs,
            config,
            limit,
            from,
            references,
        )->Some_0.nodes.len() <= limit,
    decreases references.len(),
{
    if references.len() > 0 {
        let next = after_reference(graph, fs, config, limit, from, references.first())->Some_0;
        lemma_reference_extends(graph, fs, config, limit, from, references.first());
        lemma_references_extend(next, fs, config, limit, from, references.drop_first());
    }
}

/// Expanding a node removes nothing from the graph and keeps it within the
/// limit.
pub proof fn lemma_node_extends(
    graph: GraphView,
    fs: Seq<EntryView>,
    config: ResolverConfigView,
    limit: nat,
    from: int,
)
    requires
        after_node(graph, fs, config, limit, from) is Some,
    ensures
        extends(graph, after_node(graph, fs, config, limit, from)->Some_0),
        graph.nodes.len() <= limit ==> after_node(graph, fs, config, limit, from)->Some_0.nodes.len()
            <= limit,
{
    match content_of(fs, graph.nodes[from].absolute_path) {
        Some(text) => match scanned(text) {
            Ok(sites) => {
                lemma_references_extend(graph, fs, config, limit, from, extracted(sites));
            },
            Err(error) => {},
        },
        None => {},
    }
}

/// Following references never takes a node away.
pub proof fn lemma_references_grow(
    graph: GraphView,
    fs: Seq<EntryView>,
    config: ResolverConfigView,
    limit: nat,
    from: int,
    references: Seq<RawReferenceView>,
)
    requires
        after_references(graph, fs, config, limit, from, references) is Some,
    ensures
        graph.nodes.len() <= after_references(
            graph,
            fs,
            config,
            limit,
            from,
            references,
        )->Some_0.nodes.len(),
    decreases references.len(),
{
    if references.len() > 0 {
        let next = after_reference(graph, fs, config, limit, from, references.first())->Some_0;
        lemma_references_grow(next, fs, config, limit, from, references.drop_first());
    }
}

/// Expanding nodes never takes a node away.
pub proof fn lemma_closure_grows(
    graph: GraphView,
    fs: Seq<EntryView>,
    config: ResolverConfigView,
    limit: nat,
    next: nat,
)
    requires
        closure_from(graph, fs, config, limit, next) is Some,
    ensures
        graph.nodes.len() <= closure_from(graph, fs, config, limit, next)->Some_0.nodes.len(),
    decreases limit - next,
{
    if next < graph.nodes.len() {
        let expanded = after_node(graph, fs, config, limit, next as int)->Some_0;
        lemma_node_extends(graph, fs, config, limit, next as int);
        lemma_closure_grows(expanded, fs, config, limit, next + 1);
    }
}

/// Following the references of a file adds the edges and the errors of
/// those references, and nothing else, behind those that the graph holds.
pub proof fn lemma_references_add(
    graph: GraphView,
    fs: Seq<EntryView>,
    config: ResolverConfigView,
    limit: nat,
    from: int,
    references: Seq<RawReferenceView>,
)
    requires
        0 <= from < graph.nodes.len(),
        after_references(graph, fs, config, limit, from, references) is Some,
    ensures
        after_references(graph, fs, config, limit, from, references)->Some_0.edges == graph.edges
            + reference_edges(fs, config, graph.nodes[from], references),
        after_references(graph, fs, config, limit, from, references)->Some_0.errors
            == graph.errors + reference_errors(
            fs,
            config,
            graph.nodes[from].absolute_path,
            references,
        ),
    decreases references.len(),
{
    let last = after_references(graph, fs, config, limit, from, references)->Some_0;
    if references.len() == 0 {
        assert(last.edges =~= graph.edges + Seq::<DependencyEdgeView>::empty());
        assert(last.errors =~= graph.errors + Seq::<FileErrorView>::empty());
    } else {
        let next = after_reference(graph, fs, config, limit, from, references.first())->Some_0;
        lemma_reference_extends(graph, fs, config, limit, from, references.first());
        assert(next.nodes[from] == graph.nodes[from]);
        lemma_references_add(next, fs, config, limit, from, references.drop_first());
        let more_edges = reference_edges(fs, config, graph.nodes[from], references.drop_first());
        let more_errors = reference_errors(
            fs,
            config,
            graph.nodes[from].absolute_path,
            references.drop_first(),
        );
        match resolution(
            fs,
            config,
            references.first().specifier,
            graph.nodes[from].absolute_path,
        ) {
            Ok(to) => {
                let edge = DependencyEdgeView {
                    from: graph.nodes[from],
                    to,
                    reference: references.first(),
                };
                assert(graph.edges.push(edge) + more_edges =~= graph.edges + (seq![edge]
                    + more_edges));
            },
            Err(error) => {
                let failure = FileErrorView {
                    path: graph.nodes[from].absolute_path,
                    kind: ErrorKindView::Resolution {
                        error,
                        span: references.first().source_span,
                    },
                };
                assert(graph.errors.push(failure) + more_errors =~= graph.errors + (seq![failure]
                    + more_errors));
            },
        }
    }
}

/// Expanding a node adds the edges and the errors of its module, and nothing
/// else, behind those that the graph holds.
pub proof fn lemma_node_adds(
    graph: GraphView,
    fs: Seq<EntryView>,
    config: ResolverConfigView,
    limit: nat,
    from: int,
)
    requires
        0 <= from < graph.nodes.len(),
        after_node(graph, fs, config, limit, from) is Some,
    ensures
        after_node(graph, fs, config, limit, from)->Some_0.edges == graph.edges + module_edges(
            fs,
            config,
            graph.nodes[from],
        ),
        after_node(graph, fs, config, limit, from)->Some_0.errors == graph.errors
            + module_errors(fs, config, graph.nodes[from]),
{
    let expanded = after_node(graph, fs, config, limit, from)->Some_0;
    match content_of(fs, graph.nodes[from].absolute_path) {
        Some(text) => match scanned(text) {
            Ok(sites) => {
                lemma_references_add(graph, fs, config, limit, from, extracted(sites));
            },
            Err(error) => {
                assert(expanded.edges =~= graph.edges + Seq::<DependencyEdgeView>::empty());
                assert(expanded.errors =~= graph.errors + module_errors(
                    fs,
                    config,
                    graph.nodes[from],
                ));
            },
        },
        None => {
            assert(expanded.edges =~= graph.edges + Seq::<DependencyEdgeView>::empty());
            assert(expanded.errors =~= graph.errors + module_errors(
                fs,
                config,
                graph.nodes[from],
            ));
        },
    }
}

/// The edges and errors of the first nodes do not change when nodes are
/// added behind them.
pub proof fn lemma_through_prefix(
    fs: Seq<EntryView>,
    config: ResolverConfigView,
    nodes: Seq<ResolvedModuleView>,
    longer: Seq<ResolvedModuleView>,
    count: nat,
)
    requires
        nodes.is_prefix_of(longer),
        count <= nodes.len(),
    ensures
        edges_through(fs, config, longer, count) == edges_through(fs, config, nodes, count),
        errors_through(fs, config, longer, count) == errors_through(fs, config, nodes, count),
    decreases count,
{
    if count > 0 {
        lemma_through_prefix(fs, config, nodes, longer, (count - 1) as nat);
        assert(longer[count - 1] == nodes[count - 1]);
    }
}

/// Once every node from `next` on is expanded, the graph is complete.
pub proof fn lemma_closure_is_complete(
    graph: GraphView,
    fs: Seq<EntryView>,
    config: ResolverConfigView,
    limit: nat,
    next: nat,
)
    requires
        next <= graph.nodes.len(),
        graph.edges == edges_through(fs, config, graph.nodes, next),
        graph.errors == errors_through(fs, config, graph.nodes, next),
        closure_from(graph, fs, config, limit, next) is Some,
    ensures
        complete(fs, config, closure_from(graph, fs, config, limit, next)->Some_0),
        extends(graph, closure_from(graph, fs, config, limit, next)->Some_0),
    decreases limit - next,
{
    if next < graph.nodes.len() {
        let expanded = after_node(graph, fs, config, limit, next as int)->Some_0;
        let last = closure_from(expanded, fs, config, limit, next + 1)->Some_0;
        lemma_node_extends(graph, fs, config, limit, next as int);
        lemma_node_adds(graph, fs, config, limit, next as int);
        lemma_through_prefix(fs, config, graph.nodes, expanded.nodes, next);
        assert(expanded.nodes[next as int] == graph.nodes[next as int]);
        lemma_closure_is_complete(expanded, fs, config, limit, next + 1);
        assert(graph.nodes.is_prefix_of(last.nodes)) by {
            assert(graph.nodes =~= last.nodes.subrange(0, graph.nodes.len() as int));
        }
        assert(graph.edges.is_prefix_of(last.edges)) by {
            assert(graph.edges =~= last.edges.subrange(0, graph.edges.len() as int));
        }
        assert(graph.errors.is_prefix_of(last.errors)) by {
            assert(graph.errors =~= last.errors.subrange(0, graph.errors.len() as int));
        }
    }
}

/// A built graph starts at the entry module and is complete: its edges are
/// the resolved references of the files of its nodes, and its errors those
/// of the same files, node after node; one unreadable or broken file takes
/// nothing from the others.
pub proof fn lemma_built_is_complete(
    fs: Seq<EntryView>,
    config: ResolverConfigView,
    entry: Seq<char>,
    limit: nat,
)
    requires
        built(fs, config, entry, limit) is Some,
    ensures
        built(fs, config, entry, limit)->Some_0.nodes.len() >= 1,
        built(fs, config, entry, limit)->Some_0.nodes[0] == entry_module(fs, entry),
        complete(fs, config, built(fs, config, entry, limit)->Some_0),
{
    let seed = seeded(entry_module(fs, entry));
    lemma_closure_is_complete(seed, fs, config, limit, 0);
    let last = built(fs, config, entry, limit)->Some_0;
    assert(seed.nodes[0] == last.nodes[0]);
}

/// A graph that extends another by edges and errors alone has reached what
/// the other has.
proof fn lemma_reached_is_kept(graph: GraphView, after: GraphView, node: int)
    requires
        extends(graph, after),
        0 < node < graph.nodes.len(),
        was_discovered(graph, node),
    ensures
        was_discovered(after, node),
{
    let (edge, parent) = choose|edge: int, parent: int| discovered(graph, node, edge, parent);
    assert(after.edges[edge] == graph.edges[edge]);
    assert(after.nodes[node] == graph.nodes[node]);
    assert(after.nodes[parent] == graph.nodes[parent]);
    assert(discovered(after, node, edge, parent));
}

/// A graph with the nodes and edges of a sound one is sound.
proof fn lemma_error_keeps_sound(graph: GraphView, after: GraphView)
    requires
        sound(graph),
        after.nodes == graph.nodes,
        after.edges == graph.edges,
    ensures
        sound(after),
{
    assert forall|node: int| 0 < node < after.nodes.len() implies #[trigger] was_discovered(
        after,
        node,
    ) by {
        assert(was_discovered(graph, node));
        let (edge, parent) = choose|edge: int, parent: int| discovered(graph, node, edge, parent);
        assert(discovered(after, node, edge, parent));
    }
}

/// Following a reference keeps the graph sound and its nodes reached.
pub proof fn lemma_reference_keeps_sound(
    graph: GraphView,
    fs: Seq<EntryView>,
    config: ResolverConfigView,
    limit: nat,
    from: int,
    reference: RawReferenceView,
)
    requires
        sound(graph),
        0 <= from < graph.nodes.len(),
        after_reference(graph, fs, config, limit, from, reference) is Some,
    ensures
        sound(after_reference(graph, fs, config, limit, from, reference)->Some_0),
{
    let after = after_reference(graph, fs, config, limit, from, reference)->Some_0;
    lemma_reference_extends(graph, fs, config, limit, from, reference);
    match resolution(fs, config, reference.specifier, graph.nodes[from].absolute_path) {
        Ok(to) => {
            lemma_with_edge_well_formed(graph, from, to, reference);
        },
        Err(error) => {},
    }
    assert forall|node: int| 0 < node < after.nodes.len() implies #[trigger] was_discovered(
        after,
        node,
    ) by {
        if node < graph.nodes.len() {
            lemma_reached_is_kept(graph, after, node);
        } else {
            assert(discovered(after, node, graph.edges.len() as int, from));
        }
    }
}

/// Following the references of a file keeps the graph sound and its nodes
/// reached.
pub proof fn lemma_references_keep_sound(
    graph: GraphView,
    fs: Seq<EntryView>,
    config: ResolverConfigView,
    limit: nat,
    from: int,
    references: Seq<RawReferenceView>,
)
    requires
        sound(graph),
        0 <= from < graph.nodes.len(),
        after_references(graph, fs, config, limit, from, references) is Some,
    ensures
        sound(after_references(graph, fs, config, limit, from, references)->Some_0),
    decreases references.len(),
{
    if references.len() > 0 {
        let next = after_reference(graph, fs, config, limit, from, references.first())->Some_0;
        lemma_reference_extends(graph, fs, config, limit, from, references.first());
        lemma_reference_keeps_sound(graph, fs, config, limit, from, references.first());
        lemma_references_keep_sound(next, fs, config, limit, from, references.drop_first());
    }
}

/// Expanding a node keeps the graph sound and its nodes reached.
pub proof fn lemma_node_keeps_sound(
    graph: GraphView,
    fs: Seq<EntryView>,
    config: ResolverConfigView,
    limit: nat,
    from: int,
)
    requires
        sound(graph),
        0 <= from < graph.nodes.len(),
        after_node(graph, fs, config, limit, from) is Some,
    ensures
        sound(after_node(graph, fs, config, limit, from)->Some_0),
{
    let after = after_node(graph, fs, config, limit, from)->Some_0;
    match content_of(fs, graph.nodes[from].absolute_path) {
        Some(text) => match scanned(text) {
            Ok(sites) => {
                lemma_references_keep_sound(graph, fs, config, limit, from, extracted(sites));
            },
            Err(error) => {
                lemma_error_keeps_sound(graph, after);
            },
        },
        None => {
            lemma_error_keeps_sound(graph, after);
        },
    }
}

/// Expanding every node from `next` on keeps the graph sound and its nodes
/// reached.
pub proof fn lemma_closure_is_sound(
    graph: GraphView,
    fs: Seq<EntryView>,
    config: ResolverConfigView,
    limit: nat,
    next: nat,
)
    requires
        sound(graph),
        closure_from(graph, fs, config, limit, next) is Some,
    ensures
        sound(closure_from(graph, fs, config, limit, next)->Some_0),
    decreases limit - next,
{
    if next < graph.nodes.len() {
        let expanded = after_node(graph, fs, config, limit, next as int)->Some_0;
        lemma_node_keeps_sound(graph, fs, config, limit, next as int);
        lemma_closure_is_sound(expanded, fs, config, limit, next + 1);
    }
}

/// A built graph is sound, and each of its nodes is the entry module or is
/// reached from it: no path is the identity of two nodes, every edge joins
/// two nodes, and every node but the first is the target of an edge that
/// leaves an earlier node.
pub proof fn lemma_built_is_sound(
    fs: Seq<EntryView>,
    config: ResolverConfigView,
    entry: Seq<char>,
    limit: nat,
)
    requires
        built(fs, config, entry, limit) is Some,
    ensures
        sound(built(fs, config, entry, limit)->Some_0),
{
    let seed = seeded(entry_module(fs, entry));
    assert(sound(seed));
    lemma_closure_is_sound(seed, fs, config, limit, 0);
}

} // verus!
