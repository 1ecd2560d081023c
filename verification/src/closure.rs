//! What holds of every built graph.
//!
//! The graph is closed under references, the edges that leave a node are the
//! resolved references of its file in source order, and the errors of a
//! node are those of its file. A module that several specifiers lead to is
//! one node, a reference back to a node adds no node, and a file that cannot
//! be parsed keeps nothing from the other files.
use crate::extract::extracted;
use crate::fs::{EntryView, consistent, content_of, is_canonical_file};
use crate::graph::{
    GraphView, distinct_paths, edges_from, errors_in, has_node, lemma_with_edge_well_formed,
    well_formed, with_node,
};
use crate::growth::{lemma_built_is_complete, lemma_built_is_sound};
use crate::model::{
    DependencyEdgeView, ErrorKindView, FileErrorView, RawReferenceView, ResolutionErrorView,
    ResolvedModuleView, SyntaxErrorView,
};
use crate::plan::{
    after_reference, after_references, after_scan, built, discovered, edges_through,
    errors_through, module_edges, module_errors, reference_edges, reference_errors,
    was_discovered,
};
use crate::resolve::{ResolverConfigView, lemma_resolution_is_canonical, resolution};
use crate::syntax::SyntaxSiteView;
use crate::visitor::scanned;
use vstd::prelude::*;

verus! {

/// A reference to a module that is already a node adds an edge and no node:
/// this is where a cycle of references ends.
pub proof fn lemma_reference_to_known_node(
    graph: GraphView,
    fs: Seq<EntryView>,
    config: ResolverConfigView,
    limit: nat,
    from: int,
    reference: RawReferenceView,
    to: ResolvedModuleView,
)
    requires
        resolution(fs, config, reference.specifier, graph.nodes[from].absolute_path) == Ok::<
            ResolvedModuleView,
            ResolutionErrorView,
        >(to),
        has_node(graph.nodes, to.absolute_path),
    ensures
        after_reference(graph, fs, config, limit, from, reference) == Some(
            GraphView {
                nodes: graph.nodes,
                edges: graph.edges.push(
                    DependencyEdgeView { from: graph.nodes[from], to, reference },
                ),
                errors: graph.errors,
            },
        ),
{
}

/// Two references of one file that resolve to the same real path make two
/// edges and at most one node: the module is a node once, whatever the
/// number of specifiers that lead to it.
pub proof fn lemma_aliases_share_node(
    graph: GraphView,
    fs: Seq<EntryView>,
    config: ResolverConfigView,
    limit: nat,
    from: int,
    first: RawReferenceView,
    second: RawReferenceView,
    to_first: ResolvedModuleView,
    to_second: ResolvedModuleView,
)
    requires
        well_formed(graph),
        0 <= from < graph.nodes.len(),
        resolution(fs, config, first.specifier, graph.nodes[from].absolute_path) == Ok::<
            ResolvedModuleView,
            ResolutionErrorView,
        >(to_first),
        resolution(fs, config, second.specifier, graph.nodes[from].absolute_path) == Ok::<
            ResolvedModuleView,
            ResolutionErrorView,
        >(to_second),
        to_first.absolute_path == to_second.absolute_path,
        after_references(graph, fs, config, limit, from, seq![first, second]) is Some,
    ensures
        ({
            let after = after_references(
                graph,
                fs,
                config,
                limit,
                from,
                seq![first, second],
            )->Some_0;
            &&& after.nodes == with_node(graph.nodes, to_first)
            &&& distinct_paths(after.nodes)
            &&& has_node(after.nodes, to_first.absolute_path)
            &&& after.edges == graph.edges.push(
                DependencyEdgeView { from: graph.nodes[from], to: to_first, reference: first },
            ).push(DependencyEdgeView { from: graph.nodes[from], to: to_second, reference: second })
            &&& after.errors == graph.errors
        }),
{
    let both = seq![first, second];
    let one = after_reference(graph, fs, config, limit, from, first)->Some_0;
    assert(both.first() == first);
    assert(both.drop_first() =~= seq![second]);
    assert(seq![second].first() == second);
    assert(seq![second].drop_first() =~= Seq::<RawReferenceView>::empty());
    lemma_with_edge_well_formed(graph, from, to_first, first);
    assert(one.nodes[from] == graph.nodes[from]);
    assert(has_node(one.nodes, to_first.absolute_path)) by {
        if !has_node(graph.nodes, to_first.absolute_path) {
            assert(one.nodes[graph.nodes.len() as int] == to_first);
        }
    }
    let two = after_reference(one, fs, config, limit, from, second)->Some_0;
    assert(after_references(two, fs, config, limit, from, Seq::empty()) == Some(two));
    assert(after_references(one, fs, config, limit, from, seq![second]) == after_references(
        two,
        fs,
        config,
        limit,
        from,
        Seq::empty(),
    )) by {
        reveal_with_fuel(after_references, 3);
    }
}

/// A file that cannot be parsed gives its module one error, the syntax
/// error, and no edge.
pub proof fn lemma_broken_file(
    fs: Seq<EntryView>,
    config: ResolverConfigView,
    module: ResolvedModuleView,
    text: Seq<char>,
    error: SyntaxErrorView,
)
    requires
        content_of(fs, module.absolute_path) == Some(text),
        scanned(text) == Err::<Seq<SyntaxSiteView>, SyntaxErrorView>(error),
    ensures
        module_edges(fs, config, module) == Seq::<DependencyEdgeView>::empty(),
        module_errors(fs, config, module) == seq![
            FileErrorView { path: module.absolute_path, kind: ErrorKindView::Syntax(error) },
        ],
{
}

/// A syntax error never ends the build: the node is expanded to the graph
/// it was, with the error recorded.
pub proof fn lemma_syntax_error_is_recorded(
    graph: GraphView,
    fs: Seq<EntryView>,
    config: ResolverConfigView,
    limit: nat,
    from: int,
    error: SyntaxErrorView,
)
    ensures
        after_scan(
            graph,
            fs,
            config,
            limit,
            from,
            Err::<Seq<SyntaxSiteView>, SyntaxErrorView>(error),
        ) == Some(
            GraphView {
                nodes: graph.nodes,
                edges: graph.edges,
                errors: graph.errors.push(
                    FileErrorView {
                        path: graph.nodes[from].absolute_path,
                        kind: ErrorKindView::Syntax(error),
                    },
                ),
            },
        ),
{
}

/// Two builds of the same entry over the same file system, with the same
/// configuration and limit, give the same graph: the same nodes, the same
/// edges in the same order, and the same errors.
pub proof fn lemma_build_is_deterministic(
    fs: Seq<EntryView>,
    config: ResolverConfigView,
    entry: Seq<char>,
    limit: nat,
    first: GraphView,
    second: GraphView,
)
    requires
        built(fs, config, entry, limit) == Some(first),
        built(fs, config, entry, limit) == Some(second),
    ensures
        first.nodes == second.nodes,
        first.edges == second.edges,
        first.errors == second.errors,
{
}

/// The edges of the references of a file all leave its module, and each
/// reference that resolves has its edge among them.
pub proof fn lemma_reference_edges(
    fs: Seq<EntryView>,
    config: ResolverConfigView,
    from: ResolvedModuleView,
    references: Seq<RawReferenceView>,
)
    ensures
        forall|at: int|
            0 <= at < reference_edges(fs, config, from, references).len() ==> (
            #[trigger] reference_edges(fs, config, from, references)[at]).from == from,
        forall|at: int|
            0 <= at < references.len() && resolution(
                fs,
                config,
                (#[trigger] references[at]).specifier,
                from.absolute_path,
            ) is Ok ==> reference_edges(fs, config, from, references).contains(
                DependencyEdgeView {
                    from,
                    to: resolution(
                        fs,
                        config,
                        references[at].specifier,
                        from.absolute_path,
                    )->Ok_0,
                    reference: references[at],
                },
            ),
    decreases references.len(),
{
    let all = reference_edges(fs, config, from, references);
    if references.len() > 0 {
        let rest = references.drop_first();
        let later = reference_edges(fs, config, from, rest);
        lemma_reference_edges(fs, config, from, rest);
        let head = resolution(fs, config, references.first().specifier, from.absolute_path);
        let shift: int = if head is Ok {
            1
        } else {
            0
        };
        assert forall|at: int| 0 <= at < all.len() implies (#[trigger] all[at]).from == from by {
            if at >= shift {
                assert(all[at] == later[at - shift]);
            }
        }
        assert forall|at: int|
            0 <= at < references.len() && resolution(
                fs,
                config,
                (#[trigger] references[at]).specifier,
                from.absolute_path,
            ) is Ok implies all.contains(
            DependencyEdgeView {
                from,
                to: resolution(fs, config, references[at].specifier, from.absolute_path)->Ok_0,
                reference: references[at],
            },
        ) by {
            let edge = DependencyEdgeView {
                from,
                to: resolution(fs, config, references[at].specifier, from.absolute_path)->Ok_0,
                reference: references[at],
            };
            if at == 0 {
                assert(all[0] == edge);
            } else {
                assert(rest[at - 1] == references[at]);
                let inner = choose|inner: int| 0 <= inner < later.len() && later[inner] == edge;
                assert(all[inner + shift] == edge);
            }
        }
    }
}

/// The edges that leave a path, among edges put one behind the other, are
/// those among the first followed by those among the second.
pub proof fn lemma_edges_from_add(
    first: Seq<DependencyEdgeView>,
    second: Seq<DependencyEdgeView>,
    path: Seq<char>,
)
    ensures
        edges_from(first + second, path) == edges_from(first, path) + edges_from(second, path),
    decreases second.len(),
{
    if second.len() == 0 {
        assert(first + second =~= first);
        assert(edges_from(first, path) + edges_from(second, path) =~= edges_from(first, path));
    } else {
        let rest = second.drop_last();
        lemma_edges_from_add(first, rest, path);
        assert((first + second).drop_last() =~= first + rest);
        assert((first + second).last() == second.last());
        if second.last().from.absolute_path == path {
            assert(edges_from(first, path) + edges_from(rest, path).push(second.last()) =~= (
            edges_from(first, path) + edges_from(rest, path)).push(second.last()));
        }
    }
}

/// Edges that all leave one module are the edges that leave its path, and
/// no edge among them leaves another path.
pub proof fn lemma_edges_from_one(
    edges: Seq<DependencyEdgeView>,
    from: ResolvedModuleView,
    path: Seq<char>,
)
    requires
        forall|at: int| 0 <= at < edges.len() ==> (#[trigger] edges[at]).from == from,
    ensures
        from.absolute_path == path ==> edges_from(edges, path) == edges,
        from.absolute_path != path ==> edges_from(edges, path) == Seq::<
            DependencyEdgeView,
        >::empty(),
    decreases edges.len(),
{
    if edges.len() > 0 {
        let rest = edges.drop_last();
        assert forall|at: int| 0 <= at < rest.len() implies (#[trigger] rest[at]).from == from by {
            assert(rest[at] == edges[at]);
        }
        lemma_edges_from_one(rest, from, path);
        assert(edges[edges.len() - 1].from == from);
        assert(rest.push(edges.last()) =~= edges);
    }
}

/// The edges of a module all leave it.
pub proof fn lemma_module_edges_leave(
    fs: Seq<EntryView>,
    config: ResolverConfigView,
    module: ResolvedModuleView,
)
    ensures
        forall|at: int|
            0 <= at < module_edges(fs, config, module).len() ==> (#[trigger] module_edges(
                fs,
                config,
                module,
            )[at]).from == module,
{
    match content_of(fs, module.absolute_path) {
        Some(text) => match scanned(text) {
            Ok(sites) => {
                lemma_reference_edges(fs, config, module, extracted(sites));
            },
            Err(error) => {},
        },
        None => {},
    }
}

/// Among the edges of the first `count` nodes, those that leave the path of
/// node `node` are the edges of that node, if it is one of the first.
pub proof fn lemma_edges_from_through(
    fs: Seq<EntryView>,
    config: ResolverConfigView,
    nodes: Seq<ResolvedModuleView>,
    count: nat,
    node: int,
)
    requires
        distinct_paths(nodes),
        count <= nodes.len(),
        0 <= node < nodes.len(),
    ensures
        edges_from(edges_through(fs, config, nodes, count), nodes[node].absolute_path) == if node
            < count {
            module_edges(fs, config, nodes[node])
        } else {
            Seq::<DependencyEdgeView>::empty()
        },
    decreases count,
{
    let path = nodes[node].absolute_path;
    if count > 0 {
        let last = count - 1;
        let earlier = edges_through(fs, config, nodes, last as nat);
        let added = module_edges(fs, config, nodes[last]);
        lemma_edges_from_through(fs, config, nodes, last as nat, node);
        lemma_edges_from_add(earlier, added, path);
        lemma_module_edges_leave(fs, config, nodes[last]);
        lemma_edges_from_one(added, nodes[last], path);
        if node < last {
            assert(nodes[node].absolute_path != nodes[last].absolute_path);
            assert(edges_from(earlier, path) + Seq::<DependencyEdgeView>::empty() =~= edges_from(
                earlier,
                path,
            ));
        } else if node == last {
            assert(Seq::<DependencyEdgeView>::empty() + added =~= added);
        } else {
            assert(nodes[last].absolute_path != nodes[node].absolute_path);
            assert(Seq::<DependencyEdgeView>::empty() + Seq::<DependencyEdgeView>::empty() =~= Seq::<
                DependencyEdgeView,
            >::empty());
        }
    }
}

/// In a built graph, the edges that leave a node are the resolved
/// references of its file, in source order.
pub proof fn lemma_outgoing_of_built(
    fs: Seq<EntryView>,
    config: ResolverConfigView,
    entry: Seq<char>,
    limit: nat,
    node: int,
)
    requires
        built(fs, config, entry, limit) is Some,
        0 <= node < built(fs, config, entry, limit)->Some_0.nodes.len(),
    ensures
        edges_from(
            built(fs, config, entry, limit)->Some_0.edges,
            built(fs, config, entry, limit)->Some_0.nodes[node].absolute_path,
        ) == module_edges(fs, config, built(fs, config, entry, limit)->Some_0.nodes[node]),
{
    let graph = built(fs, config, entry, limit)->Some_0;
    lemma_built_is_complete(fs, config, entry, limit);
    lemma_built_is_sound(fs, config, entry, limit);
    lemma_edges_from_through(fs, config, graph.nodes, graph.nodes.len(), node);
}

/// The edges of the first `count` nodes hold the edges of each of them.
pub proof fn lemma_through_holds(
    fs: Seq<EntryView>,
    config: ResolverConfigView,
    nodes: Seq<ResolvedModuleView>,
    count: nat,
    node: int,
    edge: DependencyEdgeView,
)
    requires
        0 <= node < count <= nodes.len(),
        module_edges(fs, config, nodes[node]).contains(edge),
    ensures
        edges_through(fs, config, nodes, count).contains(edge),
    decreases count,
{
    let last = count - 1;
    let earlier = edges_through(fs, config, nodes, last as nat);
    let added = module_edges(fs, config, nodes[last]);
    let all = edges_through(fs, config, nodes, count);
    if node < last {
        lemma_through_holds(fs, config, nodes, last as nat, node, edge);
        let at = choose|at: int| 0 <= at < earlier.len() && earlier[at] == edge;
        assert(all[at] == edge);
    } else {
        let at = choose|at: int| 0 <= at < added.len() && added[at] == edge;
        assert(all[earlier.len() + at] == edge);
    }
}

/// A built graph is closed under references: where a reference of the file
/// of one of its nodes resolves, the module is a node of the graph and the
/// edge to it is an edge of the graph. So the graph holds every module that
/// the entry reaches, whatever errors other files have.
pub proof fn lemma_built_is_closed(
    fs: Seq<EntryView>,
    config: ResolverConfigView,
    entry: Seq<char>,
    limit: nat,
    node: int,
    text: Seq<char>,
    sites: Seq<SyntaxSiteView>,
    at: int,
)
    requires
        built(fs, config, entry, limit) is Some,
        0 <= node < built(fs, config, entry, limit)->Some_0.nodes.len(),
        content_of(fs, built(fs, config, entry, limit)->Some_0.nodes[node].absolute_path) == Some(
            text,
        ),
        scanned(text) == Ok::<Seq<SyntaxSiteView>, SyntaxErrorView>(sites),
        0 <= at < extracted(sites).len(),
        resolution(
            fs,
            config,
            extracted(sites)[at].specifier,
            built(fs, config, entry, limit)->Some_0.nodes[node].absolute_path,
        ) is Ok,
    ensures
        ({
            let graph = built(fs, config, entry, limit)->Some_0;
            let to = resolution(
                fs,
                config,
                extracted(sites)[at].specifier,
                graph.nodes[node].absolute_path,
            )->Ok_0;
            &&& has_node(graph.nodes, to.absolute_path)
            &&& graph.edges.contains(
                DependencyEdgeView { from: graph.nodes[node], to, reference: extracted(sites)[at] },
            )
        }),
{
    let graph = built(fs, config, entry, limit)->Some_0;
    let from = graph.nodes[node];
    let to = resolution(fs, config, extracted(sites)[at].specifier, from.absolute_path)->Ok_0;
    let edge = DependencyEdgeView { from, to, reference: extracted(sites)[at] };
    lemma_built_is_complete(fs, config, entry, limit);
    lemma_built_is_sound(fs, config, entry, limit);
    lemma_reference_edges(fs, config, from, extracted(sites));
    assert(module_edges(fs, config, from).contains(edge));
    lemma_through_holds(fs, config, graph.nodes, graph.nodes.len(), node, edge);
    let index = choose|index: int| 0 <= index < graph.edges.len() && graph.edges[index] == edge;
    assert(has_node(graph.nodes, graph.edges[index].to.absolute_path));
}

/// The errors of the references of a file are all errors of that file.
pub proof fn lemma_reference_errors(
    fs: Seq<EntryView>,
    config: ResolverConfigView,
    path: Seq<char>,
    references: Seq<RawReferenceView>,
)
    ensures
        forall|at: int|
            0 <= at < reference_errors(fs, config, path, references).len() ==> (
            #[trigger] reference_errors(fs, config, path, references)[at]).path == path,
    decreases references.len(),
{
    let all = reference_errors(fs, config, path, references);
    if references.len() > 0 {
        let rest = references.drop_first();
        let later = reference_errors(fs, config, path, rest);
        lemma_reference_errors(fs, config, path, rest);
        let head = resolution(fs, config, references.first().specifier, path);
        let shift: int = if head is Err {
            1
        } else {
            0
        };
        assert forall|at: int| 0 <= at < all.len() implies (#[trigger] all[at]).path == path by {
            if at >= shift {
                assert(all[at] == later[at - shift]);
            }
        }
    }
}

/// The errors met in a file, among errors put one behind the other, are
/// those among the first followed by those among the second.
pub proof fn lemma_errors_in_add(
    first: Seq<FileErrorView>,
    second: Seq<FileErrorView>,
    path: Seq<char>,
)
    ensures
        errors_in(first + second, path) == errors_in(first, path) + errors_in(second, path),
    decreases second.len(),
{
    if second.len() == 0 {
        assert(first + second =~= first);
        assert(errors_in(first, path) + errors_in(second, path) =~= errors_in(first, path));
    } else {
        let rest = second.drop_last();
        lemma_errors_in_add(first, rest, path);
        assert((first + second).drop_last() =~= first + rest);
        assert((first + second).last() == second.last());
        if second.last().path == path {
            assert(errors_in(first, path) + errors_in(rest, path).push(second.last()) =~= (
            errors_in(first, path) + errors_in(rest, path)).push(second.last()));
        }
    }
}

/// Errors that were all met in one file are the errors met in that file,
/// and none of them was met in another.
pub proof fn lemma_errors_in_one(errors: Seq<FileErrorView>, file: Seq<char>, path: Seq<char>)
    requires
        forall|at: int| 0 <= at < errors.len() ==> (#[trigger] errors[at]).path == file,
    ensures
        file == path ==> errors_in(errors, path) == errors,
        file != path ==> errors_in(errors, path) == Seq::<FileErrorView>::empty(),
    decreases errors.len(),
{
    if errors.len() > 0 {
        let rest = errors.drop_last();
        assert forall|at: int| 0 <= at < rest.len() implies (#[trigger] rest[at]).path == file by {
            assert(rest[at] == errors[at]);
        }
        lemma_errors_in_one(rest, file, path);
        assert(errors[errors.len() - 1].path == file);
        assert(rest.push(errors.last()) =~= errors);
    }
}

/// The errors of a module were all met in its file.
pub proof fn lemma_module_errors_stay(
    fs: Seq<EntryView>,
    config: ResolverConfigView,
    module: ResolvedModuleView,
)
    ensures
        forall|at: int|
            0 <= at < module_errors(fs, config, module).len() ==> (#[trigger] module_errors(
                fs,
                config,
                module,
            )[at]).path == module.absolute_path,
{
    match content_of(fs, module.absolute_path) {
        Some(text) => match scanned(text) {
            Ok(sites) => {
                lemma_reference_errors(fs, config, module.absolute_path, extracted(sites));
            },
            Err(error) => {},
        },
        None => {},
    }
}

/// Among the errors of the first `count` nodes, those met in the file of
/// node `node` are the errors of that node, if it is one of the first.
pub proof fn lemma_errors_in_through(
    fs: Seq<EntryView>,
    config: ResolverConfigView,
    nodes: Seq<ResolvedModuleView>,
    count: nat,
    node: int,
)
    requires
        distinct_paths(nodes),
        count <= nodes.len(),
        0 <= node < nodes.len(),
    ensures
        errors_in(errors_through(fs, config, nodes, count), nodes[node].absolute_path) == if node
            < count {
            module_errors(fs, config, nodes[node])
        } else {
            Seq::<FileErrorView>::empty()
        },
    decreases count,
{
    let path = nodes[node].absolute_path;
    if count > 0 {
        let last = count - 1;
        let earlier = errors_through(fs, config, nodes, last as nat);
        let added = module_errors(fs, config, nodes[last]);
        lemma_errors_in_through(fs, config, nodes, last as nat, node);
        lemma_errors_in_add(earlier, added, path);
        lemma_module_errors_stay(fs, config, nodes[last]);
        lemma_errors_in_one(added, nodes[last].absolute_path, path);
        if node < last {
            assert(nodes[node].absolute_path != nodes[last].absolute_path);
            assert(errors_in(earlier, path) + Seq::<FileErrorView>::empty() =~= errors_in(
                earlier,
                path,
            ));
        } else if node == last {
            assert(Seq::<FileErrorView>::empty() + added =~= added);
        } else {
            assert(nodes[last].absolute_path != nodes[node].absolute_path);
            assert(Seq::<FileErrorView>::empty() + Seq::<FileErrorView>::empty() =~= Seq::<
                FileErrorView,
            >::empty());
        }
    }
}

/// In a built graph, the errors met in the file of a node are the errors of
/// that module: one for each reference that does not resolve, in source
/// order, or the one error that kept the file from being read or parsed.
pub proof fn lemma_errors_of_built(
    fs: Seq<EntryView>,
    config: ResolverConfigView,
    entry: Seq<char>,
    limit: nat,
    node: int,
)
    requires
        built(fs, config, entry, limit) is Some,
        0 <= node < built(fs, config, entry, limit)->Some_0.nodes.len(),
    ensures
        errors_in(
            built(fs, config, entry, limit)->Some_0.errors,
            built(fs, config, entry, limit)->Some_0.nodes[node].absolute_path,
        ) == module_errors(fs, config, built(fs, config, entry, limit)->Some_0.nodes[node]),
{
    let graph = built(fs, config, entry, limit)->Some_0;
    lemma_built_is_complete(fs, config, entry, limit);
    lemma_built_is_sound(fs, config, entry, limit);
    lemma_errors_in_through(fs, config, graph.nodes, graph.nodes.len(), node);
}

/// In a consistent file system the edges of the references of a file lead
/// to identities of modules: absolute paths that are files and their own
/// real paths.
pub proof fn lemma_reference_edges_are_canonical(
    fs: Seq<EntryView>,
    config: ResolverConfigView,
    from: ResolvedModuleView,
    references: Seq<RawReferenceView>,
)
    requires
        consistent(fs),
    ensures
        forall|at: int|
            0 <= at < reference_edges(fs, config, from, references).len() ==> is_canonical_file(
                fs,
                (#[trigger] reference_edges(fs, config, from, references)[at]).to.absolute_path,
            ),
    decreases references.len(),
{
    let all = reference_edges(fs, config, from, references);
    if references.len() > 0 {
        let rest = references.drop_first();
        let later = reference_edges(fs, config, from, rest);
        lemma_reference_edges_are_canonical(fs, config, from, rest);
        let head = resolution(fs, config, references.first().specifier, from.absolute_path);
        let shift: int = if head is Ok {
            1
        } else {
            0
        };
        if head is Ok {
            lemma_resolution_is_canonical(
                fs,
                config,
                references.first().specifier,
                from.absolute_path,
            );
        }
        assert forall|at: int| 0 <= at < all.len() implies is_canonical_file(
            fs,
            (#[trigger] all[at]).to.absolute_path,
        ) by {
            if at >= shift {
                assert(all[at] == later[at - shift]);
            }
        }
    }
}

/// In a consistent file system the edges of the first `count` nodes lead to
/// identities of modules.
pub proof fn lemma_through_is_canonical(
    fs: Seq<EntryView>,
    config: ResolverConfigView,
    nodes: Seq<ResolvedModuleView>,
    count: nat,
)
    requires
        consistent(fs),
        count <= nodes.len(),
    ensures
        forall|at: int|
            0 <= at < edges_through(fs, config, nodes, count).len() ==> is_canonical_file(
                fs,
                (#[trigger] edges_through(fs, config, nodes, count)[at]).to.absolute_path,
            ),
    decreases count,
{
    if count > 0 {
        let last = count - 1;
        let earlier = edges_through(fs, config, nodes, last as nat);
        let added = module_edges(fs, config, nodes[last]);
        let all = edges_through(fs, config, nodes, count);
        lemma_through_is_canonical(fs, config, nodes, last as nat);
        match content_of(fs, nodes[last].absolute_path) {
            Some(text) => match scanned(text) {
                Ok(sites) => {
                    lemma_reference_edges_are_canonical(fs, config, nodes[last], extracted(sites));
                },
                Err(error) => {},
            },
            None => {},
        }
        assert forall|at: int| 0 <= at < all.len() implies is_canonical_file(
            fs,
            (#[trigger] all[at]).to.absolute_path,
        ) by {
            if at < earlier.len() {
                assert(all[at] == earlier[at]);
            } else {
                assert(all[at] == added[at - earlier.len()]);
            }
        }
    }
}

/// In a consistent file system every edge of a built graph leads to the
/// identity of a module, and every node but the entry is one: an absolute
/// path that is a file and its own real path.
pub proof fn lemma_built_nodes_are_canonical(
    fs: Seq<EntryView>,
    config: ResolverConfigView,
    entry: Seq<char>,
    limit: nat,
)
    requires
        consistent(fs),
        built(fs, config, entry, limit) is Some,
    ensures
        forall|at: int|
            0 <= at < built(fs, config, entry, limit)->Some_0.edges.len() ==> is_canonical_file(
                fs,
                (#[trigger] built(fs, config, entry, limit)->Some_0.edges[at]).to.absolute_path,
            ),
        forall|node: int|
            0 < node < built(fs, config, entry, limit)->Some_0.nodes.len() ==> is_canonical_file(
                fs,
                (#[trigger] built(fs, config, entry, limit)->Some_0.nodes[node]).absolute_path,
            ),
{
    let graph = built(fs, config, entry, limit)->Some_0;
    lemma_built_is_complete(fs, config, entry, limit);
    lemma_built_is_sound(fs, config, entry, limit);
    lemma_through_is_canonical(fs, config, graph.nodes, graph.nodes.len());
    assert forall|node: int| 0 < node < graph.nodes.len() implies is_canonical_file(
        fs,
        (#[trigger] graph.nodes[node]).absolute_path,
    ) by {
        assert(was_discovered(graph, node));
        let (edge, parent) = choose|edge: int, parent: int| discovered(graph, node, edge, parent);
        assert(graph.edges[edge].to == graph.nodes[node]);
    }
}

} // verus!
