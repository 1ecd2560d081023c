//! The limit of a build and the size of the file system.
//!
//! Every node but the entry is the real path of an entry of the file system,
//! and no two nodes share a path. A limit above the number of entries is
//! therefore never exceeded, and a limit changes nothing of a graph that
//! stays within it.
use crate::extract::extracted;
use crate::fs::{EntryView, content_of, real_paths};
use crate::graph::{GraphView, distinct_paths, has_node, with_edge};
use crate::growth::{
    lemma_closure_grows, lemma_node_keeps_sound, lemma_reference_extends,
    lemma_reference_keeps_sound, lemma_references_grow,
};
use crate::model::RawReferenceView;
use crate::plan::{
    after_node, after_reference, after_references, built, closure_from, entry_module, seeded,
    sound, within,
};
use crate::resolve::{ResolverConfigView, lemma_resolution_is_real, resolution};
use crate::visitor::scanned;
use vstd::prelude::*;
use vstd::seq_lib::seq_to_set_is_finite;
use vstd::set_lib::lemma_len_subset;

verus! {

/// Nodes with distinct paths, of which all but the first are real paths of
/// the file system, leave room for another such path only if they are no
/// more than the entries.
pub proof fn lemma_room_for_node(graph: GraphView, fs: Seq<EntryView>, path: Seq<char>)
    requires
        distinct_paths(graph.nodes),
        within(graph, fs),
        graph.nodes.len() >= 1,
        real_paths(fs).contains(path),
        !has_node(graph.nodes, path),
    ensures
        graph.nodes.len() <= fs.len(),
{
    let nodes = graph.nodes;
    let others = Seq::new((nodes.len() - 1) as nat, |at: int| nodes[at + 1].absolute_path);
    let paths = others.push(path);
    assert forall|first: int, second: int|
        0 <= first < paths.len() && 0 <= second < paths.len() && first != second implies paths[first]
        != paths[second] by {
        if first < others.len() && second < others.len() {
            if first < second {
                assert(nodes[first + 1].absolute_path != nodes[second + 1].absolute_path);
            } else {
                assert(nodes[second + 1].absolute_path != nodes[first + 1].absolute_path);
            }
        } else if first < others.len() {
            assert(nodes[first + 1].absolute_path != path);
        } else {
            assert(nodes[second + 1].absolute_path != path);
        }
    }
    paths.unique_seq_to_set();
    let reals = real_paths(fs);
    assert forall|item: Seq<char>| paths.to_set().contains(item) implies reals.to_set().contains(
        item,
    ) by {
        let at = choose|at: int| 0 <= at < paths.len() && paths[at] == item;
        if at < others.len() {
            assert(reals.contains(nodes[at + 1].absolute_path));
        }
    }
    seq_to_set_is_finite(reals);
    lemma_len_subset(paths.to_set(), reals.to_set());
    reals.lemma_cardinality_of_set();
}

/// A sound graph whose nodes, but for the first, are real paths of the file
/// system has at most one node more than the file system has entries.
pub proof fn lemma_nodes_are_few(graph: GraphView, fs: Seq<EntryView>)
    requires
        distinct_paths(graph.nodes),
        within(graph, fs),
    ensures
        graph.nodes.len() <= fs.len() + 1,
{
    if graph.nodes.len() >= 2 {
        let last = graph.nodes.len() - 1;
        let fewer = GraphView {
            nodes: graph.nodes.drop_last(),
            edges: graph.edges,
            errors: graph.errors,
        };
        let path = graph.nodes[last].absolute_path;
        assert forall|first: int, second: int| 0 <= first < second < fewer.nodes.len() implies (
        #[trigger] fewer.nodes[first]).absolute_path != (
        #[trigger] fewer.nodes[second]).absolute_path by {
            assert(fewer.nodes[first] == graph.nodes[first]);
            assert(fewer.nodes[second] == graph.nodes[second]);
        }
        assert forall|node: int| 0 < node < fewer.nodes.len() implies real_paths(fs).contains(
            (#[trigger] fewer.nodes[node]).absolute_path,
        ) by {
            assert(fewer.nodes[node] == graph.nodes[node]);
        }
        if has_node(fewer.nodes, path) {
            let at = choose|at: int|
                0 <= at < fewer.nodes.len() && (#[trigger] fewer.nodes[at]).absolute_path == path;
            assert(fewer.nodes[at] == graph.nodes[at]);
            assert(graph.nodes[at].absolute_path != graph.nodes[last].absolute_path);
        }
        lemma_room_for_node(fewer, fs, path);
    }
}

/// With a limit above the number of entries, a reference is always
/// followed.
pub proof fn lemma_reference_fits(
    graph: GraphView,
    fs: Seq<EntryView>,
    config: ResolverConfigView,
    limit: nat,
    from: int,
    reference: RawReferenceView,
)
    requires
        sound(graph),
        within(graph, fs),
        0 <= from < graph.nodes.len(),
        limit > fs.len(),
    ensures
        after_reference(graph, fs, config, limit, from, reference) is Some,
        within(after_reference(graph, fs, config, limit, from, reference)->Some_0, fs),
{
    let containing_file = graph.nodes[from].absolute_path;
    match resolution(fs, config, reference.specifier, containing_file) {
        Ok(to) => {
            lemma_resolution_is_real(fs, config, reference.specifier, containing_file);
            if !has_node(graph.nodes, to.absolute_path) {
                lemma_room_for_node(graph, fs, to.absolute_path);
            }
            let after = with_edge(graph, from, to, reference);
            assert forall|node: int| 0 < node < after.nodes.len() implies real_paths(fs).contains(
                (#[trigger] after.nodes[node]).absolute_path,
            ) by {
                if node < graph.nodes.len() {
                    assert(after.nodes[node] == graph.nodes[node]);
                }
            }
        },
        Err(error) => {},
    }
}

/// With a limit above the number of entries, the references of a file are
/// always followed.
pub proof fn lemma_references_fit(
    graph: GraphView,
    fs: Seq<EntryView>,
    config: ResolverConfigView,
    limit: nat,
    from: int,
    references: Seq<RawReferenceView>,
)
    requires
        sound(graph),
        within(graph, fs),
        0 <= from < graph.nodes.len(),
        limit > fs.len(),
    ensures
        after_references(graph, fs, config, limit, from, references) is Some,
        within(after_references(graph, fs, config, limit, from, references)->Some_0, fs),
    decreases references.len(),
{
    if references.len() > 0 {
        lemma_reference_fits(graph, fs, config, limit, from, references.first());
        let next = after_reference(graph, fs, config, limit, from, references.first())->Some_0;
        lemma_reference_extends(graph, fs, config, limit, from, references.first());
        lemma_reference_keeps_sound(graph, fs, config, limit, from, references.first());
        lemma_references_fit(next, fs, config, limit, from, references.drop_first());
    }
}

/// With a limit above the number of entries, a node is always expanded.
pub proof fn lemma_node_fits(
    graph: GraphView,
    fs: Seq<EntryView>,
    config: ResolverConfigView,
    limit: nat,
    from: int,
)
    requires
        sound(graph),
        within(graph, fs),
        0 <= from < graph.nodes.len(),
        limit > fs.len(),
    ensures
        after_node(graph, fs, config, limit, from) is Some,
        within(after_node(graph, fs, config, limit, from)->Some_0, fs),
{
    match content_of(fs, graph.nodes[from].absolute_path) {
        Some(text) => match scanned(text) {
            Ok(sites) => {
                lemma_references_fit(graph, fs, config, limit, from, extracted(sites));
            },
            Err(error) => {},
        },
        None => {},
    }
}

/// With a limit above the number of entries, every node is expanded and the
/// build comes to its end.
pub proof fn lemma_closure_fits(
    graph: GraphView,
    fs: Seq<EntryView>,
    config: ResolverConfigView,
    limit: nat,
    next: nat,
)
    requires
        sound(graph),
        within(graph, fs),
        limit > fs.len(),
    ensures
        closure_from(graph, fs, config, limit, next) is Some,
    decreases limit - next,
{
    if next < graph.nodes.len() {
        lemma_nodes_are_few(graph, fs);
        lemma_node_fits(graph, fs, config, limit, next as int);
        lemma_node_keeps_sound(graph, fs, config, limit, next as int);
        let expanded = after_node(graph, fs, config, limit, next as int)->Some_0;
        lemma_closure_fits(expanded, fs, config, limit, next + 1);
    }
}

/// The file system is finite, so the build ends: with a limit above the
/// number of entries there is always a graph, whatever cycles the references
/// form.
pub proof fn lemma_built_fits(
    fs: Seq<EntryView>,
    config: ResolverConfigView,
    entry: Seq<char>,
    limit: nat,
)
    requires
        limit > fs.len(),
    ensures
        built(fs, config, entry, limit) is Some,
{
    let seed = seeded(entry_module(fs, entry));
    assert(sound(seed));
    lemma_closure_fits(seed, fs, config, limit, 0);
}

/// A reference that is followed under one limit is followed in the same way
/// under any limit that the graph stays within.
pub proof fn lemma_reference_under(
    graph: GraphView,
    fs: Seq<EntryView>,
    config: ResolverConfigView,
    limit: nat,
    other: nat,
    from: int,
    reference: RawReferenceView,
)
    requires
        after_reference(graph, fs, config, limit, from, reference) is Some,
        after_reference(graph, fs, config, limit, from, reference)->Some_0.nodes.len() <= other,
    ensures
        after_reference(graph, fs, config, other, from, reference) == after_reference(
            graph,
            fs,
            config,
            limit,
            from,
            reference,
        ),
{
}

/// References that are followed under one limit are followed in the same
/// way under any limit that the graph stays within.
pub proof fn lemma_references_under(
    graph: GraphView,
    fs: Seq<EntryView>,
    config: ResolverConfigView,
    limit: nat,
    other: nat,
    from: int,
    references: Seq<RawReferenceView>,
)
    requires
        after_references(graph, fs, config, limit, from, references) is Some,
        after_references(graph, fs, config, limit, from, references)->Some_0.nodes.len() <= other,
    ensures
        after_references(graph, fs, config, other, from, references) == after_references(
            graph,
            fs,
            config,
            limit,
            from,
            references,
        ),
    decreases references.len(),
{
    if references.len() > 0 {
        let next = after_reference(graph, fs, config, limit, from, references.first())->Some_0;
        lemma_references_grow(next, fs, config, limit, from, references.drop_first());
        lemma_reference_under(graph, fs, config, limit, other, from, references.first());
        lemma_references_under(next, fs, config, limit, other, from, references.drop_first());
    }
}

/// Nodes that are expanded under one limit are expanded in the same way
/// under any limit that the final graph stays within.
pub proof fn lemma_closure_under(
    graph: GraphView,
    fs: Seq<EntryView>,
    config: ResolverConfigView,
    limit: nat,
    other: nat,
    next: nat,
)
    requires
        closure_from(graph, fs, config, limit, next) is Some,
        closure_from(graph, fs, config, limit, next)->Some_0.nodes.len() <= other,
    ensures
        closure_from(graph, fs, config, other, next) == closure_from(
            graph,
            fs,
            config,
            limit,
            next,
        ),
    decreases limit - next,
{
    if next < graph.nodes.len() {
        let expanded = after_node(graph, fs, config, limit, next as int)->Some_0;
        lemma_closure_grows(graph, fs, config, limit, next);
        lemma_closure_grows(expanded, fs, config, limit, next + 1);
        match content_of(fs, graph.nodes[next as int].absolute_path) {
            Some(text) => match scanned(text) {
                Ok(sites) => {
                    lemma_references_under(
                        graph,
                        fs,
                        config,
                        limit,
                        other,
                        next as int,
                        extracted(sites),
                    );
                },
                Err(error) => {},
            },
            None => {},
        }
        lemma_closure_under(expanded, fs, config, limit, other, next + 1);
    }
}

/// The limit only bounds the graph: a graph built under one limit is built
/// under every limit that it stays within.
pub proof fn lemma_limit_only_bounds(
    fs: Seq<EntryView>,
    config: ResolverConfigView,
    entry: Seq<char>,
    limit: nat,
    other: nat,
)
    requires
        built(fs, config, entry, limit) is Some,
        built(fs, config, entry, limit)->Some_0.nodes.len() <= other,
    ensures
        built(fs, config, entry, other) == built(fs, config, entry, limit),
{
    let seed = seeded(entry_module(fs, entry));
    lemma_closure_grows(seed, fs, config, limit, 0);
    lemma_closure_under(seed, fs, config, limit, other, 0);
}

} // verus!
