//! Building the graph of everything an entry file depends on.
//!
//! The nodes of the graph double as the work queue: a module becomes a node
//! when the first reference to it is recorded, and nodes are expanded in the
//! order in which they were discovered. Each file is therefore read and
//! parsed once, whatever the number of references to it, and a cycle of
//! references ends at a node that is already there.
use crate::bounds::lemma_built_fits;
use crate::closure::lemma_built_nodes_are_canonical;
use crate::extract::extract;
use crate::fs::{consistent, is_canonical_file, FileSystem};
use crate::graph::{well_formed, DependencyGraph};
use crate::growth::{
    lemma_built_is_complete, lemma_built_is_sound, lemma_node_extends, lemma_reference_extends,
};
use crate::model::{views, ErrorKind, ModuleKind, RawReference, SyntaxError, SyntaxErrorView};
use crate::path::normalize_path;
use crate::plan::{
    after_node, after_reference, after_references, after_scan, built, closure_from, complete,
    entry_module, seeded, sound,
};
use crate::resolve::{module_from, resolve, ResolverConfig};
use crate::syntax::{SyntaxSite, SyntaxSiteView};
use crate::visitor::scan_module;
use vstd::prelude::*;

verus! {

/// Why a build was given up.
#[derive(Clone, Copy, Debug, PartialEq, Eq, Structural)]
pub enum BuildError {
    /// The graph would have more than `limit` nodes.
    LimitExceeded { limit: usize },
}

/// The view of what scanning a file yields.
pub open spec fn scan_view(scan: Result<Vec<SyntaxSite>, SyntaxError>) -> Result<
    Seq<SyntaxSiteView>,
    SyntaxErrorView,
> {
    match scan {
        Ok(sites) => Ok(views(sites@)),
        Err(error) => Err(error@),
    }
}

/// Follows one reference of the file of node `from`: records the edge, and
/// the module as a node if it is new, or records why the reference names no
/// file. The build is given up, and the graph left as it was, if a node
/// beyond the limit would be needed.
pub fn link_reference(
    graph: &mut DependencyGraph,
    fs: &FileSystem,
    config: &ResolverConfig,
    limit: usize,
    from: usize,
    reference: RawReference,
) -> (outcome: Result<(), BuildError>)
    requires
        well_formed(old(graph)@),
        from < old(graph)@.nodes.len(),
    ensures
        well_formed(final(graph)@),
        match after_reference(old(graph)@, fs@, config@, limit as nat, from as int, reference@) {
            Some(next) => outcome is Ok && final(graph)@ == next,
            None => outcome == Err::<(), BuildError>(BuildError::LimitExceeded { limit })
                && final(graph)@ == old(graph)@,
        },
{
    let containing_file = graph.node_at(from).absolute_path.clone();
    match resolve(fs, config, reference.specifier.as_str(), containing_file.as_str()) {
        Ok(module) => {
            if graph.position(module.absolute_path.as_str()).is_some() || graph.node_count()
                < limit {
                graph.add_edge(from, module, reference);
                Ok(())
            } else {
                Err(BuildError::LimitExceeded { limit })
            }
        },
        Err(error) => {
            let span = reference.source_span;
            graph.record_error(containing_file, ErrorKind::Resolution { error, span });
            Ok(())
        },
    }
}

/// Follows the references of the file of node `from`, in order.
pub fn link_references(
    graph: &mut DependencyGraph,
    fs: &FileSystem,
    config: &ResolverConfig,
    limit: usize,
    from: usize,
    references: Vec<RawReference>,
) -> (outcome: Result<(), BuildError>)
    requires
        well_formed(old(graph)@),
        from < old(graph)@.nodes.len(),
    ensures
        well_formed(final(graph)@),
        match after_references(
            old(graph)@,
            fs@,
            config@,
            limit as nat,
            from as int,
            views(references@),
        ) {
            Some(next) => outcome is Ok && final(graph)@ == next,
            None => outcome == Err::<(), BuildError>(BuildError::LimitExceeded { limit }),
        },
{
    let ghost start = graph@;
    let ghost all = views(references@);
    let mut index: usize = 0;
    assert(all.skip(0) =~= all);
    while index < references.len()
        invariant
            index <= references.len(),
            all == views(references@),
            start == old(graph)@,
            well_formed(graph@),
            from < graph@.nodes.len(),
            after_references(start, fs@, config@, limit as nat, from as int, all)
                == after_references(
                graph@,
                fs@,
                config@,
                limit as nat,
                from as int,
                all.skip(index as int),
            ),
        decreases references.len() - index,
    {
        let ghost rest = all.skip(index as int);
        let ghost before = graph@;
        assert(rest.first() == references@[index as int]@);
        assert(rest.drop_first() =~= all.skip(index + 1));
        let reference = references[index].clone();
        match link_reference(graph, fs, config, limit, from, reference) {
            Ok(_) => {
                proof {
                    lemma_reference_extends(
                        before,
                        fs@,
                        config@,
                        limit as nat,
                        from as int,
                        rest.first(),
                    );
                }
            },
            Err(error) => {
                assert(after_references(
                    before,
                    fs@,
                    config@,
                    limit as nat,
                    from as int,
                    rest,
                ) is None);
                return Err(error);
            },
        }
        index = index + 1;
    }
    Ok(())
}

/// Expands node `from`, given what scanning its file yielded: follows its
/// references in source order, or records its syntax error and follows
/// none.
pub fn expand_with(
    graph: &mut DependencyGraph,
    fs: &FileSystem,
    config: &ResolverConfig,
    limit: usize,
    from: usize,
    scan: Result<Vec<SyntaxSite>, SyntaxError>,
) -> (outcome: Result<(), BuildError>)
    requires
        well_formed(old(graph)@),
        from < old(graph)@.nodes.len(),
    ensures
        well_formed(final(graph)@),
        match after_scan(old(graph)@, fs@, config@, limit as nat, from as int, scan_view(scan)) {
            Some(next) => outcome is Ok && final(graph)@ == next,
            None => outcome == Err::<(), BuildError>(BuildError::LimitExceeded { limit }),
        },
{
    match scan {
        Ok(sites) => {
            let references = extract(&sites);
            link_references(graph, fs, config, limit, from, references)
        },
        Err(error) => {
            let path = graph.node_at(from).absolute_path.clone();
            graph.record_error(path, ErrorKind::Syntax(error));
            Ok(())
        },
    }
}

/// Expands node `from`: reads and parses its file and follows its
/// references. A file that cannot be read or parsed is recorded as an error
/// of the node, and the build goes on.
pub fn expand_node(
    graph: &mut DependencyGraph,
    fs: &FileSystem,
    config: &ResolverConfig,
    limit: usize,
    from: usize,
) -> (outcome: Result<(), BuildError>)
    requires
        well_formed(old(graph)@),
        from < old(graph)@.nodes.len(),
    ensures
        well_formed(final(graph)@),
        match after_node(old(graph)@, fs@, config@, limit as nat, from as int) {
            Some(next) => outcome is Ok && final(graph)@ == next,
            None => outcome == Err::<(), BuildError>(BuildError::LimitExceeded { limit }),
        },
{
    let path = graph.node_at(from).absolute_path.clone();
    match fs.read_to_string(path.as_str()) {
        Some(text) => {
            let scan = scan_module(text.as_str());
            expand_with(graph, fs, config, limit, from, scan)
        },
        None => {
            graph.record_error(path, ErrorKind::Io);
            Ok(())
        },
    }
}

/// Builds the dependency graph of the file at `entry`: the modules that it
/// reaches through `require` calls and `import` declarations, and the
/// references between them.
///
/// Errors in single files and references are recorded in the graph and do
/// not end the build. The build is given up only when the graph would have
/// more than `limit` nodes. In a consistent file system every node but the
/// entry is known by an absolute path that is a file and its own real path;
/// the entry is known by what the file system holds for it, or by its
/// normalised path if it holds nothing.
pub fn build(fs: &FileSystem, config: &ResolverConfig, entry: &str, limit: usize) -> (outcome:
    Result<DependencyGraph, BuildError>)
    ensures
        match built(fs@, config@, entry@, limit as nat) {
            Some(graph) => outcome is Ok && outcome->Ok_0@ == graph,
            None => outcome == Err::<DependencyGraph, BuildError>(
                BuildError::LimitExceeded { limit },
            ),
        },
        outcome matches Ok(graph) ==> sound(graph@) && complete(fs@, config@, graph@)
            && graph@.nodes.len() <= limit && graph@.nodes[0] == entry_module(fs@, entry@),
        consistent(fs@) ==> (outcome matches Ok(graph) ==> forall|node: int|
            0 < node < graph@.nodes.len() ==> is_canonical_file(
                fs@,
                (#[trigger] graph@.nodes[node]).absolute_path,
            )),
{
    proof {
        if built(fs@, config@, entry@, limit as nat) is Some {
            lemma_built_is_complete(fs@, config@, entry@, limit as nat);
            lemma_built_is_sound(fs@, config@, entry@, limit as nat);
            if consistent(fs@) {
                lemma_built_nodes_are_canonical(fs@, config@, entry@, limit as nat);
            }
        }
    }
    if limit == 0 {
        return Err(BuildError::LimitExceeded { limit });
    }
    let mut graph = DependencyGraph::new();
    let root = module_from(fs, normalize_path(entry), ModuleKind::File);
    graph.ensure_node(root);
    assert(graph@ == seeded(entry_module(fs@, entry@)));
    let mut next: usize = 0;
    while next < graph.node_count()
        invariant
            limit > 0,
            well_formed(graph@),
            next <= graph@.nodes.len() <= limit,
            closure_from(graph@, fs@, config@, limit as nat, next as nat) == built(
                fs@,
                config@,
                entry@,
                limit as nat,
            ),
        decreases limit - next,
    {
        let ghost before = graph@;
        match expand_node(&mut graph, fs, config, limit, next) {
            Ok(_) => {
                proof {
                    lemma_node_extends(before, fs@, config@, limit as nat, next as int);
                }
            },
            Err(error) => {
                return Err(error);
            },
        }
        next = next + 1;
    }
    Ok(graph)
}

/// Builds the dependency graph of the file at `entry` without a bound of
/// the caller's: the file system is finite, and so is the graph.
pub fn build_all(fs: &FileSystem, config: &ResolverConfig, entry: &str) -> (graph: DependencyGraph)
    requires
        fs@.len() < usize::MAX,
    ensures
        built(fs@, config@, entry@, fs@.len() + 1) == Some(graph@),
        sound(graph@),
        complete(fs@, config@, graph@),
        graph@.nodes[0] == entry_module(fs@, entry@),
        consistent(fs@) ==> forall|node: int|
            0 < node < graph@.nodes.len() ==> is_canonical_file(
                fs@,
                (#[trigger] graph@.nodes[node]).absolute_path,
            ),
{
    let limit = fs.entries.len() + 1;
    proof {
        lemma_built_fits(fs@, config@, entry@, limit as nat);
    }
    match build(fs, config, entry, limit) {
        Ok(graph) => graph,
        Err(_) => {
            assert(false);
            DependencyGraph::new()
        },
    }
}

} // verus!
