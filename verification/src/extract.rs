//! From the sites of one module to its dependency references.
//!
//! The extractor is a function of the sites alone. A call is a reference when
//! its callee is the bare identifier `require` and its only argument is a
//! string literal; an import declaration gives one reference for each of its
//! clauses, or one for the declaration when it has none. The references come
//! out in source order, by the position at which they start, in whatever
//! order the sites were met.
use crate::model::{views, ImportKind, ImportKindView, RawReference, RawReferenceView};
use crate::syntax::{
    CallSite, CallSiteView, Callee, CalleeView, ImportClause, ImportClauseView, ImportSite,
    ImportSiteView, SyntaxSite, SyntaxSiteView,
};
use vstd::prelude::*;
use vstd::string::StringExecFns;

verus! {

/// The identifier whose calls load a module.
pub open spec fn require_name() -> Seq<char> {
    "require"@
}

/// Whether a call loads a module whose specifier is written out: the callee
/// is the bare identifier `require`, and the only argument is a string
/// literal that is not spread.
pub open spec fn is_require(call: CallSiteView) -> bool {
    &&& call.callee == CalleeView::Identifier(require_name())
    &&& call.args.len() == 1
    &&& !call.args[0].spread
    &&& call.args[0].literal is Some
}

/// The reference that a call to `require` with a literal argument makes.
pub open spec fn require_reference(call: CallSiteView) -> RawReferenceView {
    RawReferenceView {
        specifier: call.args[0].literal->Some_0,
        kind: ImportKindView::RequireCall,
        source_span: call.span,
    }
}

/// The references of one call expression: one or none.
pub open spec fn call_references(call: CallSiteView) -> Seq<RawReferenceView> {
    if is_require(call) {
        seq![require_reference(call)]
    } else {
        Seq::empty()
    }
}

/// How one clause of an import declaration brings the module in. A named
/// clause without `as` imports under the local name.
pub open spec fn clause_kind(clause: ImportClauseView) -> ImportKindView {
    match clause {
        ImportClauseView::Default { local } => ImportKindView::ImportDefault,
        ImportClauseView::Named { local, imported } => ImportKindView::ImportNamed {
            local,
            remote: match imported {
                Some(name) => name,
                None => local,
            },
        },
        ImportClauseView::Namespace { local } => ImportKindView::ImportNamespace,
    }
}

/// The reference that clause `index` of an import declaration makes.
pub open spec fn clause_reference(import: ImportSiteView, index: int) -> RawReferenceView {
    RawReferenceView {
        specifier: import.source,
        kind: clause_kind(import.clauses[index]),
        source_span: import.span,
    }
}

/// The references of one import declaration: one for each clause, all with
/// the specifier and span of the declaration, or a single side-effect
/// reference when there is no clause.
pub open spec fn import_references(import: ImportSiteView) -> Seq<RawReferenceView> {
    if import.clauses.len() == 0 {
        seq![
            RawReferenceView {
                specifier: import.source,
                kind: ImportKindView::ImportSideEffectOnly,
                source_span: import.span,
            },
        ]
    } else {
        Seq::new(import.clauses.len(), |index: int| clause_reference(import, index))
    }
}

/// The references of one site.
pub open spec fn site_references(site: SyntaxSiteView) -> Seq<RawReferenceView> {
    match site {
        SyntaxSiteView::Call(call) => call_references(call),
        SyntaxSiteView::Import(import) => import_references(import),
    }
}

/// The references of the sites, one site after another.
pub open spec fn references_of(sites: Seq<SyntaxSiteView>) -> Seq<RawReferenceView>
    decreases sites.len(),
{
    if sites.len() == 0 {
        Seq::empty()
    } else {
        references_of(sites.drop_last()) + site_references(sites.last())
    }
}

/// The references with one more among them: behind every reference that
/// does not start after it, and before the others.
pub open spec fn placed(ordered: Seq<RawReferenceView>, reference: RawReferenceView) -> Seq<
    RawReferenceView,
>
    decreases ordered.len(),
{
    if ordered.len() == 0 || ordered.last().source_span.start <= reference.source_span.start {
        ordered.push(reference)
    } else {
        placed(ordered.drop_last(), reference).push(ordered.last())
    }
}

/// The references by the position at which they start in the source text.
/// References that start at the same position, as those of one import
/// declaration do, keep their order.
pub open spec fn in_source_order(references: Seq<RawReferenceView>) -> Seq<RawReferenceView>
    decreases references.len(),
{
    if references.len() == 0 {
        Seq::empty()
    } else {
        placed(in_source_order(references.drop_last()), references.last())
    }
}

/// Whether no reference starts before one that precedes it.
pub open spec fn ordered_by_start(references: Seq<RawReferenceView>) -> bool {
    forall|first: int, second: int|
        0 <= first <= second < references.len() ==> (
        #[trigger] references[first]).source_span.start <= (
        #[trigger] references[second]).source_span.start
}

/// The references of a module, in source order.
pub open spec fn extracted(sites: Seq<SyntaxSiteView>) -> Seq<RawReferenceView> {
    in_source_order(references_of(sites))
}

/// Whether a site is a call of the identifier `require`, whatever its
/// arguments.
pub open spec fn is_require_construct(site: SyntaxSiteView) -> bool {
    site matches SyntaxSiteView::Call(call) && call.callee == CalleeView::Identifier(
        require_name(),
    )
}

fn call_is_require(call: &CallSite) -> (yes: bool)
    ensures
        yes == is_require(call@),
{
    match &call.callee {
        Callee::Identifier(name) => {
            let keyword = String::from_str("require");
            if *name == keyword && call.args.len() == 1 {
                assert(call@.args[0] == call.args@[0]@);
                !call.args[0].spread && call.args[0].literal.is_some()
            } else {
                false
            }
        },
        Callee::Other => false,
    }
}

fn kind_of_clause(clause: &ImportClause) -> (kind: ImportKind)
    ensures
        kind@ == clause_kind(clause@),
{
    match clause {
        ImportClause::Default { local } => ImportKind::ImportDefault,
        ImportClause::Named { local, imported } => ImportKind::ImportNamed {
            local: local.clone(),
            remote: match imported {
                Some(name) => name.clone(),
                None => local.clone(),
            },
        },
        ImportClause::Namespace { local } => ImportKind::ImportNamespace,
    }
}

fn push_import_references(import: &ImportSite, references: &mut Vec<RawReference>)
    ensures
        views(final(references)@) == views(old(references)@) + import_references(import@),
{
    let ghost before = views(references@);
    if import.clauses.len() == 0 {
        references.push(
            RawReference {
                specifier: import.source.clone(),
                kind: ImportKind::ImportSideEffectOnly,
                source_span: import.span,
            },
        );
        assert(views(references@) =~= before + import_references(import@));
    } else {
        let mut index: usize = 0;
        while index < import.clauses.len()
            invariant
                index <= import.clauses.len(),
                views(references@) == before + Seq::new(
                    index as nat,
                    |at: int| clause_reference(import@, at),
                ),
            decreases import.clauses.len() - index,
        {
            let ghost held = views(references@);
            assert(import@.clauses[index as int] == import.clauses@[index as int]@);
            references.push(
                RawReference {
                    specifier: import.source.clone(),
                    kind: kind_of_clause(&import.clauses[index]),
                    source_span: import.span,
                },
            );
            assert(views(references@) =~= held.push(clause_reference(import@, index as int)));
            index = index + 1;
            assert(views(references@) =~= before + Seq::new(
                index as nat,
                |at: int| clause_reference(import@, at),
            ));
        }
        assert(views(references@) =~= before + import_references(import@));
    }
}

fn push_site_references(site: &SyntaxSite, references: &mut Vec<RawReference>)
    ensures
        views(final(references)@) == views(old(references)@) + site_references(site@),
{
    let ghost before = views(references@);
    match site {
        SyntaxSite::Call(call) => {
            if call_is_require(call) {
                assert(call@.args[0] == call.args@[0]@);
                let specifier = match &call.args[0].literal {
                    Some(text) => text.clone(),
                    None => String::new(),
                };
                references.push(
                    RawReference {
                        specifier,
                        kind: ImportKind::RequireCall,
                        source_span: call.span,
                    },
                );
                assert(views(references@) =~= before + site_references(site@));
            } else {
                assert(views(references@) =~= before + site_references(site@));
            }
        },
        SyntaxSite::Import(import) => {
            push_import_references(import, references);
        },
    }
}

/// Lists the references of the sites, one site after another.
fn collect(sites: &Vec<SyntaxSite>) -> (references: Vec<RawReference>)
    ensures
        views(references@) == references_of(views(sites@)),
{
    let mut references: Vec<RawReference> = Vec::new();
    let mut index: usize = 0;
    assert(views(sites@).take(0) =~= Seq::empty());
    assert(views(references@) =~= Seq::empty());
    while index < sites.len()
        invariant
            index <= sites.len(),
            views(references@) == references_of(views(sites@).take(index as int)),
        decreases sites.len() - index,
    {
        push_site_references(&sites[index], &mut references);
        proof {
            let done = views(sites@).take(index + 1);
            assert(done.drop_last() =~= views(sites@).take(index as int));
            assert(done.last() == sites@[index as int]@);
        }
        index = index + 1;
    }
    assert(views(sites@).take(index as int) =~= views(sites@));
    references
}

/// Puts one more reference among ordered ones.
fn place(ordered: &mut Vec<RawReference>, reference: RawReference)
    ensures
        views(final(ordered)@) == placed(views(old(ordered)@), reference@),
{
    let ghost before = views(ordered@);
    let mut at = ordered.len();
    assert(before.take(at as int) =~= before);
    assert(before.skip(at as int) =~= Seq::empty());
    assert(placed(before, reference@) =~= placed(before.take(at as int), reference@)
        + before.skip(at as int));
    while at > 0 && ordered[at - 1].source_span.start > reference.source_span.start
        invariant
            at <= ordered.len(),
            before == views(ordered@),
            placed(before, reference@) == placed(before.take(at as int), reference@)
                + before.skip(at as int),
        decreases at,
    {
        proof {
            let head = before.take(at as int);
            assert(head.last() == ordered@[at - 1]@);
            assert(head.drop_last() =~= before.take(at - 1));
            assert(placed(head, reference@) == placed(before.take(at - 1), reference@).push(
                head.last(),
            ));
            assert(placed(before.take(at - 1), reference@).push(head.last()) + before.skip(
                at as int,
            ) =~= placed(before.take(at - 1), reference@) + before.skip(at - 1));
        }
        at = at - 1;
    }
    proof {
        let head = before.take(at as int);
        if at > 0 {
            assert(head.last() == ordered@[at - 1]@);
        }
        assert(placed(head, reference@) == head.push(reference@));
    }
    ordered.insert(at, reference);
    assert(views(ordered@) =~= before.take(at as int).push(reference@) + before.skip(at as int));
}

/// Lists the dependency references of a module, in source order.
///
/// The sites may come in any order; nested sites may come before or behind
/// the sites that hold them.
pub fn extract(sites: &Vec<SyntaxSite>) -> (references: Vec<RawReference>)
    ensures
        views(references@) == extracted(views(sites@)),
        ordered_by_start(views(references@)),
        views(references@).to_multiset() == references_of(views(sites@)).to_multiset(),
{
    let found = collect(sites);
    let mut references: Vec<RawReference> = Vec::new();
    let mut index: usize = 0;
    assert(views(found@).take(0) =~= Seq::empty());
    assert(views(references@) =~= Seq::empty());
    while index < found.len()
        invariant
            index <= found.len(),
            views(references@) == in_source_order(views(found@).take(index as int)),
        decreases found.len() - index,
    {
        proof {
            let done = views(found@).take(index + 1);
            assert(done.drop_last() =~= views(found@).take(index as int));
            assert(done.last() == found@[index as int]@);
        }
        place(&mut references, found[index].clone());
        index = index + 1;
    }
    assert(views(found@).take(index as int) =~= views(found@));
    proof {
        lemma_source_order_is_ordered(views(found@));
        lemma_source_order_keeps_all(views(found@));
    }
    references
}

/// A reference put among ordered ones leaves them ordered.
pub proof fn lemma_placed_is_ordered(ordered: Seq<RawReferenceView>, reference: RawReferenceView)
    requires
        ordered_by_start(ordered),
    ensures
        ordered_by_start(placed(ordered, reference)),
        placed(ordered, reference).len() == ordered.len() + 1,
        forall|at: int|
            0 <= at < placed(ordered, reference).len() ==> #[trigger] placed(
                ordered,
                reference,
            )[at] == reference || ordered.contains(placed(ordered, reference)[at]),
    decreases ordered.len(),
{
    let after = placed(ordered, reference);
    if ordered.len() == 0 || ordered.last().source_span.start <= reference.source_span.start {
        assert forall|first: int, second: int| 0 <= first <= second < after.len() implies (
        #[trigger] after[first]).source_span.start <= (
        #[trigger] after[second]).source_span.start by {
            if second == ordered.len() && first < ordered.len() {
                assert(ordered[first].source_span.start <= ordered[ordered.len()
                    - 1].source_span.start);
            } else if second < ordered.len() {
                assert(ordered[first].source_span.start <= ordered[second].source_span.start);
            }
        }
        assert forall|at: int| 0 <= at < after.len() implies #[trigger] after[at] == reference
            || ordered.contains(after[at]) by {
            if at < ordered.len() {
                assert(ordered[at] == after[at]);
            }
        }
    } else {
        let rest = ordered.drop_last();
        assert forall|first: int, second: int| 0 <= first <= second < rest.len() implies (
        #[trigger] rest[first]).source_span.start <= (
        #[trigger] rest[second]).source_span.start by {
            assert(ordered[first].source_span.start <= ordered[second].source_span.start);
        }
        lemma_placed_is_ordered(rest, reference);
        let inner = placed(rest, reference);
        assert forall|at: int| 0 <= at < after.len() implies #[trigger] after[at] == reference
            || ordered.contains(after[at]) by {
            if at < inner.len() {
                assert(after[at] == inner[at]);
                if inner[at] != reference {
                    let from = choose|from: int| 0 <= from < rest.len() && rest[from] == inner[at];
                    assert(ordered[from] == inner[at]);
                }
            } else {
                assert(ordered[ordered.len() - 1] == after[at]);
            }
        }
        assert forall|first: int, second: int| 0 <= first <= second < after.len() implies (
        #[trigger] after[first]).source_span.start <= (
        #[trigger] after[second]).source_span.start by {
            if second < inner.len() {
                assert(inner[first].source_span.start <= inner[second].source_span.start);
            } else if first < inner.len() {
                assert(after[first] == inner[first]);
                if inner[first] != reference {
                    let from = choose|from: int|
                        0 <= from < rest.len() && rest[from] == inner[first];
                    assert(ordered[from].source_span.start <= ordered[ordered.len()
                        - 1].source_span.start);
                }
            }
        }
    }
}

/// References in source order are ordered by the position at which they
/// start, they are as many as before, and each of them is one of those
/// before.
pub proof fn lemma_source_order_is_ordered(references: Seq<RawReferenceView>)
    ensures
        ordered_by_start(in_source_order(references)),
        in_source_order(references).len() == references.len(),
        forall|at: int|
            0 <= at < references.len() ==> references.contains(
                #[trigger] in_source_order(references)[at],
            ),
    decreases references.len(),
{
    if references.len() > 0 {
        let rest = references.drop_last();
        lemma_source_order_is_ordered(rest);
        lemma_placed_is_ordered(in_source_order(rest), references.last());
        let after = in_source_order(references);
        assert forall|at: int| 0 <= at < references.len() implies references.contains(
            #[trigger] after[at],
        ) by {
            if after[at] == references.last() {
                assert(references[references.len() - 1] == after[at]);
            } else {
                let inner = choose|inner: int|
                    0 <= inner < rest.len() && in_source_order(rest)[inner] == after[at];
                let from = choose|from: int| 0 <= from < rest.len() && rest[from] == after[at];
                assert(references[from] == after[at]);
            }
        }
    }
}

/// References in source order are the same references, each as often as
/// before.
pub proof fn lemma_source_order_keeps_all(references: Seq<RawReferenceView>)
    ensures
        in_source_order(references).to_multiset() == references.to_multiset(),
    decreases references.len(),
{
    if references.len() > 0 {
        let rest = references.drop_last();
        lemma_source_order_keeps_all(rest);
        lemma_placed_keeps_all(in_source_order(rest), references.last());
        rest.to_multiset_ensures();
        assert(rest.push(references.last()) =~= references);
        assert(rest.push(references.last()).to_multiset() =~= rest.to_multiset().insert(
            references.last(),
        ));
    } else {
        assert(references =~= Seq::empty());
    }
}

/// Putting a reference among others adds it once and keeps the others.
pub proof fn lemma_placed_keeps_all(ordered: Seq<RawReferenceView>, reference: RawReferenceView)
    ensures
        placed(ordered, reference).to_multiset() == ordered.to_multiset().insert(reference),
    decreases ordered.len(),
{
    ordered.to_multiset_ensures();
    if ordered.len() == 0 || ordered.last().source_span.start <= reference.source_span.start {
    } else {
        let rest = ordered.drop_last();
        lemma_placed_keeps_all(rest, reference);
        placed(rest, reference).to_multiset_ensures();
        rest.to_multiset_ensures();
        assert(rest.push(ordered.last()) =~= ordered);
        assert(rest.to_multiset().insert(reference).insert(ordered.last())
            =~= rest.to_multiset().insert(ordered.last()).insert(reference));
    }
}

/// References that are ordered already are in source order as they stand.
pub proof fn lemma_ordered_stays(references: Seq<RawReferenceView>)
    requires
        ordered_by_start(references),
    ensures
        in_source_order(references) == references,
    decreases references.len(),
{
    if references.len() > 0 {
        let rest = references.drop_last();
        assert forall|first: int, second: int| 0 <= first <= second < rest.len() implies (
        #[trigger] rest[first]).source_span.start <= (
        #[trigger] rest[second]).source_span.start by {
            assert(references[first].source_span.start <= references[second].source_span.start);
        }
        lemma_ordered_stays(rest);
        if rest.len() > 0 {
            assert(references[rest.len() - 1].source_span.start <= references[references.len()
                - 1].source_span.start);
            assert(rest.last() == references[rest.len() - 1]);
        }
        assert(rest.push(references.last()) =~= references);
    }
}

/// A module without import declarations and without calls of `require` has
/// no references.
pub proof fn lemma_no_construct_no_reference(sites: Seq<SyntaxSiteView>)
    requires
        forall|index: int|
            0 <= index < sites.len() ==> !(#[trigger] sites[index] is Import)
                && !is_require_construct(sites[index]),
    ensures
        references_of(sites) == Seq::<RawReferenceView>::empty(),
        extracted(sites) == Seq::<RawReferenceView>::empty(),
    decreases sites.len(),
{
    if sites.len() > 0 {
        let rest = sites.drop_last();
        assert forall|index: int| 0 <= index < rest.len() implies !(#[trigger] rest[index]
            is Import) && !is_require_construct(rest[index]) by {
            assert(rest[index] == sites[index]);
        }
        lemma_no_construct_no_reference(rest);
        assert(!(sites[sites.len() - 1] is Import));
        assert(references_of(sites) =~= Seq::<RawReferenceView>::empty());
    }
}

/// A call whose argument list is not exactly one string literal makes no
/// reference, whatever its callee.
pub proof fn lemma_dynamic_require_is_ignored(call: CallSiteView)
    requires
        call.args.len() != 1 || call.args[0].spread || call.args[0].literal is None,
    ensures
        call_references(call) == Seq::<RawReferenceView>::empty(),
{
}

/// Every `require` reference of a module comes from a call of `require`
/// whose only argument is a string literal, and carries that literal and the
/// span of the call.
pub proof fn lemma_require_reference_has_literal_call(sites: Seq<SyntaxSiteView>, position: int)
    requires
        0 <= position < references_of(sites).len(),
        references_of(sites)[position].kind is RequireCall,
    ensures
        exists|index: int|
            0 <= index < sites.len() && (#[trigger] sites[index] matches SyntaxSiteView::Call(call)
                && is_require(call) && references_of(sites)[position] == require_reference(call)),
    decreases sites.len(),
{
    let rest = sites.drop_last();
    let earlier = references_of(rest);
    if position < earlier.len() {
        lemma_require_reference_has_literal_call(rest, position);
        let index = choose|index: int|
            0 <= index < rest.len() && (#[trigger] rest[index] matches SyntaxSiteView::Call(call)
                && is_require(call) && earlier[position] == require_reference(call));
        assert(sites[index] == rest[index]);
    } else {
        let last = sites.len() - 1;
        assert(references_of(sites)[position] == site_references(sites[last])[position
            - earlier.len()]);
        assert(sites[last] is Call);
    }
}

/// What holds of the `require` references in the order of the sites holds
/// of them in source order: each comes from a call of `require` whose only
/// argument is a string literal.
pub proof fn lemma_extracted_require_has_literal_call(
    sites: Seq<SyntaxSiteView>,
    position: int,
)
    requires
        0 <= position < extracted(sites).len(),
        extracted(sites)[position].kind is RequireCall,
    ensures
        exists|index: int|
            0 <= index < sites.len() && (#[trigger] sites[index] matches SyntaxSiteView::Call(call)
                && is_require(call) && extracted(sites)[position] == require_reference(call)),
{
    let found = references_of(sites);
    lemma_source_order_is_ordered(found);
    let reference = extracted(sites)[position];
    assert(found.contains(reference));
    let from = choose|from: int| 0 <= from < found.len() && found[from] == reference;
    lemma_require_reference_has_literal_call(sites, from);
}

} // verus!
