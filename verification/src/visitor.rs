//! Reading the dependency-introducing constructs out of a source text.
//!
//! Parsing and tree traversal are done by the `swc` crates. The [`Visitor`]
//! is handed every call expression and import declaration of the tree and
//! keeps a plain copy of each.
use crate::extract::{extract, extracted, site_references};
use crate::fs::{consistent, is_canonical_file, FileSystem};
use crate::model::{
    views, RawReference, RawReferenceView, ResolutionError, ResolvedModule, Span, SyntaxError,
    SyntaxErrorView,
};
use crate::resolve::{resolution, resolution_view, resolve, ResolverConfig};
use crate::syntax::{
    Argument, CallSite, CallSiteView, Callee, ImportClause, ImportSite, ImportSiteView,
    SyntaxSite, SyntaxSiteView,
};
use swc_common::sync::Lrc;
use swc_common::{FileName, SourceMap, Spanned};
use swc_ecma_parser::{Lexer, Parser, StringInput, Syntax};
use swc_ecma_visit::swc_ecma_ast::{
    CallExpr, Expr, ExprOrSpread, ImportDecl, ImportSpecifier, Lit,
};
use swc_ecma_visit::{Visit, VisitWith};
use vstd::prelude::*;
use vstd::string::{StringExecFns, StringSliceAdditionalSpecFns};
use vstd::utf8::encode_utf8;

verus! {

#[verifier::external_type_specification]
#[verifier::external_body]
pub struct ExCallExpr(CallExpr);

#[verifier::external_type_specification]
#[verifier::external_body]
pub struct ExImportDecl(ImportDecl);

/// What a call expression holds for the extractor: its callee, as the text
/// of a bare identifier or as something else; for each argument whether it
/// is a spread and the value of a string literal; and its span.
pub uninterp spec fn call_site(call: CallExpr) -> CallSiteView;

/// What an import declaration holds for the extractor: its source, its
/// specifier clauses in order, and its span.
pub uninterp spec fn import_site(decl: ImportDecl) -> ImportSiteView;

/// The sites below a call expression, in its callee and its arguments, in
/// the order in which the walk meets them, each before those that it holds.
pub uninterp spec fn sites_below_call(call: CallExpr) -> Seq<SyntaxSiteView>;

/// The sites below an import declaration, in the order in which the walk
/// meets them, each before those that it holds.
pub uninterp spec fn sites_below_import(decl: ImportDecl) -> Seq<SyntaxSiteView>;

/// Copies the callee, the arguments and the span of a `CallExpr`: the text
/// of a callee that is a bare identifier, and for each argument whether it is
/// a spread and the value of a string literal.
///
/// The contract claims that the copy is a function of the node: the fields
/// are read and nothing else.
#[verifier::external_body]
fn call_site_of(call: &CallExpr) -> (site: CallSite)
    ensures
        site@ == call_site(*call),
{
    let callee = match call.callee.as_expr().map(|callee| &**callee) {
        Some(Expr::Ident(name)) => Callee::Identifier(name.sym.to_string()),
        _ => Callee::Other,
    };
    let argument = |arg: &ExprOrSpread| Argument {
        spread: arg.spread.is_some(),
        literal: match &*arg.expr {
            Expr::Lit(Lit::Str(text)) => Some(text.value.to_string_lossy().into_owned()),
            _ => None,
        },
    };
    let args = call.args.iter().map(argument).collect();
    CallSite { callee, args, span: Span { start: call.span.lo.0, end: call.span.hi.0 } }
}

/// Copies the source, the specifiers and the span of an `ImportDecl`: for
/// each specifier its local name and, for a named one, the name under which
/// the module exports the binding, if it is written, as
/// `ModuleExportName::atom` gives it.
///
/// The contract claims that the copy is a function of the node: the fields
/// are read and nothing else.
#[verifier::external_body]
fn import_site_of(decl: &ImportDecl) -> (site: ImportSite)
    ensures
        site@ == import_site(*decl),
{
    let clause = |specifier: &ImportSpecifier| match specifier {
        ImportSpecifier::Default(found) => ImportClause::Default { local: found.local.sym.to_string() },
        ImportSpecifier::Namespace(found) => ImportClause::Namespace { local: found.local.sym.to_string() },
        ImportSpecifier::Named(found) => ImportClause::Named {
            local: found.local.sym.to_string(),
            imported: found.imported.as_ref().map(|name| name.atom().to_string()),
        },
    };
    let clauses = decl.specifiers.iter().map(clause).collect();
    let source = decl.src.value.to_string_lossy().into_owned();
    ImportSite { source, clauses, span: Span { start: decl.span.lo.0, end: decl.span.hi.0 } }
}

/// Calls `CallExpr::visit_children_with`, which hands every node below the
/// call expression to the visitor.
///
/// The contract claims that the walk does nothing to the visitor but call
/// its methods, which keep the path and add sites behind those held, and
/// that the sites added are a function of the node: the walk reads nothing
/// but the tree below it.
#[verifier::external_body]
fn visit_below_call(call: &CallExpr, visitor: &mut Visitor)
    ensures
        final(visitor).full_rel_path == old(visitor).full_rel_path,
        old(visitor).sites@.is_prefix_of(final(visitor).sites@),
        views(final(visitor).sites@) == views(old(visitor).sites@) + sites_below_call(*call),
{
    call.visit_children_with(visitor);
}

/// Calls `ImportDecl::visit_children_with`, which hands every node below the
/// declaration to the visitor.
///
/// The contract claims that the walk does nothing to the visitor but call
/// its methods, which keep the path and add sites behind those held, and
/// that the sites added are a function of the node: the walk reads nothing
/// but the tree below it.
#[verifier::external_body]
fn visit_below_import(decl: &ImportDecl, visitor: &mut Visitor)
    ensures
        final(visitor).full_rel_path == old(visitor).full_rel_path,
        old(visitor).sites@.is_prefix_of(final(visitor).sites@),
        views(final(visitor).sites@) == views(old(visitor).sites@) + sites_below_import(*decl),
{
    decl.visit_children_with(visitor);
}

/// The largest source text, in bytes, whose positions fit the parser's spans.
pub const MAX_SOURCE_BYTES: usize = 0x7fff_ffff;

/// What parsing a source text yields: the call expressions and import
/// declarations of the module in the order in which the walk of the tree
/// meets them, each before those that it holds, or the error that stopped
/// the parser.
pub uninterp spec fn parsed_sites(source: Seq<char>) -> Result<Seq<SyntaxSiteView>, SyntaxErrorView>;

/// Parses `source` as an ECMAScript module with `Parser::parse_module` and
/// walks the tree with `Module::visit_with`, which hands each node to
/// `visitor`.
///
/// The contract claims that what the walk adds to the visitor's sites, or the
/// error, is a function of the text: the parser reads nothing else, and the
/// visitor keeps one site for each call expression and import declaration it
/// is handed. Positions are those of the parser, which counts bytes from 1.
/// The source map strips a leading byte order mark, so position 1 is the
/// first byte behind such a mark, and the first byte of any other text.
#[verifier::external_body]
fn parse_into(source: &str, visitor: &mut Visitor) -> (outcome: Result<(), SyntaxError>)
    requires
        source.spec_bytes().len() <= MAX_SOURCE_BYTES,
    ensures
        final(visitor).full_rel_path == old(visitor).full_rel_path,
        visit_outcome(views(old(visitor).sites@), views(final(visitor).sites@), outcome)
            == parsed_sites(source@),
        outcome is Err ==> final(visitor).sites == old(visitor).sites,
        outcome is Ok ==> views(old(visitor).sites@).is_prefix_of(views(final(visitor).sites@)),
{
    let map: Lrc<SourceMap> = Default::default();
    let file = map.new_source_file(Lrc::new(FileName::Anon), source.to_string());
    let lexer = Lexer::new(Syntax::Es(Default::default()), Default::default(), StringInput::from(&*file), None);
    match Parser::new_from(lexer).parse_module() {
        Ok(module) => Ok(module.visit_with(visitor)),
        Err(error) => Err(SyntaxError {
            message: error.kind().msg().into_owned(),
            span: Span { start: error.span().lo.0, end: error.span().hi.0 },
        }),
    }
}

/// What one visit reports: the sites added behind those held before, or the
/// error.
pub open spec fn visit_outcome(
    before: Seq<SyntaxSiteView>,
    after: Seq<SyntaxSiteView>,
    outcome: Result<(), SyntaxError>,
) -> Result<Seq<SyntaxSiteView>, SyntaxErrorView> {
    match outcome {
        Ok(_) => Ok(after.skip(before.len() as int)),
        Err(error) => Err(error@),
    }
}

/// The message of the error reported for a text of more than
/// [`MAX_SOURCE_BYTES`] bytes.
pub open spec fn oversize_message() -> Seq<char> {
    "source text is too large"@
}

/// What [`scan_module`] yields for a source text.
pub open spec fn scanned(source: Seq<char>) -> Result<Seq<SyntaxSiteView>, SyntaxErrorView> {
    if encode_utf8(source).len() <= MAX_SOURCE_BYTES {
        parsed_sites(source)
    } else {
        Err(SyntaxErrorView { message: oversize_message(), span: Span { start: 0, end: 0 } })
    }
}

/// Walks one file and gathers its call expressions and import declarations.
pub struct Visitor {
    /// Path of the visited file.
    pub full_rel_path: String,
    /// The sites met so far, each before those that it holds.
    pub sites: Vec<SyntaxSite>,
}

impl Visit for Visitor {
    /// Keeps a copy of the call expression and goes on below it, so that
    /// nested calls are met as well: behind the sites held before stands the
    /// site of this call, and behind it the sites below the call.
    fn visit_call_expr(&mut self, call: &CallExpr)
        ensures
            final(self).full_rel_path == old(self).full_rel_path,
            old(self).sites@.is_prefix_of(final(self).sites@),
            views(final(self).sites@) == views(old(self).sites@).push(
                SyntaxSiteView::Call(call_site(*call)),
            ) + sites_below_call(*call),
    {
        let ghost before = views(self.sites@);
        self.sites.push(SyntaxSite::Call(call_site_of(call)));
        assert(views(self.sites@) =~= before.push(SyntaxSiteView::Call(call_site(*call))));
        visit_below_call(call, self);
    }

    /// Keeps a copy of the import declaration and goes on below it: behind
    /// the sites held before stands the site of this declaration, and behind
    /// it the sites below the declaration.
    fn visit_import_decl(&mut self, decl: &ImportDecl)
        ensures
            final(self).full_rel_path == old(self).full_rel_path,
            old(self).sites@.is_prefix_of(final(self).sites@),
            views(final(self).sites@) == views(old(self).sites@).push(
                SyntaxSiteView::Import(import_site(*decl)),
            ) + sites_below_import(*decl),
    {
        let ghost before = views(self.sites@);
        self.sites.push(SyntaxSite::Import(import_site_of(decl)));
        assert(views(self.sites@) =~= before.push(SyntaxSiteView::Import(import_site(*decl))));
        visit_below_import(decl, self);
    }
}

impl Visitor {
    /// A visitor for the file at `path` that has met no site yet.
    pub fn new(path: String) -> (visitor: Visitor)
        ensures
            visitor.full_rel_path == path,
            visitor.sites@ == Seq::<SyntaxSite>::empty(),
    {
        Visitor { full_rel_path: path, sites: Vec::new() }
    }

    /// Parses `source`, the text of the visited file, and adds the sites of
    /// the module behind those already held.
    ///
    /// A text of more than [`MAX_SOURCE_BYTES`] bytes is not handed to the
    /// parser: it is reported as a syntax error with an empty span. On an
    /// error the visitor is left as it was.
    pub fn visit(&mut self, source: &str) -> (outcome: Result<(), SyntaxError>)
        ensures
            final(self).full_rel_path == old(self).full_rel_path,
            match scanned(source@) {
                Ok(found) => outcome is Ok && views(final(self).sites@) == views(old(self).sites@)
                    + found,
                Err(error) => outcome is Err && outcome->Err_0@ == error && final(self).sites
                    == old(self).sites,
            },
    {
        if source.as_bytes().len() <= MAX_SOURCE_BYTES {
            let ghost before = views(self.sites@);
            let outcome = parse_into(source, self);
            proof {
                if outcome is Ok {
                    let after = views(self.sites@);
                    assert(after =~= before + after.skip(before.len() as int));
                }
            }
            outcome
        } else {
            Err(
                SyntaxError {
                    message: String::from_str("source text is too large"),
                    span: Span { start: 0, end: 0 },
                },
            )
        }
    }

    /// The dependency references among the sites met so far, in source
    /// order.
    pub fn references(&self) -> (references: Vec<RawReference>)
        ensures
            views(references@) == extracted(views(self.sites@)),
    {
        extract(&self.sites)
    }

    /// Resolves a specifier written in the visited file to a module on
    /// disk. In a consistent file system the module found is known by an
    /// absolute path that is a file and its own real path.
    pub fn resolve_require(&self, fs: &FileSystem, config: &ResolverConfig, dep_name: &str) -> (outcome:
        Result<ResolvedModule, ResolutionError>)
        ensures
            resolution_view(outcome) == resolution(fs@, config@, dep_name@, self.full_rel_path@),
            consistent(fs@) ==> (outcome matches Ok(module) ==> is_canonical_file(
                fs@,
                module@.absolute_path,
            )),
    {
        resolve(fs, config, dep_name, self.full_rel_path.as_str())
    }
}

/// Parses `source` as an ECMAScript module and lists its call expressions
/// and import declarations in the order in which the walk of the tree meets
/// them, each before those that it holds.
pub fn scan_module(source: &str) -> (outcome: Result<Vec<SyntaxSite>, SyntaxError>)
    ensures
        match scanned(source@) {
            Ok(found) => outcome is Ok && views(outcome->Ok_0@) == found,
            Err(error) => outcome is Err && outcome->Err_0@ == error,
        },
{
    let mut visitor = Visitor::new(String::new());
    match visitor.visit(source) {
        Ok(_) => {
            assert(views(visitor.sites@) =~= Seq::<SyntaxSiteView>::empty() + views(visitor.sites@));
            Ok(visitor.sites)
        },
        Err(error) => Err(error),
    }
}

/// Parses `source` and lists the dependency references of the module, in
/// source order.
pub fn extract_module(source: &str) -> (outcome: Result<Vec<RawReference>, SyntaxError>)
    ensures
        match scanned(source@) {
            Ok(sites) => outcome is Ok && views(outcome->Ok_0@) == extracted(sites),
            Err(error) => outcome is Err && outcome->Err_0@ == error,
        },
{
    match scan_module(source) {
        Ok(sites) => Ok(extract(&sites)),
        Err(error) => Err(error),
    }
}

/// A call expression whose argument list is not exactly one string literal
/// adds a site that makes no reference, whatever its callee: what
/// [`Visitor::visit_call_expr`] keeps of such a call is never emitted.
pub proof fn lemma_call_without_literal_makes_no_reference(call: CallExpr)
    requires
        call_site(call).args.len() != 1 || call_site(call).args[0].spread || call_site(
            call,
        ).args[0].literal is None,
    ensures
        site_references(SyntaxSiteView::Call(call_site(call))) == Seq::<RawReferenceView>::empty(),
{
}

} // verus!
