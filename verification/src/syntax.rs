//! The constructs of a parsed module that can introduce a dependency.
//!
//! Each call expression and import declaration of a syntax tree is held as a
//! plain value of this module, so that the rules of the extractor can be
//! stated and proved over those values.
use crate::model::{views, Span};
use vstd::prelude::*;

verus! {

/// What stands in callee position of a call expression.
#[derive(Debug, PartialEq, Eq)]
pub enum Callee {
    /// A bare identifier, with its text.
    Identifier(String),
    /// Anything else: a member access, a call, `super`, `import`.
    Other,
}

pub enum CalleeView {
    Identifier(Seq<char>),
    Other,
}

impl View for Callee {
    type V = CalleeView;

    open spec fn view(&self) -> CalleeView {
        match self {
            Callee::Identifier(name) => CalleeView::Identifier(name@),
            Callee::Other => CalleeView::Other,
        }
    }
}

/// One argument of a call expression.
#[derive(Debug, PartialEq, Eq)]
pub struct Argument {
    /// Whether the argument is a spread element (`...x`).
    pub spread: bool,
    /// The value of the argument when it is a string literal.
    pub literal: Option<String>,
}

pub struct ArgumentView {
    pub spread: bool,
    pub literal: Option<Seq<char>>,
}

impl View for Argument {
    type V = ArgumentView;

    open spec fn view(&self) -> ArgumentView {
        ArgumentView {
            spread: self.spread,
            literal: match self.literal {
                Some(text) => Some(text@),
                None => None,
            },
        }
    }
}

/// A call expression, reduced to what the extractor reads.
#[derive(Debug, PartialEq, Eq)]
pub struct CallSite {
    pub callee: Callee,
    pub args: Vec<Argument>,
    pub span: Span,
}

pub struct CallSiteView {
    pub callee: CalleeView,
    pub args: Seq<ArgumentView>,
    pub span: Span,
}

impl View for CallSite {
    type V = CallSiteView;

    open spec fn view(&self) -> CallSiteView {
        CallSiteView { callee: self.callee@, args: views(self.args@), span: self.span }
    }
}

/// One specifier clause of an import declaration.
#[derive(Debug, PartialEq, Eq)]
pub enum ImportClause {
    /// `import local from ...`
    Default { local: String },
    /// `import { imported as local } from ...`; `imported` is absent in
    /// `import { local } from ...`.
    Named { local: String, imported: Option<String> },
    /// `import * as local from ...`
    Namespace { local: String },
}

pub enum ImportClauseView {
    Default { local: Seq<char> },
    Named { local: Seq<char>, imported: Option<Seq<char>> },
    Namespace { local: Seq<char> },
}

impl View for ImportClause {
    type V = ImportClauseView;

    open spec fn view(&self) -> ImportClauseView {
        match self {
            ImportClause::Default { local } => ImportClauseView::Default { local: local@ },
            ImportClause::Named { local, imported } => ImportClauseView::Named {
                local: local@,
                imported: match imported {
                    Some(name) => Some(name@),
                    None => None,
                },
            },
            ImportClause::Namespace { local } => ImportClauseView::Namespace { local: local@ },
        }
    }
}

/// An import declaration, reduced to what the extractor reads.
#[derive(Debug, PartialEq, Eq)]
pub struct ImportSite {
    pub source: String,
    pub clauses: Vec<ImportClause>,
    pub span: Span,
}

pub struct ImportSiteView {
    pub source: Seq<char>,
    pub clauses: Seq<ImportClauseView>,
    pub span: Span,
}

impl View for ImportSite {
    type V = ImportSiteView;

    open spec fn view(&self) -> ImportSiteView {
        ImportSiteView { source: self.source@, clauses: views(self.clauses@), span: self.span }
    }
}

/// A place in a module where a dependency may be introduced.
#[derive(Debug, PartialEq, Eq)]
pub enum SyntaxSite {
    Call(CallSite),
    Import(ImportSite),
}

pub enum SyntaxSiteView {
    Call(CallSiteView),
    Import(ImportSiteView),
}

impl View for SyntaxSite {
    type V = SyntaxSiteView;

    open spec fn view(&self) -> SyntaxSiteView {
        match self {
            SyntaxSite::Call(call) => SyntaxSiteView::Call(call@),
            SyntaxSite::Import(import) => SyntaxSiteView::Import(import@),
        }
    }
}

} // verus!
