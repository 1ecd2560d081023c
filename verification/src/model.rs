//! Values shared by the extractor, the resolver and the graph.
use vstd::prelude::*;

verus! {

/// Half-open byte range of a construct within its source text, in the
/// positions of the parser: bytes are counted from 1, behind a leading byte
/// order mark if the text has one.
#[derive(Clone, Copy, Debug, PartialEq, Eq, Structural)]
pub struct Span {
    pub start: u32,
    pub end: u32,
}

/// How a module was brought in by the construct that names it.
#[derive(Debug, PartialEq, Eq)]
pub enum ImportKind {
    RequireCall,
    ImportDefault,
    ImportNamed { local: String, remote: String },
    ImportNamespace,
    ImportSideEffectOnly,
}

pub enum ImportKindView {
    RequireCall,
    ImportDefault,
    ImportNamed { local: Seq<char>, remote: Seq<char> },
    ImportNamespace,
    ImportSideEffectOnly,
}

impl View for ImportKind {
    type V = ImportKindView;

    open spec fn view(&self) -> ImportKindView {
        match self {
            ImportKind::RequireCall => ImportKindView::RequireCall,
            ImportKind::ImportDefault => ImportKindView::ImportDefault,
            ImportKind::ImportNamed { local, remote } => ImportKindView::ImportNamed {
                local: local@,
                remote: remote@,
            },
            ImportKind::ImportNamespace => ImportKindView::ImportNamespace,
            ImportKind::ImportSideEffectOnly => ImportKindView::ImportSideEffectOnly,
        }
    }
}

impl Clone for ImportKind {
    fn clone(&self) -> (copy: ImportKind)
        ensures
            copy@ == self@,
    {
        match self {
            ImportKind::RequireCall => ImportKind::RequireCall,
            ImportKind::ImportDefault => ImportKind::ImportDefault,
            ImportKind::ImportNamed { local, remote } => ImportKind::ImportNamed {
                local: local.clone(),
                remote: remote.clone(),
            },
            ImportKind::ImportNamespace => ImportKind::ImportNamespace,
            ImportKind::ImportSideEffectOnly => ImportKind::ImportSideEffectOnly,
        }
    }
}

/// One occurrence of a dependency-introducing construct in a file.
#[derive(Debug, PartialEq, Eq)]
pub struct RawReference {
    pub specifier: String,
    pub kind: ImportKind,
    pub source_span: Span,
}

pub struct RawReferenceView {
    pub specifier: Seq<char>,
    pub kind: ImportKindView,
    pub source_span: Span,
}

impl View for RawReference {
    type V = RawReferenceView;

    open spec fn view(&self) -> RawReferenceView {
        RawReferenceView {
            specifier: self.specifier@,
            kind: self.kind@,
            source_span: self.source_span,
        }
    }
}

impl Clone for RawReference {
    fn clone(&self) -> (copy: RawReference)
        ensures
            copy@ == self@,
    {
        RawReference {
            specifier: self.specifier.clone(),
            kind: self.kind.clone(),
            source_span: self.source_span,
        }
    }
}

/// By which rule a specifier was resolved to its file.
#[derive(Clone, Copy, Debug, PartialEq, Eq, Structural)]
pub enum ModuleKind {
    /// The specifier names the file, with or without its extension.
    File,
    /// The specifier names a directory, and the file is its index.
    DirectoryIndex,
    /// The specifier names a directory, and the file is the entry point
    /// that its manifest gives.
    PackageMain,
}

/// A module on disk. Two references to the same real path denote the same
/// module.
#[derive(Debug, PartialEq, Eq)]
pub struct ResolvedModule {
    /// The real path of the file: absolute, with symbolic links followed.
    pub absolute_path: String,
    pub kind: ModuleKind,
}

pub struct ResolvedModuleView {
    pub absolute_path: Seq<char>,
    pub kind: ModuleKind,
}

impl View for ResolvedModule {
    type V = ResolvedModuleView;

    open spec fn view(&self) -> ResolvedModuleView {
        ResolvedModuleView { absolute_path: self.absolute_path@, kind: self.kind }
    }
}

impl Clone for ResolvedModule {
    fn clone(&self) -> (copy: ResolvedModule)
        ensures
            copy@ == self@,
    {
        ResolvedModule { absolute_path: self.absolute_path.clone(), kind: self.kind }
    }
}

/// Why a specifier names no file.
#[derive(Debug, PartialEq, Eq)]
pub enum ResolutionError {
    /// A relative or absolute specifier that leads to no file.
    NotFound { specifier: String, containing_file: String },
    /// A bare specifier for which no directory above the containing file
    /// holds a package.
    PackageNotFound { specifier: String },
}

pub enum ResolutionErrorView {
    NotFound { specifier: Seq<char>, containing_file: Seq<char> },
    PackageNotFound { specifier: Seq<char> },
}

impl View for ResolutionError {
    type V = ResolutionErrorView;

    open spec fn view(&self) -> ResolutionErrorView {
        match self {
            ResolutionError::NotFound { specifier, containing_file } => {
                ResolutionErrorView::NotFound {
                    specifier: specifier@,
                    containing_file: containing_file@,
                }
            },
            ResolutionError::PackageNotFound { specifier } => {
                ResolutionErrorView::PackageNotFound { specifier: specifier@ }
            },
        }
    }
}

impl Clone for ResolutionError {
    fn clone(&self) -> (copy: ResolutionError)
        ensures
            copy@ == self@,
    {
        match self {
            ResolutionError::NotFound { specifier, containing_file } => {
                ResolutionError::NotFound {
                    specifier: specifier.clone(),
                    containing_file: containing_file.clone(),
                }
            },
            ResolutionError::PackageNotFound { specifier } => {
                ResolutionError::PackageNotFound { specifier: specifier.clone() }
            },
        }
    }
}

/// Why a source text is not a module.
#[derive(Debug, PartialEq, Eq)]
pub struct SyntaxError {
    pub message: String,
    pub span: Span,
}

pub struct SyntaxErrorView {
    pub message: Seq<char>,
    pub span: Span,
}

impl View for SyntaxError {
    type V = SyntaxErrorView;

    open spec fn view(&self) -> SyntaxErrorView {
        SyntaxErrorView { message: self.message@, span: self.span }
    }
}

impl Clone for SyntaxError {
    fn clone(&self) -> (copy: SyntaxError)
        ensures
            copy@ == self@,
    {
        SyntaxError { message: self.message.clone(), span: self.span }
    }
}

/// A reference from one module to another.
#[derive(Debug, PartialEq, Eq)]
pub struct DependencyEdge {
    pub from: ResolvedModule,
    pub to: ResolvedModule,
    pub reference: RawReference,
}

pub struct DependencyEdgeView {
    pub from: ResolvedModuleView,
    pub to: ResolvedModuleView,
    pub reference: RawReferenceView,
}

impl View for DependencyEdge {
    type V = DependencyEdgeView;

    open spec fn view(&self) -> DependencyEdgeView {
        DependencyEdgeView { from: self.from@, to: self.to@, reference: self.reference@ }
    }
}

impl Clone for DependencyEdge {
    fn clone(&self) -> (copy: DependencyEdge)
        ensures
            copy@ == self@,
    {
        DependencyEdge {
            from: self.from.clone(),
            to: self.to.clone(),
            reference: self.reference.clone(),
        }
    }
}

/// What went wrong in a file.
#[derive(Debug, PartialEq, Eq)]
pub enum ErrorKind {
    /// The file is not a module. None of its references are known.
    Syntax(SyntaxError),
    /// The reference at `span` names no file.
    Resolution { error: ResolutionError, span: Span },
    /// The file could not be read.
    Io,
}

pub enum ErrorKindView {
    Syntax(SyntaxErrorView),
    Resolution { error: ResolutionErrorView, span: Span },
    Io,
}

impl View for ErrorKind {
    type V = ErrorKindView;

    open spec fn view(&self) -> ErrorKindView {
        match self {
            ErrorKind::Syntax(error) => ErrorKindView::Syntax(error@),
            ErrorKind::Resolution { error, span } => ErrorKindView::Resolution {
                error: error@,
                span: *span,
            },
            ErrorKind::Io => ErrorKindView::Io,
        }
    }
}

impl Clone for ErrorKind {
    fn clone(&self) -> (copy: ErrorKind)
        ensures
            copy@ == self@,
    {
        match self {
            ErrorKind::Syntax(error) => ErrorKind::Syntax(error.clone()),
            ErrorKind::Resolution { error, span } => ErrorKind::Resolution {
                error: error.clone(),
                span: *span,
            },
            ErrorKind::Io => ErrorKind::Io,
        }
    }
}

/// An error, with the file in which it was met.
#[derive(Debug, PartialEq, Eq)]
pub struct FileError {
    pub path: String,
    pub kind: ErrorKind,
}

pub struct FileErrorView {
    pub path: Seq<char>,
    pub kind: ErrorKindView,
}

impl View for FileError {
    type V = FileErrorView;

    open spec fn view(&self) -> FileErrorView {
        FileErrorView { path: self.path@, kind: self.kind@ }
    }
}

impl Clone for FileError {
    fn clone(&self) -> (copy: FileError)
        ensures
            copy@ == self@,
    {
        FileError { path: self.path.clone(), kind: self.kind.clone() }
    }
}

/// The views of the items of a sequence, in the same order.
pub open spec fn views<T: View>(items: Seq<T>) -> Seq<T::V> {
    items.map_values(|item: T| item@)
}

} // verus!
