//! Dependency graphs of JavaScript modules.
//!
//! Starting from an entry file, the crate finds the modules it depends on
//! through `require(...)` calls and `import` declarations, resolves each
//! specifier to a file following Node.js resolution, and records the
//! transitive closure as a graph.
pub mod model;
pub mod syntax;
pub mod visitor;
pub mod extract;
pub mod path;
pub mod fs;
pub mod manifest;
pub mod resolve;
pub mod graph;
pub mod plan;
pub mod growth;
pub mod bounds;
pub mod closure;
pub mod builder;
