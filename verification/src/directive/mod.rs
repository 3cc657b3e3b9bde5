//! Directive syntax support: argument parsing, line parsing, the directive
//! traits and their processor, and the post-processing replacements.

pub mod args;
pub mod container;
pub mod context;
pub mod fills;
pub mod inline;
pub mod leaf;
pub mod marker;
pub mod output;
pub mod parser;
pub mod processor;
pub mod replacements;

pub use args::DirectiveArgs;
pub use container::ContainerDirective;
pub use context::{DirectiveContext, ReadFile, ResolveError};
pub use fills::{Fills, HoleKey, Part};
pub use inline::InlineDirective;
pub use leaf::LeafDirective;
pub use marker::Marker;
pub use output::DirectiveOutput;
pub use processor::{DirectiveProcessor, DirectiveProcessorConfig};
pub use replacements::Replacements;
