//! What one render produces.

use vstd::prelude::*;
use crate::toc::TocEntry;

verus! {

/// The output of one render.
pub struct RenderResult {
    /// The markup the backend wrote.
    pub html: String,
    /// The title taken from the first H1, when title extraction is on.
    pub title: Option<String>,
    /// One entry per heading, the title heading excluded.
    pub toc: Vec<TocEntry>,
    /// Warnings raised while rendering, in the order they arose.
    pub warnings: Vec<String>,
    /// The canonical section refs (`kind:namespace/name`) the page links to,
    /// each once, in ascending order.
    pub section_refs: Vec<String>,
}

} // verus!
