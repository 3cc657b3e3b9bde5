//! Tabbed content blocks: `::: tabs` groups of `::: tab Label` items, turned
//! into intermediate elements by the preprocessor and into accessible markup
//! by the post-processor.

pub mod fence;
pub mod directive;
pub mod preprocessor;
pub mod processor;

use vstd::prelude::*;

verus! {

/// One tab within a group, as handed to a backend's tab methods.
pub struct TabInfo {
    /// Document-global tab id, used in element ids.
    pub id: usize,
    /// Display label from `:::tab[Label]`.
    pub label: String,
    /// First tab in its group (selected, not `hidden`).
    pub is_first: bool,
}

} // verus!
