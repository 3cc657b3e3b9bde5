//! Per-render extensions: the code-block processors a render consults.

use vstd::prelude::*;
use crate::code_block::CodeBlockProcessor;

verus! {

/// Per-render extensions: code-block processors, checked in registration
/// order; the first that does not pass a block through handles it.
pub struct Pipeline {
    pub processors: Vec<Box<dyn CodeBlockProcessor>>,
}

/// A processor behind a box, as the pipeline holds it.
fn boxed<P: CodeBlockProcessor + 'static>(processor: P) -> Box<dyn CodeBlockProcessor> {
    Box::new(processor)
}

impl Pipeline {
    /// An empty pipeline: no code-block processors.
    pub fn new() -> (r: Self)
        ensures
            r.processors@.len() == 0,
    {
        Pipeline { processors: Vec::new() }
    }

    /// Add a code-block processor after those already registered.
    pub fn with_processor<P: CodeBlockProcessor + 'static>(self, processor: P) -> (r: Self)
        ensures
            r.processors@.len() == self.processors@.len() + 1,
            exists|b: Box<dyn CodeBlockProcessor>| r.processors@ == #[trigger] self.processors@.push(b),
    {
        let mut p = self;
        let ghost before = p.processors@;
        let b = boxed(processor);
        p.processors.push(b);
        assert(p.processors@ == before.push(b));
        proof {
            crate::kv::lemma_push_len(before, b);
        }
        p
    }

    /// The number of registered processors.
    pub fn len(&self) -> (r: usize)
        ensures
            r == self.processors@.len(),
    {
        self.processors.len()
    }
}

impl Default for Pipeline {
    fn default() -> (r: Self)
        ensures
            r.processors@.len() == 0,
    {
        Pipeline::new()
    }
}

} // verus!
