//! Leaf directives: `::name[content]{attrs}` on a line of their own.

use vstd::prelude::*;
use crate::directive::args::DirectiveArgs;
use crate::directive::context::DirectiveContext;
use crate::directive::fills::Fills;
use crate::directive::output::DirectiveOutput;

verus! {

/// Handler for a leaf directive.
pub trait LeafDirective {
    /// The directive name this handler answers to.
    fn name(&self) -> &str;

    /// Whether `process` declines exactly when `process_skips` says. A
    /// handler implemented outside the verified library makes no such
    /// promise, which is the default.
    open spec fn processes_by_spec(&self) -> bool {
        false
    }

    /// Whether rendering an occurrence with `args` declines (`Skip`), for a
    /// handler that `processes_by_spec`.
    open spec fn process_skips(&self, args: DirectiveArgs) -> bool {
        false
    }

    /// Render one occurrence of the directive.
    fn process(&mut self, args: DirectiveArgs, ctx: &DirectiveContext) -> (r: DirectiveOutput)
        ensures
            old(self).processes_by_spec() ==> (r is Skip <==> old(self).process_skips(args)),
    ;

    /// Supply content for holes reserved by deferred output; a handler
    /// that answers `warnings` by its specification keeps its warnings.
    fn fills(&mut self, fills: &mut Fills)
        ensures
            old(self).warns_by_spec() ==> final(self).warns_by_spec() && final(self).warnings_spec() == old(
                self,
            ).warnings_spec(),
        default_ensures
            final(fills)@ == old(fills)@,
    {
    }

    /// Whether `warnings` answers as `warnings_spec` says. A handler
    /// implemented outside the verified library makes no such promise,
    /// which is the default.
    open spec fn warns_by_spec(&self) -> bool {
        false
    }

    /// The warnings, for a handler that `warns_by_spec`; by default none.
    open spec fn warnings_spec(&self) -> Seq<Seq<char>> {
        Seq::empty()
    }

    /// Warnings generated during processing (most handlers: none).
    fn warnings(&self) -> (r: &[String])
        ensures
            self.warns_by_spec() ==> r@.map_values(|w: String| w@) == self.warnings_spec(),
    ;
}

} // verus!
