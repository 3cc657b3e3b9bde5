//! Container directives: `:::name[content]{attrs}` ... `:::` around a block
//! of content.

use vstd::prelude::*;
use crate::directive::args::DirectiveArgs;
use crate::directive::context::DirectiveContext;
use crate::directive::fills::Fills;
use crate::directive::output::DirectiveOutput;

verus! {

/// Handler for a container directive.
pub trait ContainerDirective {
    /// The directive name this handler answers to.
    fn name(&self) -> &str;

    /// Whether `matches` answers as `answers_to` says. A handler
    /// implemented outside the verified library makes no such promise,
    /// which is the default.
    open spec fn matches_by_spec(&self) -> bool {
        false
    }

    /// The names this handler answers to, for one that `matches_by_spec`;
    /// by default none.
    open spec fn answers_to(&self, name: Seq<char>) -> bool {
        false
    }

    /// Whether this handler answers to `name` (most handlers: their own name).
    fn matches(&self, name: &str) -> (r: bool)
        ensures
            self.matches_by_spec() ==> r == self.answers_to(name@),
    ;

    /// Open the container.
    fn start(&mut self, args: DirectiveArgs, ctx: &DirectiveContext) -> DirectiveOutput;

    /// Whether `start_named` declines exactly when `start_skips` says. A
    /// handler implemented outside the verified library makes no such
    /// promise, which is the default.
    open spec fn starts_by_spec(&self) -> bool {
        false
    }

    /// Whether opening the container under `name` with `args` declines
    /// (`Skip`), for a handler that `starts_by_spec`.
    open spec fn start_skips(&self, name: Seq<char>, args: DirectiveArgs) -> bool {
        false
    }

    /// Open the container under the name it was written with (most
    /// handlers: the same as `start`).
    fn start_named(&mut self, name: &str, args: DirectiveArgs, ctx: &DirectiveContext) -> (r: DirectiveOutput)
        ensures
            old(self).starts_by_spec() ==> (r is Skip <==> old(self).start_skips(name@, args)),
    ;

    /// Close the container opened on `line`; `None` emits nothing.
    fn end(&mut self, line: usize) -> Option<String>;

    /// Whether opening the container opens a scope that its close ends.
    fn opened_scope(&self) -> (r: bool)
        default_ensures
            r,
    {
        true
    }

    /// Supply content for holes reserved by deferred output; a handler
    /// that answers `warnings` by its specification keeps its warnings.
    fn fills(&mut self, fills: &mut Fills)
        ensures
            old(self).warns_by_spec() ==> final(self).warns_by_spec() && final(self).warnings_spec() == old(
                self,
            ).warnings_spec(),
        default_ensures
            final(fills)@ == old(fills)@,
    {
    }

    /// Whether `warnings` answers as `warnings_spec` says. A handler
    /// implemented outside the verified library makes no such promise,
    /// which is the default.
    open spec fn warns_by_spec(&self) -> bool {
        false
    }

    /// The warnings, for a handler that `warns_by_spec`; by default none.
    open spec fn warnings_spec(&self) -> Seq<Seq<char>> {
        Seq::empty()
    }

    /// Warnings generated during processing (most handlers: none).
    fn warnings(&self) -> (r: &[String])
        ensures
            self.warns_by_spec() ==> r@.map_values(|w: String| w@) == self.warnings_spec(),
    ;
}

} // verus!
