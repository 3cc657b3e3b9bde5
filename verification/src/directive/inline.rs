//! Inline directives: `:name[content]{attrs}` within a line of text.

use vstd::prelude::*;
use crate::directive::args::DirectiveArgs;
use crate::directive::context::DirectiveContext;
use crate::directive::output::DirectiveOutput;
use crate::directive::replacements::Replacements;

verus! {

/// Handler for an inline directive.
pub trait InlineDirective {
    /// The directive name this handler answers to.
    fn name(&self) -> &str;

    /// Whether `process` declines exactly when `process_skips` says, and
    /// answers markup exactly as `process_html` says. A
    /// handler implemented outside the verified library makes no such
    /// promise, which is the default.
    open spec fn processes_by_spec(&self) -> bool {
        false
    }

    /// Whether rendering an occurrence with `args` declines (`Skip`), for a
    /// handler that `processes_by_spec`.
    open spec fn process_skips(&self, args: DirectiveArgs) -> bool {
        false
    }

    /// The markup rendering an occurrence with `args` gives, when that is
    /// markup, for a handler that `processes_by_spec`.
    open spec fn process_html(&self, args: DirectiveArgs) -> Option<Seq<char>> {
        None
    }

    /// Render one occurrence of the directive.
    fn process(&mut self, args: DirectiveArgs, ctx: &DirectiveContext) -> (r: DirectiveOutput)
        ensures
            old(self).processes_by_spec() ==> (r is Skip <==> old(self).process_skips(args)),
            old(self).processes_by_spec() ==> match r {
                DirectiveOutput::Html(h) => old(self).process_html(args) == Some(h@),
                _ => old(self).process_html(args) is None,
            },
    ;

    /// Register replacements to apply to the rendered document.
    fn post_process(&mut self, replacements: &mut Replacements)
        default_ensures
            final(replacements)@ == old(replacements)@,
    {
    }
}

} // verus!
