//! What a directive handler produces.

use vstd::prelude::*;
use crate::directive::fills::Part;
use crate::text::{chars_of, string_of};

verus! {

/// Text that can be turned into an owned `String` with the same characters.
pub trait IntoText {
    spec fn text_view(&self) -> Seq<char>;

    fn into_text(self) -> (r: String)
        ensures
            r@ == self.text_view(),
    ;
}

impl<'a> IntoText for &'a str {
    open spec fn text_view(&self) -> Seq<char> {
        (*self)@
    }

    fn into_text(self) -> (r: String) {
        string_of(chars_of(self).as_slice())
    }
}

impl IntoText for String {
    open spec fn text_view(&self) -> Seq<char> {
        self@
    }

    fn into_text(self) -> (r: String) {
        self
    }
}

/// Output of a directive handler.
#[derive(Debug, PartialEq, Eq)]
pub enum DirectiveOutput {
    /// Markup to emit now.
    Html(String),
    /// Markup and holes to fill once the walk is over.
    Deferred(Vec<Part>),
    /// Not handled: the directive's syntax is kept as written.
    Skip,
}

impl DirectiveOutput {
    /// Markup to emit now.
    pub fn html<S: IntoText>(s: S) -> (r: Self)
        ensures
            r matches DirectiveOutput::Html(h) && h@ == s.text_view(),
    {
        DirectiveOutput::Html(s.into_text())
    }

    /// Markup and holes to fill later.
    pub fn deferred(parts: Vec<Part>) -> (r: Self)
        ensures
            r == DirectiveOutput::Deferred(parts),
    {
        DirectiveOutput::Deferred(parts)
    }
}

} // verus!
