//! Named markers with attributes, for directives that describe what to
//! render rather than rendering it.

use vstd::prelude::*;
use crate::directive::output::IntoText;

verus! {

/// A named marker with attributes, in the order they were added.
#[derive(Debug, Clone, PartialEq, Eq)]
pub struct Marker {
    /// Marker name.
    pub name: &'static str,
    attrs: Vec<(&'static str, String)>,
}

/// The value of the first attribute named `key`.
pub open spec fn first_attr(attrs: Seq<(Seq<char>, Seq<char>)>, key: Seq<char>) -> Option<Seq<char>>
    decreases attrs.len(),
{
    if attrs.len() == 0 {
        None
    } else if attrs[0].0 == key {
        Some(attrs[0].1)
    } else {
        first_attr(attrs.drop_first(), key)
    }
}

impl Marker {
    /// The marker's name.
    pub closed spec fn name_view(&self) -> Seq<char> {
        self.name@
    }

    /// The attributes, in the order they were added.
    pub closed spec fn attrs_view(&self) -> Seq<(Seq<char>, Seq<char>)> {
        self.attrs@.map_values(|p: (&'static str, String)| (p.0@, p.1@))
    }

    /// A marker with no attributes.
    pub fn new(name: &'static str) -> (r: Self)
        ensures
            r.name_view() == name@,
            r.attrs_view() == Seq::<(Seq<char>, Seq<char>)>::empty(),
    {
        let r = Marker { name, attrs: Vec::new() };
        assert(r.attrs_view() =~= Seq::<(Seq<char>, Seq<char>)>::empty());
        r
    }

    /// The marker with one more attribute.
    pub fn with_attr<S: IntoText>(self, key: &'static str, value: S) -> (r: Self)
        ensures
            r.name_view() == self.name_view(),
            r.attrs_view() == self.attrs_view().push((key@, value.text_view())),
    {
        let mut m = self;
        let ghost before = m.attrs_view();
        m.attrs.push((key, value.into_text()));
        assert(m.attrs_view() =~= before.push((key@, value.text_view())));
        m
    }

    /// The value of the first attribute named `key`.
    pub fn attr(&self, key: &str) -> (r: Option<&str>)
        ensures
            match r {
                Some(v) => first_attr(self.attrs_view(), key@) == Some(v@),
                None => first_attr(self.attrs_view(), key@) is None,
            },
    {
        let mut i: usize = 0;
        let ghost a = self.attrs_view();
        assert(a.skip(0) =~= a);
        while i < self.attrs.len()
            invariant
                i <= a.len(),
                a == self.attrs_view(),
                first_attr(a, key@) == first_attr(a.skip(i as int), key@),
            decreases self.attrs.len() - i,
        {
            assert(a.skip(i as int)[0] == a[i as int]);
            assert(a.skip(i as int).drop_first() =~= a.skip(i + 1));
            assert(a[i as int].0 == self.attrs@[i as int].0@);
            if crate::text::str_eq(self.attrs[i].0, key) {
                return Some(self.attrs[i].1.as_str());
            }
            i = i + 1;
        }
        None
    }
}

} // verus!
