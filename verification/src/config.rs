//! What a renderer is configured with from outside.

use vstd::prelude::*;

verus! {

/// Looks up page titles for wikilink display text. `path` is a page path
/// without a leading slash (`domains/billing/overview`); `None` when the
/// page is unknown.
pub trait TitleResolver {
    /// Whether `resolve_title` answers as `title_for` says. A resolver
    /// implemented outside the verified library makes no such promise,
    /// which is the default.
    open spec fn resolves_by_spec(&self) -> bool {
        false
    }

    /// The title of the page at `path`, for a resolver that
    /// `resolves_by_spec`; by default none.
    open spec fn title_for(&self, path: Seq<char>) -> Option<Seq<char>> {
        None
    }

    /// The title of the page at `path`, if it has one.
    fn resolve_title(&self, path: &str) -> (r: Option<String>)
        ensures
            self.resolves_by_spec() ==> match r {
                Some(t) => self.title_for(path@) == Some(t@),
                None => self.title_for(path@) is None,
            },
    ;
}

/// Where a path lands in the site's sections: the section's canonical
/// reference (`kind:namespace/name`), its name, and the path within it.
pub struct SectionMatch {
    pub section_ref: String,
    pub section_name: String,
    pub path: String,
}

/// The site's section registry, as rendering consults it.
pub trait SectionIndex {
    /// Resolve a wikilink target to the href it links to and the section it
    /// lands in; `base_path` is the current page's path, which targets
    /// relative to the current section need. `None` when it does not resolve.
    fn resolve_refpath(&self, target: &str, base_path: Option<&str>) -> (r: Option<(String, SectionMatch)>)
        ensures
            self.finds_by_spec() ==> self.refpath_for(
                target@,
                match base_path {
                    Some(b) => Some(b@),
                    None => None,
                },
            ) == match r {
                Some((h, m)) => Some((h@, (m.section_ref@, m.section_name@, m.path@))),
                None => None,
            },
    ;

    /// The href a wikilink target resolves to and the section it lands in,
    /// as (href, (reference, name, path)), for a registry that
    /// `finds_by_spec`; by default none.
    open spec fn refpath_for(&self, target: Seq<char>, base_path: Option<Seq<char>>) -> Option<
        (Seq<char>, (Seq<char>, Seq<char>, Seq<char>)),
    > {
        None
    }

    /// Whether `find` and `resolve_refpath` answer as `section_for` and
    /// `refpath_for` say. A registry implemented outside the verified library
    /// makes no such promise, which is the default.
    open spec fn finds_by_spec(&self) -> bool {
        false
    }

    /// The section an href lands in, as (reference, name, path), for a
    /// registry that `finds_by_spec`; by default none.
    open spec fn section_for(&self, href: Seq<char>) -> Option<(Seq<char>, Seq<char>, Seq<char>)> {
        None
    }

    /// Whether the registry holds no section at all (by default it is not
    /// known to be empty).
    fn is_empty(&self) -> bool {
        false
    }

    /// The section an internal href lands in, if any.
    fn find(&self, href: &str) -> (r: Option<SectionMatch>)
        ensures
            self.finds_by_spec() ==> self.section_for(href@) == match r {
                Some(m) => Some((m.section_ref@, m.section_name@, m.path@)),
                None => None,
            },
    ;
}

/// Settings that live as long as a renderer.
pub struct RenderConfig {
    /// URL path of the page being rendered, for resolving relative links.
    pub base_path: Option<String>,
    /// Prefix stripped from links of a page outside the source directory.
    pub origin_prefix: Option<String>,
    /// Whether the page is a directory index (relative links resolve against
    /// its own path) rather than a leaf (against its containing directory).
    pub is_dir: bool,
    /// Whether `[[wikilinks]]` are recognized.
    pub wikilinks: bool,
    /// Whether the first H1 becomes the page title.
    pub extract_title: bool,
    /// The section registry wikilinks and section references resolve in.
    pub sections: Option<Box<dyn SectionIndex>>,
    /// Titles for wikilink display text.
    pub title_resolver: Option<Box<dyn TitleResolver>>,
}

impl RenderConfig {
    /// Defaults: no base path or origin, a directory page, no wikilinks, no
    /// title extraction, no sections, no title resolver.
    pub fn new() -> (r: Self)
        ensures
            r.base_path is None,
            r.origin_prefix is None,
            r.is_dir,
            !r.wikilinks,
            !r.extract_title,
            r.sections is None,
            r.title_resolver is None,
    {
        RenderConfig {
            base_path: None,
            origin_prefix: None,
            is_dir: true,
            wikilinks: false,
            extract_title: false,
            sections: None,
            title_resolver: None,
        }
    }

    /// Take the page title from the first H1.
    pub fn with_title_extraction(self) -> (r: Self)
        ensures
            r.extract_title,
            r.base_path == self.base_path,
            r.origin_prefix == self.origin_prefix,
            r.is_dir == self.is_dir,
            r.wikilinks == self.wikilinks,
    {
        let mut c = self;
        c.extract_title = true;
        c
    }

    /// Resolve relative links against `path` (a URL path with a leading `/`).
    pub fn with_base_path(self, path: String) -> (r: Self)
        ensures
            r.base_path == Some(path),
            r.origin_prefix == self.origin_prefix,
            r.is_dir == self.is_dir,
            r.wikilinks == self.wikilinks,
            r.extract_title == self.extract_title,
    {
        let mut c = self;
        c.base_path = Some(path);
        c
    }

    /// Whether the page's URL names a directory (relative links resolve
    /// against it) rather than a file (against its containing directory).
    pub fn with_is_dir(self, is_dir: bool) -> (r: Self)
        ensures
            r.is_dir == is_dir,
            r.base_path == self.base_path,
            r.origin_prefix == self.origin_prefix,
            r.wikilinks == self.wikilinks,
            r.extract_title == self.extract_title,
    {
        let mut c = self;
        c.is_dir = is_dir;
        c
    }

    /// The source directory name of a page outside the source directory:
    /// relative links that start with `origin` and a `/` lose that prefix.
    pub fn with_origin(self, origin: String) -> (r: Self)
        ensures
            r.origin_prefix matches Some(p) && p@ == origin@.push('/'),
            r.base_path == self.base_path,
            r.is_dir == self.is_dir,
            r.wikilinks == self.wikilinks,
            r.extract_title == self.extract_title,
    {
        let mut prefix = origin;
        crate::text::push_char(&mut prefix, '/');
        let mut c = self;
        c.origin_prefix = Some(prefix);
        c
    }

    /// The section registry wikilinks and section references resolve in;
    /// an empty registry is the same as none.
    pub fn with_sections(self, sections: Box<dyn SectionIndex>) -> (r: Self)
        ensures
            r.base_path == self.base_path,
            r.origin_prefix == self.origin_prefix,
            r.is_dir == self.is_dir,
            r.wikilinks == self.wikilinks,
            r.extract_title == self.extract_title,
    {
        let mut c = self;
        if sections.is_empty() {
            c.sections = None;
        } else {
            c.sections = Some(sections);
        }
        c
    }

    /// Whether `[[wikilinks]]` are recognized.
    pub fn with_wikilinks(self, enabled: bool) -> (r: Self)
        ensures
            r.wikilinks == enabled,
            r.base_path == self.base_path,
            r.origin_prefix == self.origin_prefix,
            r.is_dir == self.is_dir,
            r.extract_title == self.extract_title,
    {
        let mut c = self;
        c.wikilinks = enabled;
        c
    }

    /// The resolver that gives wikilinks without display text their titles.
    pub fn with_title_resolver(self, resolver: Box<dyn TitleResolver>) -> (r: Self)
        ensures
            r.title_resolver is Some,
            r.base_path == self.base_path,
            r.origin_prefix == self.origin_prefix,
            r.is_dir == self.is_dir,
            r.wikilinks == self.wikilinks,
            r.extract_title == self.extract_title,
    {
        let mut c = self;
        c.title_resolver = Some(resolver);
        c
    }
}

} // verus!
