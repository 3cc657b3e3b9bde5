//! The directive processor: registered handlers for inline, leaf and
//! container directives, and the dispatch of parsed directives to them.

use vstd::prelude::*;
use crate::directive::args::{syntax_spec, DirectiveArgs};
use crate::directive::container::ContainerDirective;
use crate::directive::context::{DirectiveContext, NoReader, ReadFile};
use crate::directive::fills::{Fills, GlobalFills, HoleKey, Part, Source};
use crate::directive::inline::InlineDirective;
use crate::directive::leaf::LeafDirective;
use crate::directive::output::{DirectiveOutput, IntoText};
use crate::text::{chars_of, push_str, string_of};

verus! {

/// What a block directive turns into.
#[derive(Debug)]
pub enum BlockDispatch {
    /// Markup to emit now.
    Html(String),
    /// Markup and holes, the holes belonging to `source`.
    Deferred { parts: Vec<Part>, source: Source },
    /// The directive's own syntax, emitted as text.
    PassThrough(String),
}

/// How a container opener was handled.
#[derive(Debug, Clone, Copy, PartialEq, Eq)]
pub enum ContainerOutcome {
    /// Opened by the handler registered at this index, which closes it too.
    Handled(usize),
    /// Rendered literally; its close renders literally too.
    Literal,
    /// A tab group or tab the walker renders itself; the shape says how its
    /// close renders.
    Native(TabScope),
}

/// Which tab shape a built-in tab container opened as.
#[derive(Debug, Clone, Copy, PartialEq, Eq)]
pub enum TabScope {
    /// A `::::tabs` group.
    Group,
    /// A `:::tab` inside an open group.
    Item,
    /// A `:::tab` outside any group, rendered without chrome.
    LoneItem,
}

/// Configuration for directive processing.
pub struct DirectiveProcessorConfig {
    /// Base directory for resolving relative paths.
    pub base_dir: String,
    /// Path of the source file being processed.
    pub source_path: Option<String>,
    /// Reader for files that directives include.
    pub read_file: Option<Box<dyn ReadFile>>,
}

impl DirectiveProcessorConfig {
    /// Base directory `.`, no source path, no file reader.
    pub fn new() -> (r: Self)
        ensures
            r.base_dir@ == seq!['.'],
            r.source_path is None,
            r.read_file is None,
    {
        let mut base = String::new();
        crate::text::push_char(&mut base, '.');
        DirectiveProcessorConfig { base_dir: base, source_path: None, read_file: None }
    }

    /// Set the base directory.
    pub fn with_base_dir<S: IntoText>(self, base_dir: S) -> (r: Self)
        ensures
            r.base_dir@ == base_dir.text_view(),
            r.source_path == self.source_path,
            r.read_file == self.read_file,
    {
        let mut c = self;
        c.base_dir = base_dir.into_text();
        c
    }

    /// Set the source file path.
    pub fn with_source_path<S: IntoText>(self, source_path: S) -> (r: Self)
        ensures
            r.source_path matches Some(p) && p@ == source_path.text_view(),
            r.base_dir == self.base_dir,
            r.read_file == self.read_file,
    {
        let mut c = self;
        c.source_path = Some(source_path.into_text());
        c
    }

    /// Set the reader for files that directives include.
    pub fn with_read_file<F: ReadFile + 'static>(self, read_file: F) -> (r: Self)
        ensures
            r.base_dir == self.base_dir,
            r.source_path == self.source_path,
            r.read_file is Some,
    {
        let mut c = self;
        c.read_file = Some(Box::new(read_file));
        c
    }

    /// The context for a directive on `line`.
    fn create_context(&self, line: usize) -> (r: DirectiveContext<'_>)
        ensures
            r.base_view() == self.base_dir@,
            r.line_view() == line,
    {
        let source: Option<&str> = match &self.source_path {
            Some(p) => Some(p.as_str()),
            None => None,
        };
        match &self.read_file {
            Some(reader) => DirectiveContext::new(source, self.base_dir.as_str(), line, &**reader),
            None => DirectiveContext::new(source, self.base_dir.as_str(), line, &NoReader),
        }
    }
}

/// `prefix` + `name` + the syntax of `args`: how an unhandled directive is
/// written back.
pub open spec fn literal_spec(prefix: Seq<char>, name: Seq<char>, args: DirectiveArgs) -> Seq<char> {
    prefix + name + syntax_spec(args.content@, args.id_view(), args.classes_view(), args.attrs_view())
}

fn literal(prefix: &str, name: &str, syntax: &String) -> (r: String)
    ensures
        r@ == prefix@ + name@ + syntax@,
{
    let mut s = String::new();
    push_str(&mut s, prefix);
    push_str(&mut s, name);
    push_str(&mut s, syntax.as_str());
    s
}

/// What a container opener handled by the handler at `idx` turns into,
/// given what the handler produced; `literal` is the opener as written.
pub fn container_outcome(idx: usize, literal: String, out: DirectiveOutput) -> (r: (ContainerOutcome, BlockDispatch))
    ensures
        match out {
            DirectiveOutput::Html(h) => r == (ContainerOutcome::Handled(idx), BlockDispatch::Html(h)),
            DirectiveOutput::Deferred(parts) => r == (
                ContainerOutcome::Handled(idx),
                BlockDispatch::Deferred { parts, source: Source::Container(idx) },
            ),
            DirectiveOutput::Skip => r == (ContainerOutcome::Literal, BlockDispatch::PassThrough(literal)),
        },
{
    match out {
        DirectiveOutput::Html(h) => (ContainerOutcome::Handled(idx), BlockDispatch::Html(h)),
        DirectiveOutput::Deferred(parts) => (
            ContainerOutcome::Handled(idx),
            BlockDispatch::Deferred { parts, source: Source::Container(idx) },
        ),
        DirectiveOutput::Skip => (ContainerOutcome::Literal, BlockDispatch::PassThrough(literal)),
    }
}

/// What a leaf directive handled by the handler at `idx` turns into, given
/// what the handler produced; `literal` is the directive as written.
pub fn leaf_outcome(idx: usize, literal: String, out: DirectiveOutput) -> (r: BlockDispatch)
    ensures
        match out {
            DirectiveOutput::Html(h) => r == BlockDispatch::Html(h),
            DirectiveOutput::Deferred(parts) => r == (BlockDispatch::Deferred { parts, source: Source::Leaf(idx) }),
            DirectiveOutput::Skip => r == BlockDispatch::PassThrough(literal),
        },
{
    match out {
        DirectiveOutput::Html(h) => BlockDispatch::Html(h),
        DirectiveOutput::Deferred(parts) => BlockDispatch::Deferred { parts, source: Source::Leaf(idx) },
        DirectiveOutput::Skip => BlockDispatch::PassThrough(literal),
    }
}

/// Merge `fills` under `namespace` unless the total size would overflow a
/// `usize`.
pub(crate) fn merge_checked(collected: &mut GlobalFills<Source>, namespace: Source, fills: Fills)
    requires
        old(collected).wf(),
    ensures
        final(collected).wf(),
        old(collected).content_len() + fills.content_len() <= usize::MAX ==> final(collected)@ == old(
            collected,
        )@.union_prefer_right(crate::directive::fills::under(namespace, fills@)),
        old(collected).content_len() + fills.content_len() > usize::MAX ==> final(collected)@ == old(
            collected,
        )@,
{
    match fills.total_bytes() {
        Some(n) => {
            let total = collected.total_len();
            if n <= usize::MAX - total {
                collected.merge(namespace, fills);
            }
        },
        None => {},
    }
}

/// `i` is the first position of `name` among `names`: dispatch goes to the
/// first handler registered under a name.
pub open spec fn first_named(names: Seq<Seq<char>>, name: Seq<char>, i: int) -> bool {
    &&& 0 <= i < names.len()
    &&& names[i] == name
    &&& forall|j: int| 0 <= j < i ==> names[j] != name
}

/// The warning for a handler registered under a name already taken;
/// `prefix` names the kind of directive and its colons.
pub open spec fn duplicate_message(prefix: Seq<char>, name: Seq<char>) -> Seq<char> {
    prefix + name + "' is registered more than once; only the first handler will be dispatched"@
}

/// `b` holds what `a` holds under every namespace but the directive
/// handlers' (`Leaf`, `Container`).
pub open spec fn kept_outside_handlers(a: Map<(Source, HoleKey), Seq<char>>, b: Map<(Source, HoleKey), Seq<char>>) -> bool {
    forall|k: (Source, HoleKey)|
        !(k.0 is Leaf) && !(k.0 is Container) ==> (#[trigger] b.contains_key(k) <==> a.contains_key(k)) && (
        a.contains_key(k) ==> b[k] == a[k])
}

/// A inline handler behind a box, as the processor holds it.
fn boxed_inline<D: InlineDirective + 'static>(handler: D) -> Box<dyn InlineDirective> {
    Box::new(handler)
}

/// A leaf handler behind a box, as the processor holds it.
fn boxed_leaf<D: LeafDirective + 'static>(handler: D) -> Box<dyn LeafDirective> {
    Box::new(handler)
}

/// A container handler behind a box, as the processor holds it.
fn boxed_container<D: ContainerDirective + 'static>(handler: D) -> Box<dyn ContainerDirective> {
    Box::new(handler)
}

/// Directive processor with registered handlers.
pub struct DirectiveProcessor {
    config: DirectiveProcessorConfig,
    inline_handlers: Vec<(String, Box<dyn InlineDirective>)>,
    leaf_handlers: Vec<(String, Box<dyn LeafDirective>)>,
    container_handlers: Vec<(String, Box<dyn ContainerDirective>)>,
    warnings: Vec<String>,
}


impl DirectiveProcessor {
    pub closed spec fn warnings_view(&self) -> Seq<Seq<char>> {
        self.warnings@.map_values(|w: String| w@)
    }

    pub closed spec fn inline_count(&self) -> nat {
        self.inline_handlers@.len()
    }

    pub closed spec fn leaf_count(&self) -> nat {
        self.leaf_handlers@.len()
    }

    pub closed spec fn container_count(&self) -> nat {
        self.container_handlers@.len()
    }

    /// Whether every container handler answers `matches` by its
    /// specification.
    pub closed spec fn containers_match_by_spec(&self) -> bool {
        forall|j: int| 0 <= j < self.container_handlers@.len() ==> #[trigger] self.container_handlers@[j].1.matches_by_spec()
    }

    /// Whether the container handler at `j` answers to `name`.
    pub closed spec fn container_answers(&self, j: int, name: Seq<char>) -> bool {
        self.container_handlers@[j].1.answers_to(name)
    }

    /// Whether the inline handler at `j` declines only as its
    /// specification says.
    pub closed spec fn inline_processes_by_spec(&self, j: int) -> bool {
        self.inline_handlers@[j].1.processes_by_spec()
    }

    /// The markup the first inline handler registered under `name` gives
    /// for `args`, when that handler answers by its specification and
    /// answers markup.
    pub closed spec fn inline_answer(&self, name: Seq<char>, args: DirectiveArgs) -> Option<Seq<char>> {
        if exists|i: int| #[trigger] first_named(self.inline_names(), name, i) && self.inline_processes_by_spec(i) {
            let i = choose|i: int| #[trigger] first_named(self.inline_names(), name, i) && self.inline_processes_by_spec(i);
            self.inline_handlers@[i].1.process_html(args)
        } else {
            None
        }
    }

    /// Whether the inline handler at `j` declines to render an occurrence
    /// with `args`.
    pub closed spec fn inline_skips(&self, j: int, args: DirectiveArgs) -> bool {
        self.inline_handlers@[j].1.process_skips(args)
    }

    /// Whether the leaf handler at `j` declines only as its specification
    /// says.
    pub closed spec fn leaf_processes_by_spec(&self, j: int) -> bool {
        self.leaf_handlers@[j].1.processes_by_spec()
    }

    /// Whether the leaf handler at `j` declines to render an occurrence
    /// with `args`.
    pub closed spec fn leaf_skips(&self, j: int, args: DirectiveArgs) -> bool {
        self.leaf_handlers@[j].1.process_skips(args)
    }

    /// Whether every container handler declines only as its specification
    /// says.
    pub closed spec fn containers_start_by_spec(&self) -> bool {
        forall|j: int| 0 <= j < self.container_handlers@.len() ==> #[trigger] self.container_handlers@[j].1.starts_by_spec()
    }

    /// Whether the container handler at `j` declines to open `name` with
    /// `args`.
    pub closed spec fn container_skips(&self, j: int, name: Seq<char>, args: DirectiveArgs) -> bool {
        self.container_handlers@[j].1.start_skips(name, args)
    }

    /// The names the inline handlers were registered under, in order.
    pub closed spec fn inline_names(&self) -> Seq<Seq<char>> {
        self.inline_handlers@.map_values(|h: (String, Box<dyn InlineDirective>)| h.0@)
    }

    /// The names the leaf handlers were registered under, in order.
    pub closed spec fn leaf_names(&self) -> Seq<Seq<char>> {
        self.leaf_handlers@.map_values(|h: (String, Box<dyn LeafDirective>)| h.0@)
    }

    /// The primary names the container handlers were registered under, in
    /// order.
    pub closed spec fn container_names(&self) -> Seq<Seq<char>> {
        self.container_handlers@.map_values(|h: (String, Box<dyn ContainerDirective>)| h.0@)
    }

    /// The configuration the processor was made with.
    pub closed spec fn config_view(&self) -> DirectiveProcessorConfig {
        self.config
    }

    /// A processor with the default configuration and no handlers.
    pub fn new() -> (r: Self)
        ensures
            r.inline_count() == 0,
            r.leaf_count() == 0,
            r.container_count() == 0,
            r.warnings_view() == Seq::<Seq<char>>::empty(),
            r.config_view().base_dir@ == seq!['.'],
            r.config_view().source_path is None,
            r.config_view().read_file is None,
    {
        DirectiveProcessor::with_config(DirectiveProcessorConfig::new())
    }

    /// A processor with `config` and no handlers.
    pub fn with_config(config: DirectiveProcessorConfig) -> (r: Self)
        ensures
            r.inline_count() == 0,
            r.leaf_count() == 0,
            r.container_count() == 0,
            r.warnings_view() == Seq::<Seq<char>>::empty(),
            r.config_view() == config,
    {
        let r = DirectiveProcessor {
            config,
            inline_handlers: Vec::new(),
            leaf_handlers: Vec::new(),
            container_handlers: Vec::new(),
            warnings: Vec::new(),
        };
        assert(r.warnings_view() =~= Seq::<Seq<char>>::empty());
        r
    }

    fn warn(&mut self, w: String)
        ensures
            final(self).warnings_view() == old(self).warnings_view().push(w@),
            final(self).inline_handlers@ == old(self).inline_handlers@,
            final(self).leaf_handlers@ == old(self).leaf_handlers@,
            final(self).container_handlers@ == old(self).container_handlers@,
            final(self).config == old(self).config,
    {
        self.warnings.push(w);
        assert(self.warnings_view() =~= old(self).warnings_view().push(w@));
    }

    /// Register an inline directive handler under the name it gives. A
    /// second handler under a name already registered is kept but never
    /// dispatched, and a warning says so.
    pub fn with_inline<D: InlineDirective + 'static>(self, handler: D) -> (r: Self)
        ensures
            r.inline_names().len() == self.inline_names().len() + 1,
            r.inline_names().drop_last() == self.inline_names(),
            r.leaf_names() == self.leaf_names(),
            r.container_names() == self.container_names(),
            r.config_view() == self.config_view(),
            r.warnings_view() == if self.inline_names().contains(r.inline_names().last()) {
                self.warnings_view().push(duplicate_message("inline directive ':"@, r.inline_names().last()))
            } else {
                self.warnings_view()
            },
    {
        let mut p = self;
        let name = string_of(chars_of(handler.name()).as_slice());
        let mut dup = false;
        let mut i: usize = 0;
        while i < p.inline_handlers.len()
            invariant
                i <= p.inline_handlers@.len(),
                p == self,
                dup == exists|j: int| 0 <= j < i && #[trigger] p.inline_names()[j] == name@,
            decreases p.inline_handlers.len() - i,
        {
            if crate::text::str_eq(p.inline_handlers[i].0.as_str(), name.as_str()) {
                dup = true;
                assert(p.inline_names()[i as int] == name@);
            }
            i = i + 1;
        }
        proof {
            if p.inline_names().contains(name@) {
                let j = choose|j: int| 0 <= j < p.inline_names().len() && p.inline_names()[j] == name@;
                assert(p.inline_names()[j] == name@);
            }
        }
        if dup {
            let mut w = String::new();
            push_str(&mut w, "inline directive ':");
            push_str(&mut w, name.as_str());
            push_str(&mut w, "' is registered more than once; only the first handler will be dispatched");
            p.warn(w);
        }
        assert(p.inline_handlers@ == self.inline_handlers@);
        let ghost before = p.inline_handlers@;
        let ghost nm = name@;
        let b = boxed_inline(handler);
        let entry = (name, b);
        p.inline_handlers.push(entry);
        assert(p.inline_handlers@ == before.push(entry));
        assert(p.inline_names() =~= self.inline_names().push(nm));
        p
    }

    /// Register a leaf directive handler (see `with_inline` for duplicates).
    pub fn with_leaf<D: LeafDirective + 'static>(self, handler: D) -> (r: Self)
        ensures
            r.leaf_names().len() == self.leaf_names().len() + 1,
            r.leaf_names().drop_last() == self.leaf_names(),
            r.inline_names() == self.inline_names(),
            r.container_names() == self.container_names(),
            r.config_view() == self.config_view(),
            r.warnings_view() == if self.leaf_names().contains(r.leaf_names().last()) {
                self.warnings_view().push(duplicate_message("leaf directive '::"@, r.leaf_names().last()))
            } else {
                self.warnings_view()
            },
    {
        let mut p = self;
        let name = string_of(chars_of(handler.name()).as_slice());
        let mut dup = false;
        let mut i: usize = 0;
        while i < p.leaf_handlers.len()
            invariant
                i <= p.leaf_handlers@.len(),
                p == self,
                dup == exists|j: int| 0 <= j < i && #[trigger] p.leaf_names()[j] == name@,
            decreases p.leaf_handlers.len() - i,
        {
            if crate::text::str_eq(p.leaf_handlers[i].0.as_str(), name.as_str()) {
                dup = true;
                assert(p.leaf_names()[i as int] == name@);
            }
            i = i + 1;
        }
        proof {
            if p.leaf_names().contains(name@) {
                let j = choose|j: int| 0 <= j < p.leaf_names().len() && p.leaf_names()[j] == name@;
                assert(p.leaf_names()[j] == name@);
            }
        }
        if dup {
            let mut w = String::new();
            push_str(&mut w, "leaf directive '::");
            push_str(&mut w, name.as_str());
            push_str(&mut w, "' is registered more than once; only the first handler will be dispatched");
            p.warn(w);
        }
        assert(p.leaf_handlers@ == self.leaf_handlers@);
        let ghost before = p.leaf_handlers@;
        let ghost nm = name@;
        let b = boxed_leaf(handler);
        let entry = (name, b);
        p.leaf_handlers.push(entry);
        assert(p.leaf_handlers@ == before.push(entry));
        assert(p.leaf_names() =~= self.leaf_names().push(nm));
        p
    }

    /// Register a container directive handler (see `with_inline` for
    /// duplicates, which are found by primary name).
    pub fn with_container<D: ContainerDirective + 'static>(self, handler: D) -> (r: Self)
        ensures
            r.container_names().len() == self.container_names().len() + 1,
            r.container_names().drop_last() == self.container_names(),
            r.inline_names() == self.inline_names(),
            r.leaf_names() == self.leaf_names(),
            r.config_view() == self.config_view(),
            r.warnings_view() == if self.container_names().contains(r.container_names().last()) {
                self.warnings_view().push(duplicate_message("container directive ':::"@, r.container_names().last()))
            } else {
                self.warnings_view()
            },
    {
        let mut p = self;
        let name = string_of(chars_of(handler.name()).as_slice());
        let mut dup = false;
        let mut i: usize = 0;
        while i < p.container_handlers.len()
            invariant
                i <= p.container_handlers@.len(),
                p == self,
                dup == exists|j: int| 0 <= j < i && #[trigger] p.container_names()[j] == name@,
            decreases p.container_handlers.len() - i,
        {
            if crate::text::str_eq(p.container_handlers[i].0.as_str(), name.as_str()) {
                dup = true;
                assert(p.container_names()[i as int] == name@);
            }
            i = i + 1;
        }
        proof {
            if p.container_names().contains(name@) {
                let j = choose|j: int| 0 <= j < p.container_names().len() && p.container_names()[j] == name@;
                assert(p.container_names()[j] == name@);
            }
        }
        if dup {
            let mut w = String::new();
            push_str(&mut w, "container directive ':::");
            push_str(&mut w, name.as_str());
            push_str(&mut w, "' is registered more than once; only the first handler will be dispatched");
            p.warn(w);
        }
        assert(p.container_handlers@ == self.container_handlers@);
        let ghost before = p.container_handlers@;
        let ghost nm = name@;
        let b = boxed_container(handler);
        let entry = (name, b);
        p.container_handlers.push(entry);
        assert(p.container_handlers@ == before.push(entry));
        assert(p.container_names() =~= self.container_names().push(nm));
        p
    }

    /// Dispatch a container opener to the first handler that answers to
    /// `name`. With none, or when it declines, the opener is written back
    /// literally and its close will be too.
    pub fn dispatch_container_start(&mut self, name: &str, args: DirectiveArgs) -> (r: (ContainerOutcome, BlockDispatch))
        ensures
            match r.1 {
                BlockDispatch::PassThrough(t) => r.0 == ContainerOutcome::Literal && t@ == literal_spec(
                    ":::"@,
                    name@,
                    args,
                ),
                BlockDispatch::Html(_) => r.0 matches ContainerOutcome::Handled(i) && i
                    < final(self).container_count(),
                BlockDispatch::Deferred { parts, source } => r.0 matches ContainerOutcome::Handled(i) && i
                    < final(self).container_count() && source == Source::Container(i),
            },
            final(self).container_count() == old(self).container_count(),
            final(self).leaf_count() == old(self).leaf_count(),
            final(self).inline_count() == old(self).inline_count(),
            final(self).warnings_view() == old(self).warnings_view(),
            old(self).container_count() == 0 ==> r.0 == ContainerOutcome::Literal && r.1 is PassThrough,
            old(self).containers_match_by_spec() ==> {
                &&& r.0 matches ContainerOutcome::Handled(i) ==> old(self).container_answers(i as int, name@)
                    && forall|j: int| 0 <= j < i ==> !#[trigger] old(self).container_answers(j, name@)
                &&& (forall|j: int| 0 <= j < old(self).container_count() ==> !#[trigger] old(self).container_answers(j, name@))
                    ==> r.0 == ContainerOutcome::Literal
            },
            old(self).containers_match_by_spec() && old(self).containers_start_by_spec() ==> forall|i: int|
                0 <= i < old(self).container_count() && #[trigger] old(self).container_answers(i, name@) && (forall|j: int|
                    0 <= j < i ==> !#[trigger] old(self).container_answers(j, name@)) ==> (r.0 == ContainerOutcome::Handled(
                    i as usize,
                ) <==> !old(self).container_skips(i, name@, args)) && (r.0 == ContainerOutcome::Handled(i as usize)
                    || r.0 == ContainerOutcome::Literal),
    {
        let syntax = args.to_syntax();
        let lit = literal(":::", name, &syntax);
        let mut i: usize = 0;
        while i < self.container_handlers.len()
            invariant
                i <= self.container_handlers@.len(),
                *self == *old(self),
                old(self).containers_match_by_spec() ==> forall|j: int| 0 <= j < i ==> !#[trigger] old(self).container_answers(j, name@),
            ensures
                i <= self.container_handlers@.len(),
                *self == *old(self),
                old(self).containers_match_by_spec() ==> forall|j: int| 0 <= j < i ==> !#[trigger] old(self).container_answers(j, name@),
                i < self.container_handlers@.len() && old(self).containers_match_by_spec() ==> old(self).container_answers(i as int, name@),
            decreases self.container_handlers.len() - i,
        {
            let m = self.container_handlers[i].1.matches(name);
            proof {
                if old(self).containers_match_by_spec() {
                    assert(self.container_handlers@[i as int].1.matches_by_spec());
                }
            }
            if m {
                break;
            }
            i = i + 1;
        }
        if i >= self.container_handlers.len() {
            return (ContainerOutcome::Literal, BlockDispatch::PassThrough(lit));
        }
        let ctx = self.config.create_context(0);
        proof {
            if old(self).containers_start_by_spec() {
                assert(old(self).container_handlers@[i as int].1.starts_by_spec());
            }
        }
        let ghost a = args;
        let out = self.container_handlers[i].1.start_named(name, args, &ctx);
        proof {
            if old(self).containers_match_by_spec() && old(self).containers_start_by_spec() {
                assert(out is Skip <==> old(self).container_skips(i as int, name@, a));
                assert forall|k: int|
                    0 <= k < old(self).container_count() && #[trigger] old(self).container_answers(k, name@) && (forall|j: int|
                        0 <= j < k ==> !#[trigger] old(self).container_answers(j, name@)) implies k == i by {
                    if k < i {
                    } else if k > i {
                        assert(old(self).container_answers(i as int, name@));
                    }
                }
            }
        }
        container_outcome(i, lit, out)
    }

    /// Close the container opened by the handler at `idx`.
    pub fn container_end(&mut self, idx: usize) -> (r: BlockDispatch)
        requires
            idx < old(self).container_count(),
        ensures
            r is Html,
            final(self).container_count() == old(self).container_count(),
            final(self).leaf_count() == old(self).leaf_count(),
            final(self).inline_count() == old(self).inline_count(),
            final(self).config_view() == old(self).config_view(),
            final(self).warnings_view() == old(self).warnings_view(),
    {
        let out = self.container_handlers[idx].1.end(0);
        match out {
            Some(h) => BlockDispatch::Html(h),
            None => BlockDispatch::Html(String::new()),
        }
    }

    /// Dispatch a leaf directive to the first handler named `name`. With
    /// none, or when it declines, the directive is written back literally.
    pub fn dispatch_leaf(&mut self, name: &str, args: DirectiveArgs) -> (r: BlockDispatch)
        ensures
            match r {
                BlockDispatch::PassThrough(t) => t@ == literal_spec("::"@, name@, args),
                BlockDispatch::Html(_) => true,
                BlockDispatch::Deferred { parts, source } => source matches Source::Leaf(i) && i
                    < final(self).leaf_count() && first_named(old(self).leaf_names(), name@, i as int),
            },
            final(self).leaf_count() == old(self).leaf_count(),
            final(self).container_count() == old(self).container_count(),
            final(self).inline_count() == old(self).inline_count(),
            final(self).warnings_view() == old(self).warnings_view(),
            !old(self).leaf_names().contains(name@) ==> (r matches BlockDispatch::PassThrough(t) && t@
                == literal_spec("::"@, name@, args)),
            forall|i: int|
                #[trigger] first_named(old(self).leaf_names(), name@, i) && old(self).leaf_processes_by_spec(i) ==> (
                r is PassThrough <==> old(self).leaf_skips(i, args)),
    {
        let syntax = args.to_syntax();
        let lit = literal("::", name, &syntax);
        let mut i: usize = 0;
        while i < self.leaf_handlers.len()
            invariant
                i <= self.leaf_handlers@.len(),
                self == old(self),
                forall|j: int| 0 <= j < i ==> self.leaf_names()[j] != name@,
            ensures
                i <= self.leaf_handlers@.len(),
                self == old(self),
                forall|j: int| 0 <= j < i ==> self.leaf_names()[j] != name@,
                i < self.leaf_handlers@.len() ==> self.leaf_names()[i as int] == name@,
            decreases self.leaf_handlers.len() - i,
        {
            if crate::text::str_eq(self.leaf_handlers[i].0.as_str(), name) {
                break;
            }
            i = i + 1;
        }
        if i >= self.leaf_handlers.len() {
            proof {
                if self.leaf_names().contains(name@) {
                    let j = choose|j: int| 0 <= j < self.leaf_names().len() && self.leaf_names()[j] == name@;
                    assert(false);
                }
            }
            return BlockDispatch::PassThrough(lit);
        }
        let ctx = self.config.create_context(0);
        let ghost a = args;
        let out = self.leaf_handlers[i].1.process(args, &ctx);
        proof {
            assert forall|k: int| #[trigger] first_named(old(self).leaf_names(), name@, k) implies k == i by {
                if k < i {
                } else if k > i {
                    assert(old(self).leaf_names()[i as int] == name@);
                }
            }
        }
        leaf_outcome(i, lit, out)
    }

    /// Dispatch an inline directive to the first handler named `name`;
    /// `Skip` when there is none.
    pub fn dispatch_inline_named(&mut self, name: &str, args: DirectiveArgs) -> (r: DirectiveOutput)
        ensures
            final(self).inline_count() == old(self).inline_count(),
            final(self).leaf_count() == old(self).leaf_count(),
            final(self).container_count() == old(self).container_count(),
            final(self).warnings_view() == old(self).warnings_view(),
            !old(self).inline_names().contains(name@) ==> r is Skip,
            forall|i: int|
                #[trigger] first_named(old(self).inline_names(), name@, i) && old(self).inline_processes_by_spec(i)
                    ==> (r is Skip <==> old(self).inline_skips(i, args)),
            old(self).inline_answer(name@, args) matches Some(h) ==> r matches DirectiveOutput::Html(x) && x@ == h,
    {
        let mut i: usize = 0;
        while i < self.inline_handlers.len()
            invariant
                i <= self.inline_handlers@.len(),
                self == old(self),
                forall|j: int| 0 <= j < i ==> self.inline_names()[j] != name@,
            ensures
                i <= self.inline_handlers@.len(),
                self == old(self),
                forall|j: int| 0 <= j < i ==> self.inline_names()[j] != name@,
                i < self.inline_handlers@.len() ==> self.inline_names()[i as int] == name@,
            decreases self.inline_handlers.len() - i,
        {
            if crate::text::str_eq(self.inline_handlers[i].0.as_str(), name) {
                break;
            }
            i = i + 1;
        }
        if i >= self.inline_handlers.len() {
            proof {
                if self.inline_names().contains(name@) {
                    let j = choose|j: int| 0 <= j < self.inline_names().len() && self.inline_names()[j] == name@;
                    assert(false);
                }
            }
            return DirectiveOutput::Skip;
        }
        let ctx = self.config.create_context(0);
        proof {
            assert forall|k: int| #[trigger] first_named(old(self).inline_names(), name@, k) implies k == i by {
                if k > i {
                    assert(old(self).inline_names()[i as int] == name@);
                }
            }
        }
        self.inline_handlers[i].1.process(args, &ctx)
    }

    /// Gather every leaf and container handler's fills, each under its own
    /// namespace (`Leaf(i)`, `Container(i)` for the handler at index `i`).
    /// A handler's fills are left out only when their total size would
    /// overflow a `usize`.
    pub fn collect_fills(&mut self) -> (r: GlobalFills<Source>)
        ensures
            r.wf(),
            final(self).warnings_view() == old(self).warnings_view(),
            forall|k: (Source, HoleKey)|
                #[trigger] r@.contains_key(k) ==> (k.0 matches Source::Leaf(i) && i < old(self).leaf_count()) || (
                k.0 matches Source::Container(i) && i < old(self).container_count()),
    {
        let mut collected: GlobalFills<Source> = GlobalFills::new();
        self.collect_fills_into(&mut collected);
        collected
    }

    /// Add every leaf and container handler's fills to `collected`, as
    /// `collect_fills` gathers them; what `collected` holds under any other
    /// namespace is kept as it was.
    #[verifier::spinoff_prover]
    #[verifier::rlimit(30)]
    pub fn collect_fills_into(&mut self, collected: &mut GlobalFills<Source>)
        requires
            old(collected).wf(),
        ensures
            final(collected).wf(),
            final(self).warnings_view() == old(self).warnings_view(),
            forall|k: (Source, HoleKey)|
                #[trigger] final(collected)@.contains_key(k) && !old(collected)@.contains_key(k) ==> (k.0 matches Source::Leaf(i)
                    && i < old(self).leaf_count()) || (k.0 matches Source::Container(i) && i < old(self).container_count()),
            kept_outside_handlers(old(collected)@, final(collected)@),
            final(self).leaf_count() == old(self).leaf_count(),
            final(self).container_count() == old(self).container_count(),
            old(self).handlers_warn_by_spec() ==> {
                &&& final(self).handlers_warn_by_spec()
                &&& final(self).leaf_warnings(final(self).leaf_count() as int) == old(self).leaf_warnings(
                    old(self).leaf_count() as int,
                )
                &&& final(self).container_warnings(final(self).container_count() as int) == old(
                    self,
                ).container_warnings(old(self).container_count() as int)
            },
    {
        let ghost c0 = collected@;
        let mut i: usize = 0;
        while i < self.leaf_handlers.len()
            invariant
                i <= self.leaf_handlers@.len(),
                collected.wf(),
                self.warnings_view() == old(self).warnings_view(),
                self.leaf_handlers@.len() == old(self).leaf_handlers@.len(),
                self.container_handlers@.len() == old(self).container_handlers@.len(),
                forall|k: (Source, HoleKey)|
                    #[trigger] collected@.contains_key(k) && !c0.contains_key(k) ==> (k.0 matches Source::Leaf(j) && j < i),
                kept_outside_handlers(c0, collected@),
                self.container_handlers == old(self).container_handlers,
                forall|j: int|
                    #![trigger self.leaf_handlers@[j]]
                    0 <= j < self.leaf_handlers@.len() && old(self).leaf_handlers@[j].1.warns_by_spec()
                        ==> self.leaf_handlers@[j].1.warns_by_spec()
                        && self.leaf_handlers@[j].1.warnings_spec() == old(self).leaf_handlers@[j].1.warnings_spec(),
            decreases self.leaf_handlers.len() - i,
        {
            let mut fills = Fills::new();
            let ghost before = self.leaf_handlers@;
            self.leaf_handlers[i].1.fills(&mut fills);
            assert(forall|j: int| 0 <= j < self.leaf_handlers@.len() && j != i ==> self.leaf_handlers@[j] == before[j]);
            assert(before[i as int].1.warns_by_spec() ==> self.leaf_handlers@[i as int].1.warns_by_spec());
            let ghost cb = collected@;
            let ghost fv = fills@;
            merge_checked(collected, Source::Leaf(i), fills);
            proof {
                assert forall|k: (Source, HoleKey)| !(k.0 is Leaf) && !(k.0 is Container) implies (
                #[trigger] collected@.contains_key(k) <==> c0.contains_key(k)) && (c0.contains_key(k) ==> collected@[k]
                    == c0[k]) by {
                    assert(cb.contains_key(k) <==> c0.contains_key(k));
                    assert(!crate::directive::fills::under(Source::Leaf(i), fv).contains_key(k));
                }
            }
            i = i + 1;
        }
        let mut i: usize = 0;
        while i < self.container_handlers.len()
            invariant
                i <= self.container_handlers@.len(),
                collected.wf(),
                self.warnings_view() == old(self).warnings_view(),
                self.leaf_handlers@.len() == old(self).leaf_handlers@.len(),
                self.container_handlers@.len() == old(self).container_handlers@.len(),
                forall|k: (Source, HoleKey)|
                    #[trigger] collected@.contains_key(k) && !c0.contains_key(k) ==> (k.0 matches Source::Leaf(j) && j
                        < old(self).leaf_handlers@.len()) || (k.0 matches Source::Container(j) && j < i),
                kept_outside_handlers(c0, collected@),
                forall|j: int|
                    #![trigger self.leaf_handlers@[j]]
                    0 <= j < self.leaf_handlers@.len() && old(self).leaf_handlers@[j].1.warns_by_spec()
                        ==> self.leaf_handlers@[j].1.warns_by_spec()
                        && self.leaf_handlers@[j].1.warnings_spec() == old(self).leaf_handlers@[j].1.warnings_spec(),
                forall|j: int|
                    #![trigger self.container_handlers@[j]]
                    0 <= j < self.container_handlers@.len() && old(self).container_handlers@[j].1.warns_by_spec()
                        ==> self.container_handlers@[j].1.warns_by_spec()
                        && self.container_handlers@[j].1.warnings_spec() == old(self).container_handlers@[j].1.warnings_spec(),
            decreases self.container_handlers.len() - i,
        {
            let mut fills = Fills::new();
            let ghost before = self.container_handlers@;
            self.container_handlers[i].1.fills(&mut fills);
            assert(forall|j: int| 0 <= j < self.container_handlers@.len() && j != i ==> self.container_handlers@[j] == before[j]);
            assert(before[i as int].1.warns_by_spec() ==> self.container_handlers@[i as int].1.warns_by_spec());
            let ghost cb = collected@;
            let ghost fv = fills@;
            merge_checked(collected, Source::Container(i), fills);
            proof {
                assert forall|k: (Source, HoleKey)| !(k.0 is Leaf) && !(k.0 is Container) implies (
                #[trigger] collected@.contains_key(k) <==> c0.contains_key(k)) && (c0.contains_key(k) ==> collected@[k]
                    == c0[k]) by {
                    assert(cb.contains_key(k) <==> c0.contains_key(k));
                    assert(!crate::directive::fills::under(Source::Container(i), fv).contains_key(k));
                }
            }
            i = i + 1;
        }
        proof {
            if old(self).handlers_warn_by_spec() {
                self.lemma_same_handler_warnings(old(self));
            }
        }
    }

    /// Handlers that keep their warnings give the same warnings.
    proof fn lemma_same_handler_warnings(&self, other: &Self)
        requires
            self.leaf_handlers@.len() == other.leaf_handlers@.len(),
            self.container_handlers@.len() == other.container_handlers@.len(),
            other.handlers_warn_by_spec(),
            forall|j: int|
                #![trigger self.leaf_handlers@[j]]
                0 <= j < self.leaf_handlers@.len() && other.leaf_handlers@[j].1.warns_by_spec()
                    ==> self.leaf_handlers@[j].1.warns_by_spec()
                    && self.leaf_handlers@[j].1.warnings_spec() == other.leaf_handlers@[j].1.warnings_spec(),
            forall|j: int|
                #![trigger self.container_handlers@[j]]
                0 <= j < self.container_handlers@.len() && other.container_handlers@[j].1.warns_by_spec()
                    ==> self.container_handlers@[j].1.warns_by_spec()
                    && self.container_handlers@[j].1.warnings_spec() == other.container_handlers@[j].1.warnings_spec(),
        ensures
            self.handlers_warn_by_spec(),
            self.leaf_warnings(self.leaf_count() as int) == other.leaf_warnings(other.leaf_count() as int),
            self.container_warnings(self.container_count() as int) == other.container_warnings(
                other.container_count() as int,
            ),
    {
        assert forall|j: int| 0 <= j < self.leaf_handlers@.len() implies #[trigger] self.leaf_handlers@[j].1.warns_by_spec() by {
            assert(other.leaf_handlers@[j].1.warns_by_spec());
        }
        assert forall|j: int| 0 <= j < self.container_handlers@.len() implies #[trigger] self.container_handlers@[j].1.warns_by_spec() by {
            assert(other.container_handlers@[j].1.warns_by_spec());
        }
        self.lemma_same_leaf_warnings(other, self.leaf_handlers@.len() as int);
        self.lemma_same_container_warnings(other, self.container_handlers@.len() as int);
    }

    proof fn lemma_same_leaf_warnings(&self, other: &Self, n: int)
        requires
            0 <= n <= self.leaf_handlers@.len(),
            self.leaf_handlers@.len() == other.leaf_handlers@.len(),
            other.handlers_warn_by_spec(),
            forall|j: int|
                #![trigger self.leaf_handlers@[j]]
                0 <= j < self.leaf_handlers@.len() && other.leaf_handlers@[j].1.warns_by_spec()
                    ==> self.leaf_handlers@[j].1.warns_by_spec()
                    && self.leaf_handlers@[j].1.warnings_spec() == other.leaf_handlers@[j].1.warnings_spec(),
        ensures
            self.leaf_warnings(n) == other.leaf_warnings(n),
        decreases n,
    {
        if n > 0 {
            self.lemma_same_leaf_warnings(other, n - 1);
            assert(other.leaf_handlers@[n - 1].1.warns_by_spec());
            assert(self.leaf_handlers@[n - 1].1.warns_by_spec());
            assert(self.leaf_handlers@[n - 1].1.warnings_spec() == other.leaf_handlers@[n - 1].1.warnings_spec());
        }
    }

    proof fn lemma_same_container_warnings(&self, other: &Self, n: int)
        requires
            0 <= n <= self.container_handlers@.len(),
            self.container_handlers@.len() == other.container_handlers@.len(),
            other.handlers_warn_by_spec(),
            forall|j: int|
                #![trigger self.container_handlers@[j]]
                0 <= j < self.container_handlers@.len() && other.container_handlers@[j].1.warns_by_spec()
                    ==> self.container_handlers@[j].1.warns_by_spec()
                    && self.container_handlers@[j].1.warnings_spec() == other.container_handlers@[j].1.warnings_spec(),
        ensures
            self.container_warnings(n) == other.container_warnings(n),
        decreases n,
    {
        if n > 0 {
            self.lemma_same_container_warnings(other, n - 1);
            assert(other.container_handlers@[n - 1].1.warns_by_spec());
            assert(self.container_handlers@[n - 1].1.warns_by_spec());
            assert(self.container_handlers@[n - 1].1.warnings_spec() == other.container_handlers@[n - 1].1.warnings_spec());
        }
    }

    /// Record a warning.
    pub fn push_warning(&mut self, msg: String)
        ensures
            final(self).warnings_view() == old(self).warnings_view().push(msg@),
            final(self).inline_count() == old(self).inline_count(),
            final(self).leaf_count() == old(self).leaf_count(),
            final(self).container_count() == old(self).container_count(),
    {
        self.warn(msg);
    }

    /// Whether every leaf and container handler answers `warnings` by its
    /// specification.
    pub closed spec fn handlers_warn_by_spec(&self) -> bool {
        &&& forall|j: int| 0 <= j < self.leaf_handlers@.len() ==> #[trigger] self.leaf_handlers@[j].1.warns_by_spec()
        &&& forall|j: int| 0 <= j < self.container_handlers@.len() ==> #[trigger] self.container_handlers@[j].1.warns_by_spec()
    }

    /// The warnings of the first `n` leaf handlers, in order.
    pub closed spec fn leaf_warnings(&self, n: int) -> Seq<Seq<char>>
        decreases n,
    {
        if n <= 0 {
            Seq::empty()
        } else {
            self.leaf_warnings(n - 1) + self.leaf_handlers@[n - 1].1.warnings_spec()
        }
    }

    /// The warnings of the first `n` container handlers, in order.
    pub closed spec fn container_warnings(&self, n: int) -> Seq<Seq<char>>
        decreases n,
    {
        if n <= 0 {
            Seq::empty()
        } else {
            self.container_warnings(n - 1) + self.container_handlers@[n - 1].1.warnings_spec()
        }
    }

    /// The processor's own warnings, then each leaf handler's, then each
    /// container handler's.
    pub fn warnings(&self) -> (r: Vec<String>)
        ensures
            r@.len() >= self.warnings_view().len(),
            r@.map_values(|w: String| w@).take(self.warnings_view().len() as int) == self.warnings_view(),
            self.handlers_warn_by_spec() ==> r@.map_values(|w: String| w@) == self.warnings_view() + self.leaf_warnings(
                self.leaf_count() as int,
            ) + self.container_warnings(self.container_count() as int),
    {
        let mut all: Vec<String> = Vec::new();
        let mut i: usize = 0;
        while i < self.warnings.len()
            invariant
                i <= self.warnings@.len(),
                all@.map_values(|w: String| w@) == self.warnings_view().take(i as int),
            decreases self.warnings.len() - i,
        {
            let ghost before = all@.map_values(|w: String| w@);
            all.push(self.warnings[i].clone());
            assert(all@.map_values(|w: String| w@) =~= before.push(self.warnings_view()[i as int]));
            assert(self.warnings_view().take(i + 1) =~= self.warnings_view().take(i as int).push(
                self.warnings_view()[i as int],
            ));
            i = i + 1;
        }
        let ghost own = all@.map_values(|w: String| w@);
        assert(self.warnings_view().take(self.warnings@.len() as int) =~= self.warnings_view());
        assert(own.take(own.len() as int) =~= own);
        assert(own + self.leaf_warnings(0) =~= own);
        let mut h: usize = 0;
        while h < self.leaf_handlers.len()
            invariant
                h <= self.leaf_handlers@.len(),
                all@.map_values(|w: String| w@).take(own.len() as int) == own,
                all@.len() >= own.len(),
                own == self.warnings_view(),
                self.handlers_warn_by_spec() ==> all@.map_values(|w: String| w@) == own + self.leaf_warnings(h as int),
            decreases self.leaf_handlers.len() - h,
        {
            let ws = self.leaf_handlers[h].1.warnings();
            let ghost start = all@.map_values(|w: String| w@);
            let mut k: usize = 0;
            while k < ws.len()
                invariant
                    k <= ws@.len(),
                    all@.map_values(|w: String| w@).take(own.len() as int) == own,
                    all@.len() >= own.len(),
                    all@.map_values(|w: String| w@) == start + ws@.map_values(|w: String| w@).take(k as int),
                decreases ws.len() - k,
            {
                let ghost before = all@.map_values(|w: String| w@);
                all.push(ws[k].clone());
                assert(all@.map_values(|w: String| w@).take(own.len() as int) =~= before.take(own.len() as int));
                assert(all@.map_values(|w: String| w@) =~= before.push(ws@[k as int]@));
                assert(ws@.map_values(|w: String| w@).take(k + 1) =~= ws@.map_values(|w: String| w@).take(k as int).push(ws@[k as int]@));
                assert(all@.map_values(|w: String| w@) =~= start + ws@.map_values(|w: String| w@).take(k + 1));
                k = k + 1;
            }
            proof {
                assert(ws@.map_values(|w: String| w@).take(ws@.len() as int) =~= ws@.map_values(|w: String| w@));
                if self.handlers_warn_by_spec() {
                    assert(self.leaf_handlers@[h as int].1.warns_by_spec());
                    assert(own + self.leaf_warnings(h + 1) =~= own + self.leaf_warnings(h as int)
                        + self.leaf_handlers@[h as int].1.warnings_spec());
                }
            }
            h = h + 1;
        }
        let ghost mid = all@.map_values(|w: String| w@);
        assert(mid + self.container_warnings(0) =~= mid);
        let mut h: usize = 0;
        while h < self.container_handlers.len()
            invariant
                h <= self.container_handlers@.len(),
                all@.map_values(|w: String| w@).take(own.len() as int) == own,
                all@.len() >= own.len(),
                own == self.warnings_view(),
                self.handlers_warn_by_spec() ==> mid == own + self.leaf_warnings(self.leaf_handlers@.len() as int),
                self.handlers_warn_by_spec() ==> all@.map_values(|w: String| w@) == mid + self.container_warnings(h as int),
            decreases self.container_handlers.len() - h,
        {
            let ws = self.container_handlers[h].1.warnings();
            let ghost start = all@.map_values(|w: String| w@);
            let mut k: usize = 0;
            while k < ws.len()
                invariant
                    k <= ws@.len(),
                    all@.map_values(|w: String| w@).take(own.len() as int) == own,
                    all@.len() >= own.len(),
                    all@.map_values(|w: String| w@) == start + ws@.map_values(|w: String| w@).take(k as int),
                decreases ws.len() - k,
            {
                let ghost before = all@.map_values(|w: String| w@);
                all.push(ws[k].clone());
                assert(all@.map_values(|w: String| w@).take(own.len() as int) =~= before.take(own.len() as int));
                assert(all@.map_values(|w: String| w@) =~= before.push(ws@[k as int]@));
                assert(ws@.map_values(|w: String| w@).take(k + 1) =~= ws@.map_values(|w: String| w@).take(k as int).push(ws@[k as int]@));
                assert(all@.map_values(|w: String| w@) =~= start + ws@.map_values(|w: String| w@).take(k + 1));
                k = k + 1;
            }
            proof {
                assert(ws@.map_values(|w: String| w@).take(ws@.len() as int) =~= ws@.map_values(|w: String| w@));
                if self.handlers_warn_by_spec() {
                    assert(self.container_handlers@[h as int].1.warns_by_spec());
                    assert(mid + self.container_warnings(h + 1) =~= mid + self.container_warnings(h as int)
                        + self.container_handlers@[h as int].1.warnings_spec());
                }
            }
            h = h + 1;
        }
        all
    }
}


impl Default for DirectiveProcessorConfig {
    fn default() -> (r: Self)
        ensures
            r.base_dir@ == seq!['.'],
            r.source_path is None,
            r.read_file is None,
    {
        DirectiveProcessorConfig::new()
    }
}

impl Default for DirectiveProcessor {
    fn default() -> (r: Self)
        ensures
            r.inline_count() == 0,
            r.leaf_count() == 0,
            r.container_count() == 0,
            r.warnings_view() == Seq::<Seq<char>>::empty(),
    {
        DirectiveProcessor::new()
    }
}

} // verus!
