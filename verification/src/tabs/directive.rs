//! Tabs as a container directive: `::::tabs` groups of `:::tab[Label]`
//! items. A group's tab bar needs every label of the group, so opening a
//! group reserves a hole for the bar, and the bar is supplied as that hole's
//! fill once the walk is over.

use vstd::prelude::*;
use crate::directive::args::DirectiveArgs;
use crate::directive::container::ContainerDirective;
use crate::directive::context::DirectiveContext;
use crate::directive::fills::{Fills, HoleKey, Part};
use crate::directive::output::DirectiveOutput;
use crate::tabs::preprocessor::{strip_quotes, strip_quotes_spec, TabModel};
use crate::tabs::processor::buttons_spec;
use crate::text::{decimal, push_decimal, push_str};

verus! {

/// One tab of a group.
struct TabEntry {
    id: usize,
    label: String,
}

/// A group: its id, its tabs, and the hole reserved for its bar.
struct Group {
    id: usize,
    tabs: Vec<TabEntry>,
    bar_hole: HoleKey,
}

/// What an open container of this directive is.
#[derive(Clone, Copy)]
pub enum Scope {
    /// A `::::tabs` group.
    Group,
    /// A `:::tab` item inside a group.
    Item,
    /// A `:::tab` item outside any group, or one that could not be numbered:
    /// rendered without chrome.
    LoneItem,
}

/// A group as (id, tabs, bar hole).
pub type GroupSpec = (nat, Seq<TabModel>, HoleKey);

spec fn entry_model(t: TabEntry) -> TabModel {
    (t.id as nat, t.label@, 0)
}

spec fn group_spec(g: Group) -> GroupSpec {
    (g.id as nat, g.tabs@.map_values(|t: TabEntry| entry_model(t)), g.bar_hole)
}

/// The tab bar of group `g`: the tabs container opener and one button per
/// tab.
pub open spec fn bar_spec(g: GroupSpec) -> Seq<char> {
    "<div class=\"tabs\" id=\"tabs-"@ + decimal(g.0) + "\">"@ + "<div class=\"tabs-buttons\" role=\"tablist\">"@
        + buttons_spec(g.0, g.1, g.1.len() as int) + "</div>"@
}

/// Tab groups built from `::::tabs` / `:::tab` containers.
pub struct TabsDirective {
    groups: Vec<Group>,
    open: Vec<Group>,
    next_group_id: usize,
    next_tab_id: usize,
    next_hole_key: HoleKey,
    scope_stack: Vec<Scope>,
    warnings: Vec<String>,
}

impl TabsDirective {
    /// The closed groups, in the order they closed.
    pub closed spec fn closed_groups(&self) -> Seq<GroupSpec> {
        self.groups@.map_values(|g: Group| group_spec(g))
    }

    /// The groups still open, innermost last.
    pub closed spec fn open_groups(&self) -> Seq<GroupSpec> {
        self.open@.map_values(|g: Group| group_spec(g))
    }

    pub closed spec fn warnings_view(&self) -> Seq<Seq<char>> {
        self.warnings@.map_values(|w: String| w@)
    }

    /// The hole key the next group's bar gets.
    pub closed spec fn next_hole_view(&self) -> HoleKey {
        self.next_hole_key
    }

    /// The id the next group gets.
    pub closed spec fn next_group_view(&self) -> nat {
        self.next_group_id as nat
    }

    /// The id the next tab gets.
    pub closed spec fn next_tab_view(&self) -> nat {
        self.next_tab_id as nat
    }

    /// Every group's bar hole, closed groups first.
    pub open spec fn holes(&self) -> Seq<HoleKey> {
        (self.closed_groups() + self.open_groups()).map_values(|g: GroupSpec| g.2)
    }

    /// Bar holes are distinct: each is below the next key to hand out and
    /// they increase in the order groups opened.
    pub closed spec fn wf(&self) -> bool {
        &&& forall|i: int, j: int|
            0 <= i < j < self.holes().len() ==> #[trigger] self.holes()[i] != #[trigger] self.holes()[j]
        &&& forall|i: int| 0 <= i < self.holes().len() ==> #[trigger] self.holes()[i] < self.next_hole_key
    }

    /// No groups, nothing open.
    pub fn new() -> (r: Self)
        ensures
            r.closed_groups() == Seq::<GroupSpec>::empty(),
            r.open_groups() == Seq::<GroupSpec>::empty(),
            r.warnings_view() == Seq::<Seq<char>>::empty(),
            r.wf(),
            r.next_group_view() == 0,
            r.next_hole_view() == 0,
            r.next_tab_view() == 0,
            r.scopes() == Seq::<Scope>::empty(),
    {
        let r = TabsDirective {
            groups: Vec::new(),
            open: Vec::new(),
            next_group_id: 0,
            next_tab_id: 0,
            next_hole_key: 0,
            scope_stack: Vec::new(),
            warnings: Vec::new(),
        };
        assert(r.closed_groups() =~= Seq::<GroupSpec>::empty());
        assert(r.open_groups() =~= Seq::<GroupSpec>::empty());
        assert(r.warnings_view() =~= Seq::<Seq<char>>::empty());
        assert(r.holes() =~= Seq::<HoleKey>::empty());
        r
    }

    fn warn(&mut self, w: &str)
        ensures
            final(self).warnings_view() == old(self).warnings_view().push(w@),
            final(self).groups@ == old(self).groups@,
            final(self).open@ == old(self).open@,
            final(self).next_hole_key == old(self).next_hole_key,
            final(self).next_group_id == old(self).next_group_id,
            final(self).next_tab_id == old(self).next_tab_id,
            final(self).scope_stack@ == old(self).scope_stack@,
    {
        self.warnings.push(w.to_owned());
        assert(self.warnings_view() =~= old(self).warnings_view().push(w@));
    }

    /// Open a group: reserve a hole for its bar.
    fn open_group(&mut self) -> (r: DirectiveOutput)
        ensures
            old(self).wf() ==> final(self).wf(),
            opened_group(old(self), final(self), r),
            forall|h: HoleKey| old(self).holes().contains(h) ==> #[trigger] final(self).holes().contains(h),
    {
        if self.next_group_id == usize::MAX || self.next_hole_key == u32::MAX {
            self.warn("too many `::::tabs` groups; this one is rendered without tab chrome");
            self.scope_stack.push(Scope::LoneItem);
            assert(self.closed_groups() == old(self).closed_groups());
            assert(self.open_groups() == old(self).open_groups());
            assert(self.holes() == old(self).holes());
            assert(self.warnings_view().take(old(self).warnings_view().len() as int) =~= old(self).warnings_view());
            assert(self.scopes() =~= old(self).scopes().push(Scope::LoneItem));
            let empty = String::new();
            assert(empty@.len() == 0);
            return DirectiveOutput::Html(empty);
        }
        let id = self.next_group_id;
        self.next_group_id = self.next_group_id + 1;
        let bar_hole = self.next_hole_key;
        self.next_hole_key = self.next_hole_key + 1;
        let ghost before = self.open_groups();
        self.open.push(Group { id, tabs: Vec::new(), bar_hole });
        proof {
            let g = group_spec(self.open@.last());
            assert(g.1 =~= Seq::<TabModel>::empty());
            assert(self.open_groups() =~= before.push(g));
            assert(self.holes() =~= old(self).holes().push(bar_hole));
            assert forall|h: HoleKey| old(self).holes().contains(h) implies #[trigger] self.holes().contains(h) by {
                let j = choose|j: int| 0 <= j < old(self).holes().len() && old(self).holes()[j] == h;
                assert(self.holes()[j] == h);
            }
        }
        self.scope_stack.push(Scope::Group);
        assert(self.scopes() =~= old(self).scopes().push(Scope::Group));
        let mut parts: Vec<Part> = Vec::new();
        parts.push(Part::Hole(bar_hole));
        assert(parts@ =~= seq![Part::Hole(bar_hole)]);
        DirectiveOutput::Deferred(parts)
    }

    /// Open an item: a tab of the innermost open group, or a lone item.
    fn open_item(&mut self, args: &DirectiveArgs) -> (r: DirectiveOutput)
        ensures
            old(self).wf() ==> final(self).wf(),
            opened_item(old(self), final(self), args.content@, r),
            forall|h: HoleKey| old(self).holes().contains(h) ==> #[trigger] final(self).holes().contains(h),
    {
        let label = if args.content.as_str().is_empty() {
            proof {
                reveal_strlit("Tab");
            }
            "Tab".to_owned()
        } else {
            strip_quotes(args.content.as_str())
        };
        assert(label@ == tab_label_spec(args.content@));
        let n = self.open.len();
        if n == 0 {
            self.warn("`:::tab` outside a `::::tabs` group; its content is rendered without tab chrome");
            self.scope_stack.push(Scope::LoneItem);
            assert(self.closed_groups() == old(self).closed_groups());
            assert(self.open_groups() == old(self).open_groups());
            assert(self.holes() == old(self).holes());
            assert(self.warnings_view().take(old(self).warnings_view().len() as int) =~= old(self).warnings_view());
            assert(self.scopes() =~= old(self).scopes().push(Scope::LoneItem));
            let empty = String::new();
            assert(empty@.len() == 0);
            return DirectiveOutput::Html(empty);
        }
        if self.next_tab_id == usize::MAX {
            self.warn("too many `:::tab` items; this one is rendered without tab chrome");
            self.scope_stack.push(Scope::LoneItem);
            assert(self.closed_groups() == old(self).closed_groups());
            assert(self.open_groups() == old(self).open_groups());
            assert(self.holes() == old(self).holes());
            assert(self.warnings_view().take(old(self).warnings_view().len() as int) =~= old(self).warnings_view());
            assert(self.scopes() =~= old(self).scopes().push(Scope::LoneItem));
            let empty = String::new();
            assert(empty@.len() == 0);
            return DirectiveOutput::Html(empty);
        }
        let tab_id = self.next_tab_id;
        self.next_tab_id = self.next_tab_id + 1;
        let mut g = self.open.pop().unwrap();
        let is_first = g.tabs.len() == 0;
        let group_id = g.id;
        g.tabs.push(TabEntry { id: tab_id, label });
        let ghost gs = group_spec(g);
        proof {
            let og = old(self).open_groups().last();
            assert(og == group_spec(old(self).open@.last()));
            assert(gs.1 =~= og.1.push((tab_id as nat, tab_label_spec(args.content@), 0nat)));
        }
        self.open.push(g);
        proof {
            assert(self.open_groups() =~= old(self).open_groups().drop_last().push(gs));
            assert(self.holes() =~= old(self).holes());
        }
        self.scope_stack.push(Scope::Item);
        assert(self.scopes() =~= old(self).scopes().push(Scope::Item));
        let mut out = String::new();
        push_panel_open(&mut out, group_id, tab_id, is_first);
        DirectiveOutput::Html(out)
    }
}

/// Moving the innermost open group to the closed ones keeps bar holes
/// distinct and below the next key.
proof fn lemma_move_keeps_wf(a: &TabsDirective, b: &TabsDirective)
    requires
        a.open_groups().len() > 0,
        b.closed_groups() == a.closed_groups().push(a.open_groups().last()),
        a.open_groups() == b.open_groups().push(a.open_groups().last()),
        b.next_hole_key == a.next_hole_key,
    ensures
        a.wf() ==> b.wf(),
        forall|h: HoleKey| a.holes().contains(h) ==> #[trigger] b.holes().contains(h),
{
    let c = a.closed_groups().len() as int;
    let n = a.holes().len() as int;
    assert(b.holes().len() == n);
    assert forall|h: HoleKey| a.holes().contains(h) implies #[trigger] b.holes().contains(h) by {
        let j = choose|j: int| 0 <= j < n && a.holes()[j] == h;
        let i = if j < c {
            j
        } else if j == n - 1 {
            c
        } else {
            j + 1
        };
        if j < c {
            assert(b.holes()[i] == b.closed_groups()[i].2);
            assert(a.holes()[j] == a.closed_groups()[j].2);
        } else if j == n - 1 {
            assert(b.holes()[i] == b.closed_groups()[c].2);
            assert(a.holes()[n - 1] == a.open_groups().last().2);
        } else {
            assert(b.holes()[i] == b.open_groups()[i - c - 1].2);
            assert(a.holes()[j] == a.open_groups()[j - c].2);
        }
        assert(b.holes()[i] == h);
    }
    if a.wf() {
        let c = a.closed_groups().len() as int;
        let n = a.holes().len() as int;
        assert(b.holes().len() == n);
        assert forall|i: int| 0 <= i < n implies #[trigger] b.holes()[i] == a.holes()[if i < c {
            i
        } else if i == c {
            n - 1
        } else {
            i - 1
        }] by {
            if i < c {
                assert(b.holes()[i] == b.closed_groups()[i].2);
                assert(a.holes()[i] == a.closed_groups()[i].2);
            } else if i == c {
                assert(b.holes()[i] == b.closed_groups()[c].2);
                assert(a.holes()[n - 1] == a.open_groups().last().2);
            } else {
                assert(b.holes()[i] == b.open_groups()[i - c - 1].2);
                assert(a.holes()[i - 1] == a.open_groups()[i - 1 - c].2);
            }
        }
        assert forall|i: int, j: int| 0 <= i < j < n implies #[trigger] b.holes()[i] != #[trigger] b.holes()[j] by {
            let fi = if i < c {
                i
            } else if i == c {
                n - 1
            } else {
                i - 1
            };
            let fj = if j < c {
                j
            } else if j == c {
                n - 1
            } else {
                j - 1
            };
            assert(b.holes()[i] == a.holes()[fi]);
            assert(b.holes()[j] == a.holes()[fj]);
            if fi < fj {
                assert(a.holes()[fi] != a.holes()[fj]);
            } else {
                assert(a.holes()[fj] != a.holes()[fi]);
            }
        }
        assert forall|i: int| 0 <= i < n implies #[trigger] b.holes()[i] < b.next_hole_key by {
            let fi = if i < c {
                i
            } else if i == c {
                n - 1
            } else {
                i - 1
            };
            assert(b.holes()[i] == a.holes()[fi]);
        }
    }
}

/// The opening tag of a tab panel (everything but the first is hidden).
pub open spec fn panel_open_spec(gid: nat, tid: nat, first: bool) -> Seq<char> {
    "<div role=\"tabpanel\" id=\"panel-"@ + decimal(gid) + "-"@ + decimal(tid) + "\" aria-labelledby=\"tab-"@
        + decimal(gid) + "-"@ + decimal(tid) + "\""@ + (if first {
        ""@
    } else {
        " hidden"@
    }) + ">"@
}

/// The label of a tab item: its content without surrounding quotes, or
/// `Tab` when there is none.
pub open spec fn tab_label_spec(content: Seq<char>) -> Seq<char> {
    if content.len() == 0 {
        "Tab"@
    } else {
        strip_quotes_spec(content)
    }
}

/// What opening a group does: with ids left, a new open group with the next
/// id, no tabs and the next hole key, whose bar hole is the output; without,
/// a warning, an empty output and a chrome-less scope.
pub open spec fn opened_group(a: &TabsDirective, b: &TabsDirective, r: DirectiveOutput) -> bool {
    &&& b.closed_groups() == a.closed_groups()
    &&& if a.next_group_view() < usize::MAX && a.next_hole_view() < u32::MAX {
        &&& r matches DirectiveOutput::Deferred(parts) && parts@ == seq![Part::Hole(a.next_hole_view())]
        &&& b.open_groups() == a.open_groups().push((a.next_group_view(), Seq::empty(), a.next_hole_view()))
        &&& b.next_group_view() == a.next_group_view() + 1
        &&& b.next_hole_view() == a.next_hole_view() + 1
        &&& b.next_tab_view() == a.next_tab_view()
        &&& b.warnings_view() == a.warnings_view()
        &&& b.scopes() == a.scopes().push(Scope::Group)
    } else {
        &&& r matches DirectiveOutput::Html(h) && h@.len() == 0
        &&& b.open_groups() == a.open_groups()
        &&& b.warnings_view().len() == a.warnings_view().len() + 1
        &&& b.warnings_view().take(a.warnings_view().len() as int) == a.warnings_view()
        &&& b.scopes() == a.scopes().push(Scope::LoneItem)
    }
}

/// What opening an item does: inside a group, with ids left, the next tab
/// joins the innermost group and its panel opens; otherwise a warning, an
/// empty output and a chrome-less scope.
pub open spec fn opened_item(a: &TabsDirective, b: &TabsDirective, content: Seq<char>, r: DirectiveOutput) -> bool {
    &&& b.closed_groups() == a.closed_groups()
    &&& if a.open_groups().len() > 0 && a.next_tab_view() < usize::MAX {
        let g = a.open_groups().last();
        &&& r matches DirectiveOutput::Html(h) && h@ == panel_open_spec(g.0, a.next_tab_view(), g.1.len() == 0)
        &&& b.open_groups() == a.open_groups().drop_last().push(
            (g.0, g.1.push((a.next_tab_view(), tab_label_spec(content), 0)), g.2),
        )
        &&& b.next_tab_view() == a.next_tab_view() + 1
        &&& b.next_group_view() == a.next_group_view()
        &&& b.next_hole_view() == a.next_hole_view()
        &&& b.warnings_view() == a.warnings_view()
        &&& b.scopes() == a.scopes().push(Scope::Item)
    } else {
        &&& r matches DirectiveOutput::Html(h) && h@.len() == 0
        &&& b.open_groups() == a.open_groups()
        &&& b.warnings_view().len() == a.warnings_view().len() + 1
        &&& b.warnings_view().take(a.warnings_view().len() as int) == a.warnings_view()
        &&& b.scopes() == a.scopes().push(Scope::LoneItem)
    }
}

/// What closing the innermost scope does. With no scope open, nothing. An
/// item emits `</div>`. A group emits `</div>` and, when a group is open,
/// moves the innermost open group to the closed ones, with a warning when it
/// has no tabs. A chrome-less scope emits nothing.
pub open spec fn closed_scope(a: &TabsDirective, b: &TabsDirective, r: Option<String>) -> bool {
    &&& b.next_group_view() == a.next_group_view()
    &&& b.next_hole_view() == a.next_hole_view()
    &&& b.next_tab_view() == a.next_tab_view()
    &&& if a.scopes().len() == 0 {
        &&& r is None
        &&& b.scopes() == a.scopes()
        &&& b.closed_groups() == a.closed_groups()
        &&& b.open_groups() == a.open_groups()
        &&& b.warnings_view() == a.warnings_view()
    } else {
        &&& b.scopes() == a.scopes().drop_last()
        &&& match a.scopes().last() {
            Scope::Item => {
                &&& r matches Some(t) && t@ == "</div>"@
                &&& b.closed_groups() == a.closed_groups()
                &&& b.open_groups() == a.open_groups()
                &&& b.warnings_view() == a.warnings_view()
            },
            Scope::Group => {
                &&& r matches Some(t) && t@ == "</div>"@
                &&& if a.open_groups().len() > 0 {
                    &&& b.closed_groups() == a.closed_groups().push(a.open_groups().last())
                    &&& b.open_groups() == a.open_groups().drop_last()
                    &&& b.warnings_view().take(a.warnings_view().len() as int) == a.warnings_view()
                    &&& b.warnings_view().len() == a.warnings_view().len() + (if a.open_groups().last().1.len()
                        == 0 {
                        1int
                    } else {
                        0int
                    })
                } else {
                    &&& b.closed_groups() == a.closed_groups()
                    &&& b.open_groups() == a.open_groups()
                    &&& b.warnings_view() == a.warnings_view()
                }
            },
            Scope::LoneItem => {
                &&& r is None
                &&& b.closed_groups() == a.closed_groups()
                &&& b.open_groups() == a.open_groups()
                &&& b.warnings_view() == a.warnings_view()
            },
        }
    }
}

/// Appends the opening tag of a tab panel.
fn push_panel_open(out: &mut String, gid: usize, tid: usize, first: bool)
    ensures
        final(out)@ == old(out)@ + panel_open_spec(gid as nat, tid as nat, first),
{
    push_str(out, "<div role=\"tabpanel\" id=\"panel-");
    push_decimal(out, gid);
    push_str(out, "-");
    push_decimal(out, tid);
    push_str(out, "\" aria-labelledby=\"tab-");
    push_decimal(out, gid);
    push_str(out, "-");
    push_decimal(out, tid);
    push_str(out, "\"");
    if first {
        push_str(out, "");
    } else {
        push_str(out, " hidden");
    }
    push_str(out, ">");
}


impl TabsDirective {
    /// The open scopes, innermost last.
    pub closed spec fn scopes(&self) -> Seq<Scope> {
        self.scope_stack@
    }

    /// The tab bar of a group.
    fn render_bar(g: &Group) -> (r: String)
        ensures
            r@ == bar_spec(group_spec(*g)),
    {
        let mut out = String::new();
        push_str(&mut out, "<div class=\"tabs\" id=\"tabs-");
        push_decimal(&mut out, g.id);
        push_str(&mut out, "\">");
        push_str(&mut out, "<div class=\"tabs-buttons\" role=\"tablist\">");
        let ghost head = out@;
        let ghost tabs = group_spec(*g).1;
        let mut k: usize = 0;
        while k < g.tabs.len()
            invariant
                k <= g.tabs@.len(),
                tabs == group_spec(*g).1,
                out@ == head + buttons_spec(g.id as nat, tabs, k as int),
            decreases g.tabs.len() - k,
        {
            let t = &g.tabs[k];
            assert(tabs[k as int] == (t.id as nat, t.label@, 0nat));
            crate::tabs::processor::push_button(&mut out, g.id, t.id, t.label.as_str(), k == 0);
            assert(out@ =~= head + buttons_spec(g.id as nat, tabs, k + 1));
            k = k + 1;
        }
        push_str(&mut out, "</div>");
        assert(out@ =~= bar_spec(group_spec(*g)));
        out
    }
}

impl ContainerDirective for TabsDirective {
    open spec fn matches_by_spec(&self) -> bool {
        true
    }

    open spec fn answers_to(&self, name: Seq<char>) -> bool {
        name == "tabs"@ || name == "tab"@
    }

    open spec fn warns_by_spec(&self) -> bool {
        true
    }

    open spec fn starts_by_spec(&self) -> bool {
        true
    }

    open spec fn warnings_spec(&self) -> Seq<Seq<char>> {
        self.warnings_view()
    }

    fn name(&self) -> (r: &str)
        ensures
            r@ == "tabs"@,
    {
        "tabs"
    }

    /// Answers to `tabs` (a group) and `tab` (an item).
    fn matches(&self, name: &str) -> (r: bool)
        ensures
            r == (name@ == "tabs"@ || name@ == "tab"@),
    {
        crate::text::str_eq(name, "tabs") || crate::text::str_eq(name, "tab")
    }

    /// A bare `start` opens a group.
    fn start(&mut self, args: DirectiveArgs, ctx: &DirectiveContext) -> (r: DirectiveOutput)
        ensures
            old(self).wf() ==> final(self).wf(),
            opened_group(old(self), final(self), r),
            forall|h: HoleKey| old(self).holes().contains(h) ==> #[trigger] final(self).holes().contains(h),
    {
        self.open_group()
    }

    /// `tabs` opens a group; anything else opens an item.
    fn start_named(&mut self, name: &str, args: DirectiveArgs, ctx: &DirectiveContext) -> (r: DirectiveOutput)
        ensures
            old(self).wf() ==> final(self).wf(),
            name@ == "tabs"@ ==> opened_group(old(self), final(self), r),
            name@ != "tabs"@ ==> opened_item(old(self), final(self), args.content@, r),
            forall|h: HoleKey| old(self).holes().contains(h) ==> #[trigger] final(self).holes().contains(h),
    {
        if crate::text::str_eq(name, "tabs") {
            self.open_group()
        } else {
            self.open_item(&args)
        }
    }

    /// Close the innermost scope: an item or a group closes its `<div>` (a
    /// group moves to the closed groups, with a warning when it has no
    /// items); a lone item emits nothing.
    fn end(&mut self, line: usize) -> (r: Option<String>)
        ensures
            old(self).wf() ==> final(self).wf(),
            closed_scope(old(self), final(self), r),
            forall|h: HoleKey| old(self).holes().contains(h) ==> #[trigger] final(self).holes().contains(h),
    {
        match self.scope_stack.pop() {
            Some(Scope::Item) => {
                assert(self.holes() == old(self).holes());
                proof {
                    reveal_strlit("</div>");
                }
                Some("</div>".to_owned())
            },
            Some(Scope::Group) => {
                match self.open.pop() {
                    Some(g) => {
                        let ghost gs = group_spec(g);
                        assert(gs == old(self).open_groups().last());
                        if g.tabs.len() == 0 {
                            self.warn("`::::tabs` group has no `:::tab` items");
                        }
                        assert(self.warnings_view().take(old(self).warnings_view().len() as int)
                            =~= old(self).warnings_view());
                        let ghost before = self.closed_groups();
                        self.groups.push(g);
                        proof {
                            assert(self.closed_groups() =~= before.push(gs));
                            assert(old(self).open_groups() =~= self.open_groups().push(gs));
                            assert(self.open_groups() =~= old(self).open_groups().drop_last());
                            lemma_move_keeps_wf(old(self), self);
                        }
                    },
                    None => {
                        assert(self.holes() == old(self).holes());
                    },
                }
                proof {
                    reveal_strlit("</div>");
                }
                Some("</div>".to_owned())
            },
            _ => {
                assert(self.holes() == old(self).holes());
                None
            },
        }
    }

    /// Fill each closed group's bar hole with its tab bar.
    fn fills(&mut self, fills: &mut Fills)
        ensures
            forall|i: int|
                0 <= i < old(self).closed_groups().len() && old(self).wf() ==> final(fills)@.contains_key(
                    #[trigger] old(self).closed_groups()[i].2,
                ) && final(fills)@[old(self).closed_groups()[i].2] == bar_spec(old(self).closed_groups()[i]),
    {
        let ghost cg = self.closed_groups();
        let mut k: usize = 0;
        while k < self.groups.len()
            invariant
                k <= self.groups@.len(),
                cg == self.closed_groups(),
                self.wf() ==> forall|i: int|
                    0 <= i < k ==> fills@.contains_key(#[trigger] cg[i].2) && fills@[cg[i].2] == bar_spec(cg[i]),
            decreases self.groups.len() - k,
        {
            let bar = TabsDirective::render_bar(&self.groups[k]);
            assert(cg[k as int] == group_spec(self.groups@[k as int]));
            let ghost before = fills@;
            fills.set(self.groups[k].bar_hole, bar);
            proof {
                if self.wf() {
                    assert forall|i: int| 0 <= i < k implies cg[i].2 != cg[k as int].2 by {
                        assert(self.holes()[i] == cg[i].2);
                        assert(self.holes()[k as int] == cg[k as int].2);
                    }
                }
            }
            k = k + 1;
        }
    }

    fn warnings(&self) -> (r: &[String])
        ensures
            r@.map_values(|w: String| w@) == self.warnings_view(),
    {
        self.warnings.as_slice()
    }
}


impl Default for TabsDirective {
    fn default() -> (r: Self)
        ensures
            r.closed_groups() == Seq::<GroupSpec>::empty(),
            r.open_groups() == Seq::<GroupSpec>::empty(),
            r.warnings_view() == Seq::<Seq<char>>::empty(),
            r.wf(),
    {
        TabsDirective::new()
    }
}

} // verus!
