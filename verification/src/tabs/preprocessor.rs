//! Tabs preprocessor: converts `::: tabs` / `::: tab Label` / `:::` lines to
//! `<rw-tabs>` / `<rw-tab>` elements that pass through the markdown parser
//! unchanged, and collects the groups' metadata.
//!
//! The preprocessor is a state machine over lines. Outside a group,
//! `::: tabs` opens one; inside, `::: tab Label` opens a tab (closing the
//! previous tab, if any); `:::` closes the tab and the group together. Lines
//! inside fenced code blocks are never interpreted.

use vstd::prelude::*;
use crate::directive::args::first_where;
use crate::tabs::fence::{fence_step, FenceTracker};
use crate::text::{
    chars_of, decimal, matches_at, push_all, push_char, push_decimal, push_str, string_of, sub_vec,
    trim_seq, trim_vec,
};

verus! {

/// Metadata for a single tab within a tab group.
#[derive(Clone, Debug, PartialEq, Eq)]
pub struct TabMetadata {
    /// Unique id of this tab within the document.
    pub id: usize,
    /// Display label for the tab button.
    pub label: String,
    /// Line number where the tab was defined (1-indexed).
    pub line: usize,
}

/// Metadata for a tab group.
#[derive(Clone, Debug, PartialEq, Eq)]
pub struct TabsGroup {
    /// Unique id of this tab group.
    pub id: usize,
    /// Tabs within this group.
    pub tabs: Vec<TabMetadata>,
}

/// A tab as (id, label, line).
pub type TabModel = (nat, Seq<char>, nat);

/// A group as (id, tabs).
pub type GroupModel = (nat, Seq<TabModel>);

pub open spec fn tab_model(t: TabMetadata) -> TabModel {
    (t.id as nat, t.label@, t.line as nat)
}

pub open spec fn group_model(g: TabsGroup) -> GroupModel {
    (g.id as nat, g.tabs@.map_values(|t: TabMetadata| tab_model(t)))
}

pub open spec fn groups_model(gs: Seq<TabsGroup>) -> Seq<GroupModel> {
    gs.map_values(|g: TabsGroup| group_model(g))
}

/// Where the line-by-line state machine stands.
#[derive(Debug, Clone, Copy, PartialEq, Eq)]
pub enum State {
    /// Normal markdown.
    Normal,
    /// Inside `::: tabs`, before its first tab.
    InTabs,
    /// Inside a `::: tab`.
    InTab,
}

/// A tab directive line.
#[derive(Debug, PartialEq, Eq)]
pub enum Directive {
    Tabs,
    Tab(String),
    Close,
}

pub enum DirectiveModel {
    Tabs,
    Tab(Seq<char>),
    Close,
}

/// The model of the preprocessor's state.
pub struct PreModel {
    pub state: State,
    pub fence: Option<(char, nat)>,
    pub warnings: Seq<Seq<char>>,
    pub groups: Seq<GroupModel>,
    pub current: Option<GroupModel>,
    pub next_group: nat,
    pub next_tab: nat,
    pub start_line: nat,
}

/// `s` without one pair of matching surrounding quotes.
pub open spec fn strip_quotes_spec(s: Seq<char>) -> Seq<char> {
    if s.len() >= 2 && ((s[0] == '"' && s.last() == '"') || (s[0] == '\'' && s.last() == '\'')) {
        s.subrange(1, s.len() - 1)
    } else {
        s
    }
}

/// The tab directive a trimmed line holds, if any.
pub open spec fn directive_spec(t: Seq<char>) -> Option<DirectiveModel> {
    if !matches_at(t, 0, ":::"@) {
        None
    } else {
        let rest = trim_seq(t.subrange(3, t.len() as int));
        if rest.len() == 0 {
            Some(DirectiveModel::Close)
        } else if rest == "tabs"@ || matches_at(rest, 0, "tabs "@) {
            Some(DirectiveModel::Tabs)
        } else if matches_at(rest, 0, "tab "@) {
            let label = trim_seq(rest.subrange(4, rest.len() as int));
            if label.len() == 0 {
                Some(DirectiveModel::Tab("Tab"@))
            } else {
                Some(DirectiveModel::Tab(strip_quotes_spec(label)))
            }
        } else if rest == "tab"@ {
            Some(DirectiveModel::Tab("Tab"@))
        } else {
            None
        }
    }
}

/// `line N: ` followed by `msg`.
pub open spec fn line_warning(n: nat, msg: Seq<char>) -> Seq<char> {
    "line "@ + decimal(n) + ": "@ + msg
}

/// `::: tabs` on line `n`.
pub open spec fn tabs_step(m: PreModel, n: nat) -> (PreModel, Seq<char>) {
    match m.state {
        State::Normal => (
            PreModel {
                state: State::InTabs,
                current: Some((m.next_group, Seq::empty())),
                next_group: m.next_group + 1,
                start_line: n,
                ..m
            },
            "<rw-tabs data-id=\""@ + decimal(m.next_group) + "\">\n"@,
        ),
        _ => (
            PreModel {
                warnings: m.warnings.push(line_warning(n, "nested ::: tabs not supported, passing through"@)),
                ..m
            },
            "::: tabs"@,
        ),
    }
}

/// The current group with one more tab.
pub open spec fn with_tab(cur: Option<GroupModel>, t: TabModel) -> Option<GroupModel> {
    match cur {
        Some(g) => Some((g.0, g.1.push(t))),
        None => None,
    }
}

/// `::: tab label` on line `n`.
pub open spec fn tab_step(m: PreModel, label: Seq<char>, n: nat) -> (PreModel, Seq<char>) {
    match m.state {
        State::InTabs => (
            PreModel {
                state: State::InTab,
                current: with_tab(m.current, (m.next_tab, label, n)),
                next_tab: m.next_tab + 1,
                ..m
            },
            "<rw-tab data-id=\""@ + decimal(m.next_tab) + "\">\n"@,
        ),
        State::InTab => (
            PreModel { current: with_tab(m.current, (m.next_tab, label, n)), next_tab: m.next_tab + 1, ..m },
            "\n</rw-tab>\n\n<rw-tab data-id=\""@ + decimal(m.next_tab) + "\">\n"@,
        ),
        State::Normal => (
            PreModel {
                warnings: m.warnings.push(line_warning(n, "::: tab outside ::: tabs, passing through"@)),
                ..m
            },
            "::: tab "@ + label,
        ),
    }
}

/// `:::` on line `n`.
pub open spec fn close_step(m: PreModel, n: nat) -> (PreModel, Seq<char>) {
    match m.state {
        State::InTab => (
            PreModel {
                state: State::Normal,
                current: None,
                groups: match m.current {
                    Some(g) => m.groups.push(g),
                    None => m.groups,
                },
                ..m
            },
            "\n</rw-tab>\n</rw-tabs>"@,
        ),
        State::InTabs => match m.current {
            Some(g) => if g.1.len() == 0 {
                (
                    PreModel {
                        state: State::Normal,
                        current: None,
                        warnings: m.warnings.push(line_warning(m.start_line, "::: tabs with no tabs, skipping"@)),
                        ..m
                    },
                    Seq::empty(),
                )
            } else {
                (PreModel { state: State::Normal, current: None, groups: m.groups.push(g), ..m }, "</rw-tabs>"@)
            },
            None => (PreModel { state: State::Normal, ..m }, "</rw-tabs>"@),
        },
        State::Normal => (
            PreModel {
                warnings: m.warnings.push(line_warning(n, "stray ::: with no opening directive"@)),
                ..m
            },
            ":::"@,
        ),
    }
}

/// One line, numbered `n`: update the fence state, pass the line through
/// inside a fence or when it holds no tab directive, else apply it.
pub open spec fn line_step(m: PreModel, line: Seq<char>, n: nat) -> (PreModel, Seq<char>) {
    let f = fence_step(m.fence, line);
    let m1 = PreModel { fence: f, ..m };
    if f is Some {
        (m1, line)
    } else {
        match directive_spec(trim_seq(line)) {
            None => (m1, line),
            Some(DirectiveModel::Tabs) => tabs_step(m1, n),
            Some(DirectiveModel::Tab(l)) => tab_step(m1, l, n),
            Some(DirectiveModel::Close) => close_step(m1, n),
        }
    }
}

/// End of input: an open group is reported.
pub open spec fn finalize_spec(m: PreModel) -> PreModel {
    match m.state {
        State::Normal => m,
        _ => PreModel {
            warnings: m.warnings.push(line_warning(m.start_line, "unclosed ::: tabs (missing closing :::)"@)),
            ..m
        },
    }
}

/// `s[i..e]` without one trailing carriage return.
pub open spec fn strip_cr(s: Seq<char>) -> Seq<char> {
    if s.len() > 0 && s.last() == '\r' {
        s.drop_last()
    } else {
        s
    }
}

/// The lines of `s` from `i` on, as `str::lines` gives them: split at `\n`,
/// a `\r` before a `\n` dropped, and no empty line after a final `\n`.
pub open spec fn lines_from(s: Seq<char>, i: int) -> Seq<Seq<char>>
    decreases s.len() - i,
{
    if i < 0 || i >= s.len() {
        Seq::empty()
    } else {
        let e = first_where(s, i, |c: char| c == '\n');
        if e >= s.len() {
            seq![s.subrange(i, s.len() as int)]
        } else {
            proof {
                crate::directive::args::lemma_first_where(s, i, |c: char| c == '\n');
            }
            seq![strip_cr(s.subrange(i, e))] + lines_from(s, e + 1)
        }
    }
}

/// Processing lines `k..` of `ls`; `ends_nl` says whether the input ended
/// with a newline. Each line's output is followed by `\n` except the last
/// line of an input without a final newline.
pub open spec fn process_from(m: PreModel, ls: Seq<Seq<char>>, k: int, ends_nl: bool) -> (PreModel, Seq<char>)
    decreases ls.len() - k,
{
    if k < 0 || k >= ls.len() {
        (m, Seq::empty())
    } else {
        let (m1, o) = line_step(m, ls[k], (k + 1) as nat);
        let (m2, rest) = process_from(m1, ls, k + 1, ends_nl);
        let nl = if k < ls.len() - 1 || ends_nl {
            seq!['\n']
        } else {
            Seq::empty()
        };
        (m2, o + nl + rest)
    }
}

/// Lines written one after another, each but the last followed by `\n`
/// (the last too when `ends_nl`).
pub open spec fn joined(ls: Seq<Seq<char>>, ends_nl: bool) -> Seq<char>
    decreases ls.len(),
{
    if ls.len() == 0 {
        Seq::empty()
    } else {
        ls[0] + (if ls.len() > 1 || ends_nl {
            seq!['\n']
        } else {
            Seq::empty()
        }) + joined(ls.drop_first(), ends_nl)
    }
}

proof fn lemma_lines_pass(m: PreModel, ls: Seq<Seq<char>>, k: int, ends_nl: bool)
    requires
        0 <= k <= ls.len(),
        forall|j: int| 0 <= j < ls.len() ==> directive_spec(trim_seq(#[trigger] ls[j])) is None,
    ensures
        process_from(m, ls, k, ends_nl).1 == joined(ls.skip(k), ends_nl),
    decreases ls.len() - k,
{
    if k < ls.len() {
        let (m1, o) = line_step(m, ls[k], (k + 1) as nat);
        assert(o == ls[k]);
        lemma_lines_pass(m1, ls, k + 1, ends_nl);
        assert(ls.skip(k)[0] == ls[k]);
        assert(ls.skip(k).drop_first() =~= ls.skip(k + 1));
    } else {
        assert(ls.skip(k) =~= Seq::<Seq<char>>::empty());
    }
}

proof fn lemma_lines_rejoin(s: Seq<char>, i: int)
    requires
        0 <= i <= s.len(),
        forall|j: int| 0 <= j < s.len() ==> s[j] != '\r',
    ensures
        joined(lines_from(s, i), s.len() > 0 && s.last() == '\n') == s.subrange(i, s.len() as int),
    decreases s.len() - i,
{
    let ends_nl = s.len() > 0 && s.last() == '\n';
    if i >= s.len() {
        assert(s.subrange(i, s.len() as int) =~= Seq::<char>::empty());
    } else {
        crate::directive::args::lemma_first_where(s, i, |c: char| c == '\n');
        let e = first_where(s, i, |c: char| c == '\n');
        if e >= s.len() {
            let ls = lines_from(s, i);
            assert(ls =~= seq![s.subrange(i, s.len() as int)]);
            assert(s[s.len() - 1] != '\n');
            assert(!ends_nl);
            assert(joined(Seq::<Seq<char>>::empty(), ends_nl) == Seq::<char>::empty());
            assert(ls[0] == s.subrange(i, s.len() as int));
            assert(ls.drop_first() =~= Seq::<Seq<char>>::empty());
            assert(joined(ls, ends_nl) =~= s.subrange(i, s.len() as int));
        } else {
            lemma_lines_rejoin(s, e + 1);
            let piece = s.subrange(i, e);
            assert(strip_cr(piece) == piece) by {
                if piece.len() > 0 {
                    assert(piece.last() == s[e - 1]);
                }
            }
            let ls = lines_from(s, i);
            let rest = lines_from(s, e + 1);
            assert(ls =~= seq![piece] + rest);
            assert(ls.drop_first() =~= rest);
            assert(rest.len() == 0 ==> e + 1 >= s.len());
            assert(rest.len() == 0 ==> ends_nl) by {
                if rest.len() == 0 {
                    if e + 1 < s.len() {
                        assert(lines_from(s, e + 1).len() > 0);
                    }
                    assert(s.last() == s[e]);
                }
            }
            assert(joined(ls, ends_nl) =~= piece + seq!['\n'] + s.subrange(e + 1, s.len() as int));
            assert(s.subrange(i, s.len() as int) =~= piece + seq!['\n'] + s.subrange(e + 1, s.len() as int));
        }
    }
}

/// Text with no tab directive line (and no carriage return) passes
/// through unchanged.
pub proof fn lemma_plain_text_passes_through(m: PreModel, input: Seq<char>)
    requires
        forall|j: int| 0 <= j < input.len() ==> input[j] != '\r',
        forall|j: int|
            0 <= j < lines_from(input, 0).len() ==> directive_spec(trim_seq(#[trigger] lines_from(input, 0)[j])) is None,
    ensures
        process_spec(m, input).1 == input,
{
    let ls = lines_from(input, 0);
    let ends_nl = input.len() > 0 && input.last() == '\n';
    lemma_lines_pass(m, ls, 0, ends_nl);
    assert(ls.skip(0) =~= ls);
    lemma_lines_rejoin(input, 0);
    assert(input.subrange(0, input.len() as int) =~= input);
}

/// The state after processing `input` and the transformed text.
pub open spec fn process_spec(m: PreModel, input: Seq<char>) -> (PreModel, Seq<char>) {
    let ends_nl = input.len() > 0 && input.last() == '\n';
    let (m2, out) = process_from(m, lines_from(input, 0), 0, ends_nl);
    (finalize_spec(m2), out)
}

/// Tab ids of the groups, in order.
pub open spec fn tab_ids(gs: Seq<GroupModel>) -> Seq<nat>
    decreases gs.len(),
{
    if gs.len() == 0 {
        Seq::empty()
    } else {
        tab_ids(gs.drop_last()) + gs.last().1.map_values(|t: TabModel| t.0)
    }
}

pub open spec fn increasing(s: Seq<nat>) -> bool {
    forall|i: int, j: int| 0 <= i < j < s.len() ==> s[i] < s[j]
}

/// Group ids of the finished groups and the open one.
pub open spec fn all_group_ids(m: PreModel) -> Seq<nat> {
    let done = m.groups.map_values(|g: GroupModel| g.0);
    match m.current {
        Some(g) => done.push(g.0),
        None => done,
    }
}

/// Tab ids of the finished groups and the open one.
pub open spec fn all_tab_ids(m: PreModel) -> Seq<nat> {
    match m.current {
        Some(g) => tab_ids(m.groups) + g.1.map_values(|t: TabModel| t.0),
        None => tab_ids(m.groups),
    }
}

/// Group ids and tab ids are each strictly increasing, hence unique, and
/// below the next ids to hand out; a group is open exactly outside `Normal`.
pub open spec fn model_wf(m: PreModel) -> bool {
    &&& increasing(all_group_ids(m))
    &&& forall|i: int| 0 <= i < all_group_ids(m).len() ==> #[trigger] all_group_ids(m)[i] < m.next_group
    &&& increasing(all_tab_ids(m))
    &&& forall|i: int| 0 <= i < all_tab_ids(m).len() ==> #[trigger] all_tab_ids(m)[i] < m.next_tab
    &&& (m.state == State::Normal <==> m.current is None)
}

/// Preprocessor that converts tab directives to HTML elements.
pub struct TabsPreprocessor {
    state: State,
    fence: FenceTracker,
    warnings: Vec<String>,
    groups: Vec<TabsGroup>,
    current_group: Option<TabsGroup>,
    next_group_id: usize,
    next_tab_id: usize,
    tabs_start_line: usize,
}

impl TabsPreprocessor {
    pub closed spec fn model(&self) -> PreModel {
        PreModel {
            state: self.state,
            fence: self.fence@,
            warnings: self.warnings@.map_values(|w: String| w@),
            groups: groups_model(self.groups@),
            current: match self.current_group {
                Some(g) => Some(group_model(g)),
                None => None,
            },
            next_group: self.next_group_id as nat,
            next_tab: self.next_tab_id as nat,
            start_line: self.tabs_start_line as nat,
        }
    }

    pub open spec fn wf(&self) -> bool {
        model_wf(self.model())
    }

    /// Room left in the id counters.
    pub open spec fn headroom(&self) -> int {
        usize::MAX - if self.model().next_group > self.model().next_tab {
            self.model().next_group
        } else {
            self.model().next_tab
        }
    }

    /// Create a new preprocessor.
    pub fn new() -> (r: Self)
        ensures
            r.model() == (PreModel {
                state: State::Normal,
                fence: None,
                warnings: Seq::empty(),
                groups: Seq::empty(),
                current: None,
                next_group: 0,
                next_tab: 0,
                start_line: 0,
            }),
            r.wf(),
    {
        let r = TabsPreprocessor {
            state: State::Normal,
            fence: FenceTracker::new(),
            warnings: Vec::new(),
            groups: Vec::new(),
            current_group: None,
            next_group_id: 0,
            next_tab_id: 0,
            tabs_start_line: 0,
        };
        assert(r.model().warnings =~= Seq::<Seq<char>>::empty());
        assert(r.model().groups =~= Seq::<GroupModel>::empty());
        assert(all_group_ids(r.model()) =~= Seq::<nat>::empty());
        assert(all_tab_ids(r.model()) =~= Seq::<nat>::empty());
        r
    }

    /// Warnings generated during processing.
    pub fn warnings(&self) -> (r: &[String])
        ensures
            r@.map_values(|w: String| w@) == self.model().warnings,
    {
        self.warnings.as_slice()
    }

    /// Consume the preprocessor and return the collected tab groups.
    pub fn into_groups(self) -> (r: Vec<TabsGroup>)
        ensures
            groups_model(r@) == self.model().groups,
    {
        self.groups
    }

    fn push_warning(&mut self, n: usize, msg: &str)
        ensures
            final(self).model() == (PreModel {
                warnings: old(self).model().warnings.push(line_warning(n as nat, msg@)),
                ..old(self).model()
            }),
    {
        let mut w = String::new();
        push_str(&mut w, "line ");
        push_decimal(&mut w, n);
        push_str(&mut w, ": ");
        push_str(&mut w, msg);
        let ghost before = self.warnings@.map_values(|w: String| w@);
        self.warnings.push(w);
        assert(self.warnings@.map_values(|w: String| w@) =~= before.push(line_warning(n as nat, msg@)));
    }

    /// `::: tabs` on line `n`.
    fn handle_tabs(&mut self, n: usize) -> (r: String)
        requires
            old(self).model().next_group < usize::MAX,
        ensures
            (final(self).model(), r@) == tabs_step(old(self).model(), n as nat),
    {
        match self.state {
            State::Normal => {
                let group_id = self.next_group_id;
                self.next_group_id = self.next_group_id + 1;
                self.current_group = Some(TabsGroup { id: group_id, tabs: Vec::new() });
                self.tabs_start_line = n;
                self.state = State::InTabs;
                let mut out = String::new();
                push_str(&mut out, "<rw-tabs data-id=\"");
                push_decimal(&mut out, group_id);
                push_str(&mut out, "\">\n");
                assert(group_model(self.current_group.unwrap()).1 =~= Seq::<TabModel>::empty());
                out
            },
            _ => {
                self.push_warning(n, "nested ::: tabs not supported, passing through");
                "::: tabs".to_owned()
            },
        }
    }

    /// Appends a tab to the open group.
    fn add_tab(&mut self, label: &Vec<char>, n: usize) -> (id: usize)
        requires
            old(self).model().next_tab < usize::MAX,
        ensures
            id == old(self).model().next_tab,
            final(self).model() == (PreModel {
                current: with_tab(old(self).model().current, (id as nat, label@, n as nat)),
                next_tab: old(self).model().next_tab + 1,
                ..old(self).model()
            }),
    {
        let tab_id = self.next_tab_id;
        self.next_tab_id = self.next_tab_id + 1;
        let ghost old_cur = self.model().current;
        let mut cur = None;
        std::mem::swap(&mut cur, &mut self.current_group);
        if let Some(mut g) = cur {
            let ghost before = group_model(g).1;
            g.tabs.push(TabMetadata { id: tab_id, label: string_of(label.as_slice()), line: n });
            assert(group_model(g).1 =~= before.push((tab_id as nat, label@, n as nat)));
            self.current_group = Some(g);
        }
        tab_id
    }

    /// `::: tab label` on line `n`.
    fn handle_tab(&mut self, label: Vec<char>, n: usize) -> (r: String)
        requires
            old(self).model().next_tab < usize::MAX,
        ensures
            (final(self).model(), r@) == tab_step(old(self).model(), label@, n as nat),
    {
        match self.state {
            State::InTabs => {
                let tab_id = self.add_tab(&label, n);
                self.state = State::InTab;
                let mut out = String::new();
                push_str(&mut out, "<rw-tab data-id=\"");
                push_decimal(&mut out, tab_id);
                push_str(&mut out, "\">\n");
                out
            },
            State::InTab => {
                let tab_id = self.add_tab(&label, n);
                let mut out = String::new();
                push_str(&mut out, "\n</rw-tab>\n\n<rw-tab data-id=\"");
                push_decimal(&mut out, tab_id);
                push_str(&mut out, "\">\n");
                out
            },
            State::Normal => {
                self.push_warning(n, "::: tab outside ::: tabs, passing through");
                let mut out = String::new();
                push_str(&mut out, "::: tab ");
                push_all(&mut out, label.as_slice());
                out
            },
        }
    }

    /// `:::` on line `n`.
    fn handle_close(&mut self, n: usize) -> (r: String)
        ensures
            (final(self).model(), r@) == close_step(old(self).model(), n as nat),
    {
        match self.state {
            State::InTab => {
                let mut cur = None;
                std::mem::swap(&mut cur, &mut self.current_group);
                if let Some(g) = cur {
                    let ghost before = groups_model(self.groups@);
                    self.groups.push(g);
                    assert(groups_model(self.groups@) =~= before.push(group_model(g)));
                }
                self.state = State::Normal;
                "\n</rw-tab>\n</rw-tabs>".to_owned()
            },
            State::InTabs => {
                let mut cur = None;
                std::mem::swap(&mut cur, &mut self.current_group);
                if let Some(g) = cur {
                    if g.tabs.len() == 0 {
                        let start = self.tabs_start_line;
                        self.push_warning(start, "::: tabs with no tabs, skipping");
                        self.state = State::Normal;
                        return String::new();
                    }
                    let ghost before = groups_model(self.groups@);
                    self.groups.push(g);
                    assert(groups_model(self.groups@) =~= before.push(group_model(g)));
                }
                self.state = State::Normal;
                "</rw-tabs>".to_owned()
            },
            State::Normal => {
                self.push_warning(n, "stray ::: with no opening directive");
                ":::".to_owned()
            },
        }
    }

    /// Process one line, numbered `n`, and return its transformed text.
    fn process_line(&mut self, line: &Vec<char>, n: usize) -> (r: String)
        requires
            old(self).model().next_group < usize::MAX,
            old(self).model().next_tab < usize::MAX,
        ensures
            (final(self).model(), r@) == line_step(old(self).model(), line@, n as nat),
    {
        let text = string_of(line.as_slice());
        self.fence.update(text.as_str());
        if self.fence.in_fence() {
            return text;
        }
        let trimmed = trim_vec(line.as_slice());
        match parse_directive_chars(trimmed.as_slice()) {
            Some(Directive::Tabs) => self.handle_tabs(n),
            Some(Directive::Tab(label)) => self.handle_tab(chars_of(label.as_str()), n),
            Some(Directive::Close) => self.handle_close(n),
            None => text,
        }
    }

    /// Report an unclosed group at the end of input.
    fn finalize(&mut self)
        ensures
            final(self).model() == finalize_spec(old(self).model()),
    {
        match self.state {
            State::Normal => {},
            _ => {
                let start = self.tabs_start_line;
                self.push_warning(start, "unclosed ::: tabs (missing closing :::)");
            },
        }
    }

    /// Process markdown text and return it with tab directives converted to
    /// `<rw-tabs>` and `<rw-tab>` elements; line endings are kept. The
    /// collected metadata can be retrieved with `into_groups`.
    pub fn process(&mut self, input: &str) -> (r: String)
        requires
            old(self).headroom() > input@.len() + 1,
        ensures
            (final(self).model(), r@) == process_spec(old(self).model(), input@),
            old(self).wf() ==> final(self).wf(),
    {
        let v = chars_of(input);
        let lines = split_lines(v.as_slice());
        let ghost ls = lines_from(input@, 0);
        let ghost ends_nl = input@.len() > 0 && input@.last() == '\n';
        let ends_with_nl = v.len() > 0 && v[v.len() - 1] == '\n';
        let ghost m0 = self.model();
        let ghost total = process_from(m0, ls, 0, ends_nl);
        proof {
            lemma_lines_len(input@, 0);
        }
        let mut output = String::new();
        let mut idx: usize = 0;
        while idx < lines.len()
            invariant
                idx <= lines@.len(),
                lines@.map_values(|l: Vec<char>| l@) == ls,
                ls.len() <= input@.len(),
                ends_with_nl == ends_nl,
                process_from(self.model(), ls, idx as int, ends_nl).0 == total.0,
                output@ + process_from(self.model(), ls, idx as int, ends_nl).1 == total.1,
                self.headroom() > input@.len() + 1 - idx,
                model_wf(m0) ==> model_wf(self.model()),
            decreases lines.len() - idx,
        {
            let ghost before = self.model();
            let ghost out_before = output@;
            assert(lines@[idx as int]@ == ls[idx as int]);
            let processed = self.process_line(&lines[idx], idx + 1);
            proof {
                lemma_line_step_wf(before, ls[idx as int], (idx + 1) as nat);
            }
            let ghost rest = process_from(self.model(), ls, idx + 1, ends_nl).1;
            let ghost o = processed@;
            let ghost nl: Seq<char> = if idx < ls.len() - 1 || ends_nl {
                seq!['\n']
            } else {
                Seq::empty()
            };
            push_str(&mut output, processed.as_str());
            if idx < lines.len() - 1 || ends_with_nl {
                push_char(&mut output, '\n');
            }
            assert(output@ =~= out_before + o + nl);
            assert(process_from(before, ls, idx as int, ends_nl).1 == o + nl + rest);
            assert(output@ + rest =~= out_before + (o + nl + rest));
            idx = idx + 1;
        }
        self.finalize();
        proof {
            lemma_finalize_wf(process_from(m0, ls, 0, ends_nl).0);
        }
        output
    }
}

proof fn lemma_lines_len(s: Seq<char>, i: int)
    requires
        0 <= i <= s.len(),
    ensures
        lines_from(s, i).len() <= s.len() - i,
    decreases s.len() - i,
{
    if i < s.len() {
        crate::directive::args::lemma_first_where(s, i, |c: char| c == '\n');
        let e = first_where(s, i, |c: char| c == '\n');
        if e < s.len() {
            lemma_lines_len(s, e + 1);
        }
    }
}

proof fn lemma_tab_ids_push(gs: Seq<GroupModel>, g: GroupModel)
    ensures
        tab_ids(gs.push(g)) == tab_ids(gs) + g.1.map_values(|t: TabModel| t.0),
{
    assert(gs.push(g).drop_last() =~= gs);
}

proof fn lemma_tabs_step_wf(m: PreModel, n: nat)
    requires
        model_wf(m),
    ensures
        model_wf(tabs_step(m, n).0),
{
    let m2 = tabs_step(m, n).0;
    if m.state == State::Normal {
        assert(all_group_ids(m2) =~= all_group_ids(m).push(m.next_group));
        assert(Seq::<TabModel>::empty().map_values(|t: TabModel| t.0) =~= Seq::<nat>::empty());
        assert(all_tab_ids(m2) =~= all_tab_ids(m));
    } else {
        assert(all_group_ids(m2) == all_group_ids(m));
        assert(all_tab_ids(m2) == all_tab_ids(m));
    }
}

proof fn lemma_tab_step_wf(m: PreModel, label: Seq<char>, n: nat)
    requires
        model_wf(m),
    ensures
        model_wf(tab_step(m, label, n).0),
{
    let m2 = tab_step(m, label, n).0;
    if m.state != State::Normal {
        let g = m.current.unwrap();
        let t = (m.next_tab, label, n);
        assert(g.1.push(t).map_values(|t: TabModel| t.0) =~= g.1.map_values(|t: TabModel| t.0).push(
            m.next_tab,
        ));
        assert(all_tab_ids(m2) =~= all_tab_ids(m).push(m.next_tab));
        assert(all_group_ids(m2) =~= all_group_ids(m));
    } else {
        assert(all_group_ids(m2) == all_group_ids(m));
        assert(all_tab_ids(m2) == all_tab_ids(m));
    }
}

proof fn lemma_close_step_wf(m: PreModel, n: nat)
    requires
        model_wf(m),
    ensures
        model_wf(close_step(m, n).0),
{
    let m2 = close_step(m, n).0;
    match m.state {
        State::Normal => {
            assert(all_group_ids(m2) == all_group_ids(m));
            assert(all_tab_ids(m2) == all_tab_ids(m));
        },
        _ => {
            let g = m.current.unwrap();
            if m.state == State::InTabs && g.1.len() == 0 {
                assert(all_group_ids(m2) =~= all_group_ids(m).drop_last());
                assert(g.1.map_values(|t: TabModel| t.0) =~= Seq::<nat>::empty());
                assert(all_tab_ids(m2) =~= all_tab_ids(m));
            } else {
                lemma_tab_ids_push(m.groups, g);
                assert(m.groups.push(g).map_values(|x: GroupModel| x.0) =~= m.groups.map_values(
                    |x: GroupModel| x.0,
                ).push(g.0));
                assert(all_group_ids(m2) =~= all_group_ids(m));
                assert(all_tab_ids(m2) =~= all_tab_ids(m));
            }
        },
    }
}

proof fn lemma_line_step_wf(m: PreModel, line: Seq<char>, n: nat)
    ensures
        line_step(m, line, n).0.next_group <= m.next_group + 1,
        line_step(m, line, n).0.next_tab <= m.next_tab + 1,
        model_wf(m) ==> model_wf(line_step(m, line, n).0),
{
    let m1 = PreModel { fence: fence_step(m.fence, line), ..m };
    if model_wf(m) {
        assert(all_group_ids(m1) == all_group_ids(m));
        assert(all_tab_ids(m1) == all_tab_ids(m));
        assert(model_wf(m1));
        if m1.fence is None {
            match directive_spec(trim_seq(line)) {
                None => {},
                Some(DirectiveModel::Tabs) => lemma_tabs_step_wf(m1, n),
                Some(DirectiveModel::Tab(l)) => lemma_tab_step_wf(m1, l, n),
                Some(DirectiveModel::Close) => lemma_close_step_wf(m1, n),
            }
        }
    }
}

proof fn lemma_finalize_wf(m: PreModel)
    ensures
        model_wf(m) ==> model_wf(finalize_spec(m)),
{
    assert(all_group_ids(finalize_spec(m)) == all_group_ids(m));
    assert(all_tab_ids(finalize_spec(m)) == all_tab_ids(m));
}

/// Split `v` into lines as `str::lines` does.
fn split_lines(v: &[char]) -> (r: Vec<Vec<char>>)
    ensures
        r@.map_values(|l: Vec<char>| l@) == lines_from(v@, 0),
{
    let mut r: Vec<Vec<char>> = Vec::new();
    let mut i: usize = 0;
    while i < v.len()
        invariant
            i <= v@.len(),
            r@.map_values(|l: Vec<char>| l@) + lines_from(v@, i as int) == lines_from(v@, 0),
        decreases v.len() - i,
    {
        let e = crate::directive::args::find_same(v, i, '\n');
        proof {
            crate::directive::args::lemma_first_where(v@, i as int, |c: char| c == '\n');
        }
        let ghost before = r@.map_values(|l: Vec<char>| l@);
        if e >= v.len() {
            let piece = sub_vec(v, i, v.len());
            r.push(piece);
            assert(r@.map_values(|l: Vec<char>| l@) =~= before.push(piece@));
            assert(lines_from(v@, i as int) == seq![piece@]);
            assert(lines_from(v@, v@.len() as int) =~= Seq::<Seq<char>>::empty());
            assert(before + seq![piece@] =~= before.push(piece@));
            i = v.len();
        } else {
            let mut piece = sub_vec(v, i, e);
            if piece.len() > 0 && piece[piece.len() - 1] == '\r' {
                piece.pop();
            }
            assert(piece@ == strip_cr(v@.subrange(i as int, e as int)));
            r.push(piece);
            assert(r@.map_values(|l: Vec<char>| l@) =~= before.push(piece@));
            assert(before + lines_from(v@, i as int) =~= before.push(piece@) + lines_from(v@, e + 1));
            i = e + 1;
        }
    }
    assert(lines_from(v@, i as int) =~= Seq::<Seq<char>>::empty());
    assert(r@.map_values(|l: Vec<char>| l@) + Seq::<Seq<char>>::empty() =~= r@.map_values(
        |l: Vec<char>| l@,
    ));
    r
}

/// `s` without one pair of matching surrounding quotes.
pub fn strip_quotes(s: &str) -> (r: String)
    ensures
        r@ == strip_quotes_spec(s@),
{
    let v = chars_of(s);
    string_of(strip_quotes_chars(v.as_slice()).as_slice())
}

fn strip_quotes_chars(v: &[char]) -> (r: Vec<char>)
    ensures
        r@ == strip_quotes_spec(v@),
{
    let n = v.len();
    if n >= 2 && ((v[0] == '"' && v[n - 1] == '"') || (v[0] == '\'' && v[n - 1] == '\'')) {
        sub_vec(v, 1, n - 1)
    } else {
        sub_vec(v, 0, n)
    }
}

fn lit_chars(s: &str) -> (r: Vec<char>)
    ensures
        r@ == s@,
{
    chars_of(s)
}

/// The tab directive a trimmed line holds, if any.
pub fn parse_directive(trimmed: &str) -> (r: Option<Directive>)
    ensures
        directive_matches(r, directive_spec(trimmed@)),
{
    parse_directive_chars(chars_of(trimmed).as_slice())
}

pub open spec fn directive_matches(r: Option<Directive>, m: Option<DirectiveModel>) -> bool {
    match (r, m) {
        (Some(Directive::Tabs), Some(DirectiveModel::Tabs)) => true,
        (Some(Directive::Close), Some(DirectiveModel::Close)) => true,
        (Some(Directive::Tab(l)), Some(DirectiveModel::Tab(ml))) => l@ == ml,
        (None, None) => true,
        _ => false,
    }
}

fn parse_directive_chars(t: &[char]) -> (r: Option<Directive>)
    ensures
        directive_matches(r, directive_spec(t@)),
{
    proof {
        reveal_strlit(":::");
        reveal_strlit("tab ");
    }
    let colons = lit_chars(":::");
    if !crate::text::starts_with_at(t, 0, colons.as_slice()) {
        return None;
    }
    let rest = trim_vec(sub_vec(t, 3, t.len()).as_slice());
    if rest.len() == 0 {
        return Some(Directive::Close);
    }
    let tabs = lit_chars("tabs");
    let tabs_sp = lit_chars("tabs ");
    if crate::text::seq_eq(rest.as_slice(), tabs.as_slice()) || crate::text::starts_with_at(
        rest.as_slice(),
        0,
        tabs_sp.as_slice(),
    ) {
        return Some(Directive::Tabs);
    }
    let tab_sp = lit_chars("tab ");
    if crate::text::starts_with_at(rest.as_slice(), 0, tab_sp.as_slice()) {
        let label = trim_vec(sub_vec(rest.as_slice(), 4, rest.len()).as_slice());
        if label.len() == 0 {
            return Some(Directive::Tab("Tab".to_owned()));
        }
        return Some(Directive::Tab(string_of(strip_quotes_chars(label.as_slice()).as_slice())));
    }
    let tab = lit_chars("tab");
    if crate::text::seq_eq(rest.as_slice(), tab.as_slice()) {
        return Some(Directive::Tab("Tab".to_owned()));
    }
    None
}


impl Default for TabsPreprocessor {
    fn default() -> (r: Self)
        ensures
            r.model() == (PreModel {
                state: State::Normal,
                fence: None,
                warnings: Seq::empty(),
                groups: Seq::empty(),
                current: None,
                next_group: 0,
                next_tab: 0,
                start_line: 0,
            }),
            r.wf(),
    {
        TabsPreprocessor::new()
    }
}

} // verus!
