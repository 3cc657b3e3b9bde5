//! Tabs post-processor: turns the intermediate `<rw-tabs>` / `<rw-tab>`
//! elements written by the preprocessor into accessible tab markup with ARIA
//! attributes.

use vstd::prelude::*;
use std::collections::HashMap;
use crate::code_block::{CodeBlockProcessor, FenceAttrs, ProcessResult};
use crate::tabs::preprocessor::{group_model, groups_model, GroupModel, TabMetadata, TabModel, TabsGroup};
use crate::text::{chars_of, decimal, digit_char, find_at, find_from, find_seq, lemma_decimal_len, lemma_find_from,
    lemma_find_from_is, lemma_find_from_none, lemma_matches_inside, lemma_no_straddle, matches_at, push_decimal, push_range,
    push_str, string_of_range};
use crate::util::{escape_into, escape_spec};

verus! {

/// Value of the decimal digits `d`.
pub open spec fn digits_value(d: Seq<char>) -> nat
    decreases d.len(),
{
    if d.len() == 0 {
        0
    } else {
        digits_value(d.drop_last()) * 10 + ((d.last() as u32) - ('0' as u32)) as nat
    }
}

pub open spec fn is_digit(c: char) -> bool {
    '0' <= c && c <= '9'
}

/// Every character is an ASCII digit.
pub open spec fn all_digits(d: Seq<char>) -> bool {
    forall|i: int| 0 <= i < d.len() ==> is_digit(#[trigger] d[i])
}

/// `str::parse::<usize>`: an optional `+`, then one or more ASCII digits
/// whose value fits a `usize`.
pub open spec fn parse_usize_spec(s: Seq<char>) -> Option<nat> {
    let d = if s.len() > 0 && s[0] == '+' {
        s.drop_first()
    } else {
        s
    };
    if d.len() == 0 || !all_digits(d) {
        None
    } else if digits_value(d) > usize::MAX {
        None
    } else {
        Some(digits_value(d))
    }
}

proof fn lemma_digits_monotone(d: Seq<char>, k: int)
    requires
        0 <= k <= d.len(),
        all_digits(d),
    ensures
        digits_value(d.take(k)) <= digits_value(d),
    decreases d.len() - k,
{
    if k < d.len() {
        lemma_digits_monotone(d, k + 1);
        assert(d.take(k + 1).drop_last() =~= d.take(k));
        assert(is_digit(d[k]));
    } else {
        assert(d.take(k) =~= d);
    }
}

/// Parse `v` as `str::parse::<usize>` does.
pub fn parse_usize(v: &[char]) -> (r: Option<usize>)
    ensures
        match r {
            Some(n) => parse_usize_spec(v@) == Some(n as nat),
            None => parse_usize_spec(v@) is None,
        },
{
    let start: usize = if v.len() > 0 && v[0] == '+' {
        1
    } else {
        0
    };
    let ghost d = if v@.len() > 0 && v@[0] == '+' {
        v@.drop_first()
    } else {
        v@
    };
    assert(d =~= v@.subrange(start as int, v@.len() as int));
    if start >= v.len() {
        return None;
    }
    let mut value: usize = 0;
    let mut i = start;
    while i < v.len()
        invariant
            start <= i <= v@.len(),
            d =~= v@.subrange(start as int, v@.len() as int),
            d == (if v@.len() > 0 && v@[0] == '+' {
                v@.drop_first()
            } else {
                v@
            }),
            forall|m: int| start <= m < i ==> is_digit(#[trigger] v@[m]),
            value as nat == digits_value(d.take(i - start)),
        decreases v.len() - i,
    {
        let c = v[i];
        assert(d[i - start] == c);
        if !('0' <= c && c <= '9') {
            assert(!is_digit(d[i - start]));
            assert(!all_digits(d));
            return None;
        }
        let digit = (c as u32 - '0' as u32) as usize;
        assert(d.take(i - start + 1).drop_last() =~= d.take(i - start));
        assert(d.take(i - start + 1).last() == c);
        let ghost k = i - start;
        assert(digits_value(d.take(k + 1)) == value * 10 + digit);
        match value.checked_mul(10) {
            Some(m) => match m.checked_add(digit) {
                Some(n) => {
                    value = n;
                },
                None => {
                    proof {
                        if all_digits(d) {
                            lemma_digits_monotone(d, k + 1);
                        }
                    }
                    return None;
                },
            },
            None => {
                proof {
                    if all_digits(d) {
                        lemma_digits_monotone(d, k + 1);
                    }
                }
                return None;
            },
        }
        i = i + 1;
    }
    assert(d.take(i - start) =~= d);
    Some(value)
}


/// The `data-id` value of an opening tag: the digits between `data-id="`
/// and the next `"`, parsed as a `usize`.
pub open spec fn data_id_spec(tag: Seq<char>) -> Option<nat> {
    match find_seq(tag, 0, "data-id=\""@) {
        None => None,
        Some(st) => {
            let vs = st + "data-id=\""@.len();
            match find_seq(tag, vs, "\""@) {
                None => None,
                Some(ve) => parse_usize_spec(tag.subrange(vs, ve)),
            }
        },
    }
}

/// Parse the `data-id` attribute of an opening tag.
pub fn parse_data_id(tag: &str) -> (r: Option<usize>)
    ensures
        match r {
            Some(n) => data_id_spec(tag@) == Some(n as nat),
            None => data_id_spec(tag@) is None,
        },
{
    let v = chars_of(tag);
    parse_data_id_chars(v.as_slice())
}

fn parse_data_id_chars(v: &[char]) -> (r: Option<usize>)
    ensures
        match r {
            Some(n) => data_id_spec(v@) == Some(n as nat),
            None => data_id_spec(v@) is None,
        },
{
    let _n = v.len();
    let pat = chars_of("data-id=\"");
    let quote = chars_of("\"");
    match find_at(v, 0, pat.as_slice()) {
        None => None,
        Some(st) => {
            assert(st + pat@.len() <= v@.len());
            let vs = st + pat.len();
            match find_at(v, vs, quote.as_slice()) {
                None => None,
                Some(ve) => {
                    let digits = crate::text::sub_vec(v, vs, ve);
                    parse_usize(digits.as_slice())
                },
            }
        },
    }
}

/// The `<rw-tab>` panels of `s` from `i` on, as (tab id, content); a panel
/// without a parsable id is skipped, and scanning stops at the first
/// incomplete panel.
pub open spec fn panels_from(s: Seq<char>, i: int) -> Seq<(nat, Seq<char>)>
    decreases s.len() - i,
{
    if i < 0 || i > s.len() {
        Seq::empty()
    } else {
        match find_seq(s, i, "<rw-tab"@) {
            None => Seq::empty(),
            Some(st) => match find_seq(s, st, ">"@) {
                None => Seq::empty(),
                Some(gt) => {
                    let te = gt + 1;
                    match find_seq(s, te, "</rw-tab>"@) {
                        None => Seq::empty(),
                        Some(cs) => {
                            let ce = cs + "</rw-tab>"@.len();
                            proof {
                                lemma_find_from(s, i, s.len() + 1int, "<rw-tab"@);
                                lemma_find_from(s, st, s.len() + 1int, ">"@);
                                lemma_find_from(s, te, s.len() + 1int, "</rw-tab>"@);
                            }
                            let rest = panels_from(s, ce);
                            match data_id_spec(s.subrange(st, te)) {
                                Some(id) => seq![(id, s.subrange(te, cs))] + rest,
                                None => rest,
                            }
                        },
                    }
                },
            },
        }
    }
}

/// Parse `<rw-tab>` elements from inner content into (tab id, content).
pub fn parse_tab_panels(content: &str) -> (r: Vec<(usize, String)>)
    ensures
        r@.map_values(|p: (usize, String)| (p.0 as nat, p.1@)) == panels_from(content@, 0),
{
    proof {
        reveal_strlit(">");
        reveal_strlit("</rw-tab>");
    }
    let v = chars_of(content);
    let open = chars_of("<rw-tab");
    let gt = chars_of(">");
    let close = chars_of("</rw-tab>");
    let ghost s = v@;
    let vlen = v.len();
    let mut panels: Vec<(usize, String)> = Vec::new();
    let mut i: usize = 0;
    loop
        invariant
            i <= s.len(),
            s == v@,
            vlen == s.len(),
            s == content@,
            open@ == "<rw-tab"@,
            gt@ == ">"@,
            gt@.len() == 1,
            close@ == "</rw-tab>"@,
            close@.len() == 9,
            panels@.map_values(|p: (usize, String)| (p.0 as nat, p.1@)) + panels_from(s, i as int)
                == panels_from(s, 0),
        ensures
            panels@.map_values(|p: (usize, String)| (p.0 as nat, p.1@)) == panels_from(s, 0),
        decreases s.len() - i,
    {
        let ghost before = panels@.map_values(|p: (usize, String)| (p.0 as nat, p.1@));
        let st = match find_at(v.as_slice(), i, open.as_slice()) {
            None => {
                assert(before + panels_from(s, i as int) =~= before);
                break;
            },
            Some(st) => st,
        };
        let g = match find_at(v.as_slice(), st, gt.as_slice()) {
            None => {
                assert(before + panels_from(s, i as int) =~= before);
                break;
            },
            Some(g) => g,
        };
        assert(g + gt@.len() <= s.len());
        let te = g + 1;
        let cs = match find_at(v.as_slice(), te, close.as_slice()) {
            None => {
                assert(before + panels_from(s, i as int) =~= before);
                break;
            },
            Some(cs) => cs,
        };
        assert(cs + close@.len() <= s.len());
        let ce = cs + close.len();
        proof {
            lemma_find_from(s, i as int, s.len() + 1int, "<rw-tab"@);
        }
        let tag = crate::text::sub_vec(v.as_slice(), st, te);
        match parse_data_id_chars(tag.as_slice()) {
            Some(id) => {
                let panel = string_of_range(v.as_slice(), te, cs);
                panels.push((id, panel));
                assert(panels@.map_values(|p: (usize, String)| (p.0 as nat, p.1@)) =~= before.push(
                    (id as nat, s.subrange(te as int, cs as int)),
                ));
                assert(before + panels_from(s, i as int) =~= before.push(
                    (id as nat, s.subrange(te as int, cs as int)),
                ) + panels_from(s, ce as int));
            },
            None => {},
        }
        i = ce;
    }
    panels
}


/// The last group with id `id` (a later group replaces an earlier one with
/// the same id).
pub open spec fn find_group(groups: Seq<GroupModel>, id: nat) -> Option<GroupModel>
    decreases groups.len(),
{
    if groups.len() == 0 {
        None
    } else if groups.last().0 == id {
        Some(groups.last())
    } else {
        find_group(groups.drop_last(), id)
    }
}

/// A tab button.
pub open spec fn button_spec(gid: nat, t: TabModel, first: bool) -> Seq<char> {
    "<button role=\"tab\" id=\"tab-"@ + decimal(gid) + "-"@ + decimal(t.0) + "\" aria-controls=\"panel-"@
        + decimal(gid) + "-"@ + decimal(t.0) + "\" aria-selected=\""@ + (if first {
        "true"@
    } else {
        "false"@
    }) + "\" tabindex=\""@ + (if first {
        "0"@
    } else {
        "-1"@
    }) + "\">"@ + escape_spec(t.1) + "</button>"@
}

/// Buttons for the first `k` tabs.
pub open spec fn buttons_spec(gid: nat, tabs: Seq<TabModel>, k: int) -> Seq<char>
    decreases k,
{
    if k <= 0 {
        Seq::empty()
    } else {
        buttons_spec(gid, tabs, k - 1) + button_spec(gid, tabs[k - 1], k - 1 == 0)
    }
}

/// A tab panel; every panel after the first is hidden.
pub open spec fn panel_spec(gid: nat, pid: nat, content: Seq<char>, first: bool) -> Seq<char> {
    "<div role=\"tabpanel\" id=\"panel-"@ + decimal(gid) + "-"@ + decimal(pid) + "\" aria-labelledby=\"tab-"@
        + decimal(gid) + "-"@ + decimal(pid) + "\""@ + (if first {
        ""@
    } else {
        " hidden"@
    }) + ">"@ + content + "</div>"@
}

/// The first `k` panels.
pub open spec fn panels_spec(gid: nat, panels: Seq<(nat, Seq<char>)>, k: int) -> Seq<char>
    decreases k,
{
    if k <= 0 {
        Seq::empty()
    } else {
        panels_spec(gid, panels, k - 1) + panel_spec(gid, panels[k - 1].0, panels[k - 1].1, k - 1 == 0)
    }
}

/// Whether the group has a tab with id `id`.
pub open spec fn has_tab(tabs: Seq<TabModel>, id: nat) -> bool {
    exists|i: int| 0 <= i < tabs.len() && tabs[i].0 == id
}

/// Warnings for the first `k` panels whose tab is missing from the group.
pub open spec fn panel_warnings(gid: nat, tabs: Seq<TabModel>, panels: Seq<(nat, Seq<char>)>, k: int) -> Seq<Seq<char>>
    decreases k,
{
    if k <= 0 {
        Seq::empty()
    } else {
        let pid = panels[k - 1].0;
        panel_warnings(gid, tabs, panels, k - 1) + if has_tab(tabs, pid) {
            Seq::empty()
        } else {
            seq!["tab "@ + decimal(pid) + " not found in group "@ + decimal(gid) + " metadata"@]
        }
    }
}

/// The accessible markup for group `gid` with the panels of `inner`, and the
/// warnings raised; an unknown group passes through with a warning.
pub open spec fn tabs_markup(groups: Seq<GroupModel>, gid: nat, inner: Seq<char>) -> (Seq<char>, Seq<Seq<char>>) {
    match find_group(groups, gid) {
        None => (
            "<rw-tabs data-id=\""@ + decimal(gid) + "\">"@ + inner + "</rw-tabs>"@,
            seq!["tabs group "@ + decimal(gid) + " not found in metadata, passing through"@],
        ),
        Some(g) => {
            let panels = panels_from(inner, 0);
            (
                "<div class=\"tabs\" id=\"tabs-"@ + decimal(gid) + "\">"@
                    + "<div class=\"tabs-buttons\" role=\"tablist\">"@ + buttons_spec(gid, g.1, g.1.len() as int)
                    + "</div>"@ + panels_spec(gid, panels, panels.len() as int) + "</div>"@,
                panel_warnings(gid, g.1, panels, panels.len() as int),
            )
        },
    }
}

/// The group with id `id` is the last of `given` with that id.
pub open spec fn group_at(groups: Map<usize, TabsGroup>, given: Seq<GroupModel>, id: usize) -> bool {
    match find_group(given, id as nat) {
        Some(g) => groups.contains_key(id) && group_model(groups[id]) == g,
        None => !groups.contains_key(id),
    }
}

/// Looking in `a + b` finds the last match of `b`, else that of `a`.
proof fn lemma_find_group_concat(a: Seq<GroupModel>, b: Seq<GroupModel>, id: nat)
    ensures
        find_group(a + b, id) == match find_group(b, id) {
            Some(g) => Some(g),
            None => find_group(a, id),
        },
    decreases b.len(),
{
    if b.len() == 0 {
        assert(a + b =~= a);
    } else {
        assert((a + b).drop_last() =~= a + b.drop_last());
        assert((a + b).last() == b.last());
        lemma_find_group_concat(a, b.drop_last(), id);
    }
}

/// Tab groups by id: each id finds the last group given with it.
pub struct GroupIndex {
    map: HashMap<usize, TabsGroup>,
    given: Ghost<Seq<GroupModel>>,
}

impl GroupIndex {
    #[verifier::type_invariant]
    spec fn inv(&self) -> bool {
        forall|id: usize| #[trigger] group_at(self.map@, self.given@, id)
    }

    /// The groups, as they were given.
    pub closed spec fn given_view(&self) -> Seq<GroupModel> {
        self.given@
    }

    /// Index `groups`.
    pub fn new(groups: Vec<TabsGroup>) -> (r: Self)
        ensures
            r.given_view() == groups_model(groups@),
    {
        broadcast use vstd::std_specs::hash::group_hash_axioms;
        let ghost all = groups_model(groups@);
        let mut rest = groups;
        let mut map: HashMap<usize, TabsGroup> = HashMap::new();
        assert forall|id: usize| #[trigger] group_at(map@, all.subrange(all.len() as int, all.len() as int), id) by {
            assert(all.subrange(all.len() as int, all.len() as int) =~= Seq::<GroupModel>::empty());
        }
        while rest.len() > 0
            invariant
                all == groups_model(groups@),
                rest@.len() <= groups@.len(),
                rest@ == groups@.take(rest@.len() as int),
                all.len() == groups@.len(),
                forall|id: usize| #[trigger] group_at(map@, all.subrange(rest@.len() as int, all.len() as int), id),
            decreases rest.len(),
        {
            let ghost n = rest@.len() as int;
            let ghost r0 = rest@;
            let g = rest.pop().unwrap();
            let ghost gm = group_model(g);
            assert(g == r0[n - 1]);
            assert(r0[n - 1] == groups@[n - 1]);
            assert(all[n - 1] == gm);
            let ghost suffix = all.subrange(n, all.len() as int);
            let ghost suffix2 = all.subrange(n - 1, all.len() as int);
            assert(suffix2 =~= seq![gm] + suffix);
            let ghost m0 = map@;
            let key = g.id;
            let present = map.contains_key(&key);
            if !present {
                map.insert(key, g);
            }
            assert(present == m0.contains_key(key));
            assert(!present ==> map@ == m0.insert(key, g));
            assert(present ==> map@ == m0);
            assert(gm.0 == key as nat);
            assert forall|id: usize| #[trigger] group_at(map@, suffix2, id) by {
                assert(group_at(m0, suffix, id));
                lemma_find_group_concat(seq![gm], suffix, id as nat);
                assert(seq![gm].drop_last() =~= Seq::<GroupModel>::empty());
                assert(seq![gm].last() == gm);
                assert(find_group(Seq::<GroupModel>::empty(), id as nat) is None);
                assert(find_group(seq![gm].drop_last(), id as nat) is None);
                assert(find_group(seq![gm], id as nat) == if gm.0 == id as nat {
                    Some(gm)
                } else {
                    None::<GroupModel>
                });
                if id != key && !present {
                    assert(map@.contains_key(id) == m0.contains_key(id));
                    if m0.contains_key(id) {
                        assert(map@[id] == m0[id]);
                    }
                }
            }
            assert(rest@ =~= groups@.take(rest@.len() as int));
        }
        assert(all.subrange(0, all.len() as int) =~= all);
        GroupIndex { map, given: Ghost(all) }
    }

    /// The last group given with id `id`.
    pub fn get(&self, id: usize) -> (r: Option<&TabsGroup>)
        ensures
            match r {
                Some(g) => find_group(self.given_view(), id as nat) == Some(group_model(*g)),
                None => find_group(self.given_view(), id as nat) is None,
            },
    {
        broadcast use vstd::std_specs::hash::group_hash_axioms;
        proof {
            use_type_invariant(self);
            assert(group_at(self.map@, self.given@, id));
        }
        self.map.get(&id)
    }
}

/// Post-processor that transforms `<rw-tabs>` elements to accessible HTML.
pub struct TabsProcessor {
    groups: GroupIndex,
    warnings: Vec<String>,
}

impl TabsProcessor {
    /// The groups, as they were given.
    pub closed spec fn groups_view(&self) -> Seq<GroupModel> {
        self.groups.given_view()
    }

    pub closed spec fn warnings_view(&self) -> Seq<Seq<char>> {
        self.warnings@.map_values(|w: String| w@)
    }

    /// Create a processor for the given tab groups.
    pub fn new(groups: Vec<TabsGroup>) -> (r: Self)
        ensures
            r.groups_view() == groups_model(groups@),
            r.warnings_view() == Seq::<Seq<char>>::empty(),
    {
        let r = TabsProcessor { groups: GroupIndex::new(groups), warnings: Vec::new() };
        assert(r.warnings_view() =~= Seq::<Seq<char>>::empty());
        r
    }

    fn warn(&mut self, w: String)
        ensures
            final(self).warnings_view() == old(self).warnings_view().push(w@),
            final(self).groups_view() == old(self).groups_view(),
    {
        self.warnings.push(w);
        assert(self.warnings_view() =~= old(self).warnings_view().push(w@));
    }

    /// Transform one `<rw-tabs>` block with group id `group_id` and inner
    /// content `inner` to accessible HTML.
    pub fn transform_tabs(&mut self, group_id: usize, inner: &str) -> (r: String)
        ensures
            r@ == tabs_markup(old(self).groups_view(), group_id as nat, inner@).0,
            final(self).warnings_view() == old(self).warnings_view() + tabs_markup(
                old(self).groups_view(),
                group_id as nat,
                inner@,
            ).1,
            final(self).groups_view() == old(self).groups_view(),
    {
        let ghost gs = self.groups_view();
        match self.groups.get(group_id) {
            None => {
                let mut w = String::new();
                push_str(&mut w, "tabs group ");
                push_decimal(&mut w, group_id);
                push_str(&mut w, " not found in metadata, passing through");
                self.warn(w);
                let mut out = String::new();
                push_str(&mut out, "<rw-tabs data-id=\"");
                push_decimal(&mut out, group_id);
                push_str(&mut out, "\">");
                push_str(&mut out, inner);
                push_str(&mut out, "</rw-tabs>");
                assert(self.warnings_view() =~= old(self).warnings_view() + tabs_markup(gs, group_id as nat, inner@).1);
                out
            },
            Some(group) => {
                let ghost g = group_model(*group);
                assert(find_group(gs, group_id as nat) == Some(g));
                let mut out = String::new();
                push_str(&mut out, "<div class=\"tabs\" id=\"tabs-");
                push_decimal(&mut out, group_id);
                push_str(&mut out, "\">");
                push_str(&mut out, "<div class=\"tabs-buttons\" role=\"tablist\">");
                let ghost head = out@;
                let n = group.tabs.len();
                let mut k: usize = 0;
                while k < n
                    invariant
                        k <= n,
                        g == group_model(*group),
                        n == g.1.len(),
                        out@ == head + buttons_spec(group_id as nat, g.1, k as int),
                    decreases n - k,
                {
                    let tab = &group.tabs[k];
                    assert(g.1[k as int] == (tab.id as nat, tab.label@, tab.line as nat));
                    push_button(&mut out, group_id, tab.id, tab.label.as_str(), k == 0);
                    assert(out@ =~= head + buttons_spec(group_id as nat, g.1, k + 1));
                    k = k + 1;
                }
                push_str(&mut out, "</div>");
                let panels = parse_tab_panels(inner);
                let ghost ps = panels_from(inner@, 0);
                let ghost mid = out@;
                let ghost w0 = self.warnings_view();
                let mut k: usize = 0;
                while k < panels.len()
                    invariant
                        k <= panels@.len(),
                        panels@.map_values(|p: (usize, String)| (p.0 as nat, p.1@)) == ps,
                        g == group_model(*group),
                        self.groups_view() == gs,
                        out@ == mid + panels_spec(group_id as nat, ps, k as int),
                        self.warnings_view() == w0 + panel_warnings(group_id as nat, g.1, ps, k as int),
                    decreases panels.len() - k,
                {
                    let pid = panels[k].0;
                    assert(ps[k as int] == (pid as nat, panels@[k as int].1@));
                    if !group_has_tab(group, pid) {
                        let mut w = String::new();
                        push_str(&mut w, "tab ");
                        push_decimal(&mut w, pid);
                        push_str(&mut w, " not found in group ");
                        push_decimal(&mut w, group_id);
                        push_str(&mut w, " metadata");
                        let ghost wb = self.warnings_view();
                        self.warnings.push(w);
                        assert(self.warnings_view() =~= wb.push(w@));
                    }
                    assert(self.warnings_view() =~= w0 + panel_warnings(group_id as nat, g.1, ps, k + 1));
                    push_panel(&mut out, group_id, pid, panels[k].1.as_str(), k == 0);
                    assert(out@ =~= mid + panels_spec(group_id as nat, ps, k + 1));
                    k = k + 1;
                }
                push_str(&mut out, "</div>");
                assert(out@ =~= tabs_markup(gs, group_id as nat, inner@).0);
                out
            },
        }
    }
}

/// Whether `group` has a tab with id `id`.
fn group_has_tab(group: &TabsGroup, id: usize) -> (r: bool)
    ensures
        r == has_tab(group_model(*group).1, id as nat),
{
    let tabs = &group.tabs;
    let ghost tm = group_model(*group).1;
    let mut i: usize = 0;
    while i < tabs.len()
        invariant
            i <= tabs@.len(),
            tm == tabs@.map_values(|t: TabMetadata| crate::tabs::preprocessor::tab_model(t)),
            tm == group_model(*group).1,
            forall|j: int| 0 <= j < i ==> tm[j].0 != id as nat,
        decreases tabs.len() - i,
    {
        assert(tm[i as int].0 == tabs@[i as int].id as nat);
        if tabs[i].id == id {
            assert(tm[i as int].0 == id as nat);
            return true;
        }
        i = i + 1;
    }
    false
}

/// Appends a tab button.
pub(crate) fn push_button(out: &mut String, gid: usize, tid: usize, label: &str, first: bool)
    ensures
        final(out)@ == old(out)@ + button_spec(gid as nat, (tid as nat, label@, 0), first),
{
    let ghost o = old(out)@;
    push_str(out, "<button role=\"tab\" id=\"tab-");
    push_decimal(out, gid);
    push_str(out, "-");
    push_decimal(out, tid);
    push_str(out, "\" aria-controls=\"panel-");
    push_decimal(out, gid);
    push_str(out, "-");
    push_decimal(out, tid);
    push_str(out, "\" aria-selected=\"");
    if first {
        push_str(out, "true");
    } else {
        push_str(out, "false");
    }
    push_str(out, "\" tabindex=\"");
    if first {
        push_str(out, "0");
    } else {
        push_str(out, "-1");
    }
    push_str(out, "\">");
    escape_into(label, out);
    push_str(out, "</button>");
    assert(out@ =~= o + button_spec(gid as nat, (tid as nat, label@, 0), first));
}

/// Appends a tab panel.
fn push_panel(out: &mut String, gid: usize, pid: usize, content: &str, first: bool)
    ensures
        final(out)@ == old(out)@ + panel_spec(gid as nat, pid as nat, content@, first),
{
    let ghost o = old(out)@;
    push_str(out, "<div role=\"tabpanel\" id=\"panel-");
    push_decimal(out, gid);
    push_str(out, "-");
    push_decimal(out, pid);
    push_str(out, "\" aria-labelledby=\"tab-");
    push_decimal(out, gid);
    push_str(out, "-");
    push_decimal(out, pid);
    push_str(out, "\"");
    if first {
        push_str(out, "");
    } else {
        push_str(out, " hidden");
    }
    push_str(out, ">");
    push_str(out, content);
    push_str(out, "</div>");
    assert(out@ =~= o + panel_spec(gid as nat, pid as nat, content@, first));
}


/// The document from `i` on with each complete `<rw-tabs ...>...</rw-tabs>`
/// block transformed, and the warnings raised. A block without a parsable
/// `data-id` passes through with a warning; an unclosed tag or block, and
/// everything after it, passes through unchanged.
pub open spec fn post_from(groups: Seq<GroupModel>, s: Seq<char>, i: int) -> (Seq<char>, Seq<Seq<char>>)
    decreases s.len() - i,
{
    if i < 0 || i > s.len() {
        (Seq::empty(), Seq::empty())
    } else {
        match find_seq(s, i, "<rw-tabs"@) {
            None => (s.subrange(i, s.len() as int), Seq::empty()),
            Some(st) => match find_seq(s, st, ">"@) {
                None => (s.subrange(i, s.len() as int), Seq::empty()),
                Some(gt) => {
                    let te = gt + 1;
                    match find_seq(s, te, "</rw-tabs>"@) {
                        None => (s.subrange(i, s.len() as int), Seq::empty()),
                        Some(cs) => {
                            let ce = cs + "</rw-tabs>"@.len();
                            proof {
                                lemma_find_from(s, i, s.len() + 1int, "<rw-tabs"@);
                                lemma_find_from(s, st, s.len() + 1int, ">"@);
                                lemma_find_from(s, te, s.len() + 1int, "</rw-tabs>"@);
                            }
                            let (piece, w) = match data_id_spec(s.subrange(st, te)) {
                                Some(id) => tabs_markup(groups, id, s.subrange(te, cs)),
                                None => (s.subrange(st, ce), seq!["rw-tabs element without data-id"@]),
                            };
                            let (rest, w2) = post_from(groups, s, ce);
                            (s.subrange(i, st) + piece + rest, w + w2)
                        },
                    }
                },
            },
        }
    }
}

/// A number written in decimal reads back as itself.
proof fn lemma_decimal_digits(n: nat)
    ensures
        all_digits(decimal(n)),
        digits_value(decimal(n)) == n,
    decreases n,
{
    lemma_decimal_len(n);
    let d = (n % 10) as int;
    assert((digit_char(d) as u32) - ('0' as u32) == d) by {
        assert(0 <= d < 10);
        if d == 0 {} else if d == 1 {} else if d == 2 {} else if d == 3 {} else if d == 4 {}
        else if d == 5 {} else if d == 6 {} else if d == 7 {} else if d == 8 {} else {}
    }
    assert(digits_value(decimal(n)) == digits_value(decimal(n).drop_last()) * 10 + ((decimal(n).last() as u32) - (
    '0' as u32)) as nat);
    if n >= 10 {
        lemma_decimal_digits(n / 10);
        assert(decimal(n).drop_last() =~= decimal(n / 10));
        assert(decimal(n).last() == digit_char(d));
        assert((n / 10) * 10 + d == n);
    } else {
        assert(decimal(n).drop_last() =~= Seq::<char>::empty());
        assert(decimal(n).last() == digit_char(d));
    }
}

/// The opening tag of a tab group with `data-id` `n`, as the walk writes it.
pub open spec fn group_tag(n: nat) -> Seq<char> {
    "<rw-tabs data-id=\""@ + decimal(n) + "\">"@
}

/// A document without a `<rw-tabs` tag comes back unchanged, with no
/// warning.
pub proof fn lemma_post_plain(groups: Seq<GroupModel>, html: Seq<char>)
    requires
        forall|m: int| !#[trigger] matches_at(html, m, "<rw-tabs"@),
    ensures
        post_from(groups, html, 0) == (html, Seq::<Seq<char>>::empty()),
{
    lemma_find_from_none(html, 0, html.len() + 1int, "<rw-tabs"@);
    assert(html.subrange(0, html.len() as int) =~= html);
}

/// One tab group element amid text that holds no other: it becomes what
/// `tabs_markup` makes of its group and its inner HTML (the tab markup for
/// a known group; for an unknown one the element as it was, with a
/// warning), and the text around it is kept.
pub proof fn lemma_post_single(
    groups: Seq<GroupModel>,
    pre: Seq<char>,
    n: nat,
    inner: Seq<char>,
    post: Seq<char>,
)
    requires
        n <= usize::MAX,
        forall|m: int| !#[trigger] matches_at(pre, m, "<rw-tabs"@),
        forall|m: int| !#[trigger] matches_at(inner, m, "</rw-tabs>"@),
        forall|m: int| !#[trigger] matches_at(post, m, "<rw-tabs"@),
    ensures
        post_from(groups, pre + group_tag(n) + inner + "</rw-tabs>"@ + post, 0) == (
            pre + tabs_markup(groups, n, inner).0 + post,
            tabs_markup(groups, n, inner).1,
        ),
{
    reveal_strlit("<rw-tabs");
    reveal_strlit("</rw-tabs>");
    reveal_strlit(">");
    reveal_strlit("<rw-tabs data-id=\"");
    reveal_strlit("\">");
    reveal_strlit("data-id=\"");
    reveal_strlit("\"");
    let open = "<rw-tabs"@;
    let close = "</rw-tabs>"@;
    let tag = group_tag(n);
    let dec = decimal(n);
    lemma_decimal_len(n);
    lemma_decimal_digits(n);
    let html = pre + tag + inner + close + post;
    let p = pre.len() as int;
    let t = tag.len() as int;
    let te = p + t;
    let cs = te + inner.len();
    let ce = cs + 10;
    assert(tag.len() == 20 + dec.len());
    assert(html.len() == ce + post.len());
    assert(html.subrange(0, p) =~= pre);
    assert(html.subrange(p, te) =~= tag);
    assert(html.subrange(te, cs) =~= inner);
    assert(html.subrange(cs, ce) =~= close);
    assert(html.subrange(ce, html.len() as int) =~= post);
    // The tag is the first `<rw-tabs`.
    assert(matches_at(html, p, open)) by {
        assert(html.subrange(p, p + 8) =~= open);
    }
    assert forall|m: int| 0 <= m < p implies !matches_at(html, m, open) by {
        if m + 8 <= p {
            lemma_matches_inside(html, 0, p, m, open);
        } else {
            assert(html[p] == '<');
            lemma_no_straddle(html, open, '<', p, m);
        }
    }
    lemma_find_from_is(html, 0, html.len() + 1int, open, p);
    // Its `>` is the tag's last character.
    assert(matches_at(html, te - 1, ">"@)) by {
        assert(html.subrange(te - 1, te) =~= ">"@);
    }
    assert forall|m: int| p <= m < te - 1 implies !matches_at(html, m, ">"@) by {
        assert(html[m] == tag[m - p]);
        if m - p >= 18 && m - p < 18 + dec.len() {
            assert(tag[m - p] == dec[m - p - 18]);
        }
        assert(html.subrange(m, m + 1)[0] == html[m]);
    }
    lemma_find_from_is(html, p, html.len() + 1int, ">"@, te - 1);
    // The first `</rw-tabs>` after it closes it.
    assert(matches_at(html, cs, close)) by {
        assert(html.subrange(cs, cs + 10) =~= close);
    }
    assert forall|m: int| te <= m < cs implies !matches_at(html, m, close) by {
        if m + 10 <= cs {
            lemma_matches_inside(html, te, cs, m, close);
        } else {
            assert(html[cs] == '<');
            lemma_no_straddle(html, close, '<', cs, m);
        }
    }
    lemma_find_from_is(html, te, html.len() + 1int, close, cs);
    // Nothing after it opens another group.
    assert forall|m: int| ce <= m < html.len() + 1 implies !matches_at(html, m, open) by {
        if m + 8 <= html.len() {
            lemma_matches_inside(html, ce, html.len() as int, m, open);
        }
    }
    lemma_find_from_none(html, ce, html.len() + 1int, open);
    assert(post_from(groups, html, ce) == (post, Seq::<Seq<char>>::empty()));
    // The tag's `data-id` is `n`.
    let did = "data-id=\""@;
    assert(matches_at(tag, 9, did)) by {
        assert(tag.subrange(9, 18) =~= did);
    }
    assert forall|m: int| 0 <= m < 9 implies !matches_at(tag, m, did) by {
        assert(tag.subrange(m, m + 9)[0] == tag[m]);
    }
    lemma_find_from_is(tag, 0, tag.len() + 1int, did, 9);
    let ve = 18 + dec.len() as int;
    assert(matches_at(tag, ve, "\""@)) by {
        assert(tag.subrange(ve, ve + 1) =~= "\""@);
    }
    assert forall|m: int| 18 <= m < ve implies !matches_at(tag, m, "\""@) by {
        assert(tag[m] == dec[m - 18]);
        assert(tag.subrange(m, m + 1)[0] == tag[m]);
    }
    lemma_find_from_is(tag, 18, tag.len() + 1int, "\""@, ve);
    assert(tag.subrange(18, ve) =~= dec);
    assert(data_id_spec(tag) == Some(n));
    assert(html.subrange(0, p) + tabs_markup(groups, n, inner).0 + post =~= pre + tabs_markup(groups, n, inner).0 + post);
    assert(tabs_markup(groups, n, inner).1 + Seq::<Seq<char>>::empty() =~= tabs_markup(groups, n, inner).1);
}

impl CodeBlockProcessor for TabsProcessor {
    open spec fn bundles_by_spec(&self) -> bool {
        true
    }

    open spec fn warns_by_spec(&self) -> bool {
        true
    }

    open spec fn warnings_spec(&self) -> Seq<Seq<char>> {
        self.warnings_view()
    }

    open spec fn refs_by_spec(&self) -> bool {
        true
    }

    /// Tabs reference no section.
    fn section_refs(&self) -> (r: Vec<String>)
        ensures
            r@.len() == 0,
    {
        Vec::new()
    }

    /// Tabs have nothing to bundle.
    fn bundle(&mut self, language: &str, source: &str) -> (r: Option<String>) {
        None
    }

    /// Tabs are not code blocks: every block passes through.
    fn process(&mut self, language: &str, attrs: &FenceAttrs, source: &str, index: usize) -> (r: ProcessResult)
        ensures
            r == ProcessResult::PassThrough,
    {
        ProcessResult::PassThrough
    }

    /// Replace every `<rw-tabs>` block of `html` with accessible markup.
    #[verifier::rlimit(40)]
    #[verifier::spinoff_prover]
    fn post_process(&mut self, html: &mut String)
        ensures
            final(html)@ == post_from(old(self).groups_view(), old(html)@, 0).0,
            final(self).warnings_view() == old(self).warnings_view() + post_from(
                old(self).groups_view(),
                old(html)@,
                0,
            ).1,
    {
        proof {
            reveal_strlit(">");
            reveal_strlit("</rw-tabs>");
        }
        let v = chars_of(html.as_str());
        let ghost s = v@;
        let ghost gs = self.groups_view();
        let ghost w0 = self.warnings_view();
        let vlen = v.len();
        let open = chars_of("<rw-tabs");
        let gt = chars_of(">");
        let close = chars_of("</rw-tabs>");
        let mut out = String::new();
        let mut i: usize = 0;
        loop
            invariant_except_break
                out@ + post_from(gs, s, i as int).0 == post_from(gs, s, 0).0,
                self.warnings_view() + post_from(gs, s, i as int).1 == w0 + post_from(gs, s, 0).1,
            invariant
                i <= s.len(),
                s == v@,
                vlen == s.len(),
                open@ == "<rw-tabs"@,
                gt@ == ">"@,
                gt@.len() == 1,
                close@ == "</rw-tabs>"@,
                close@.len() == 10,
                self.groups_view() == gs,
            ensures
                out@ == post_from(gs, s, 0).0,
                self.warnings_view() == w0 + post_from(gs, s, 0).1,
            decreases s.len() - i,
        {
            let ghost o = out@;
            let ghost wv = self.warnings_view();
            let st = match find_at(v.as_slice(), i, open.as_slice()) {
                None => {
                    push_range(&mut out, v.as_slice(), i, vlen);
                    assert(wv + post_from(gs, s, i as int).1 =~= wv);
                    break;
                },
                Some(st) => st,
            };
            let g = match find_at(v.as_slice(), st, gt.as_slice()) {
                None => {
                    push_range(&mut out, v.as_slice(), i, vlen);
                    assert(wv + post_from(gs, s, i as int).1 =~= wv);
                    break;
                },
                Some(g) => g,
            };
            assert(g + gt@.len() <= s.len());
            let te = g + 1;
            let cs = match find_at(v.as_slice(), te, close.as_slice()) {
                None => {
                    push_range(&mut out, v.as_slice(), i, vlen);
                    assert(wv + post_from(gs, s, i as int).1 =~= wv);
                    break;
                },
                Some(cs) => cs,
            };
            assert(cs + close@.len() <= s.len());
            let ce = cs + close.len();
            proof {
                lemma_find_from(s, i as int, s.len() + 1int, "<rw-tabs"@);
                lemma_find_from(s, st as int, s.len() + 1int, ">"@);
            }
            push_range(&mut out, v.as_slice(), i, st);
            let tag = crate::text::sub_vec(v.as_slice(), st, te);
            match parse_data_id_chars(tag.as_slice()) {
                Some(id) => {
                    let inner = string_of_range(v.as_slice(), te, cs);
                    let piece = self.transform_tabs(id, inner.as_str());
                    push_str(&mut out, piece.as_str());
                },
                None => {
                    self.warn("rw-tabs element without data-id".to_owned());
                    push_range(&mut out, v.as_slice(), st, ce);
                },
            }
            let ghost step = post_from(gs, s, i as int);
            let ghost rest = post_from(gs, s, ce as int);
            assert(out@ + rest.0 =~= o + step.0);
            assert(self.warnings_view() + rest.1 =~= wv + step.1);
            i = ce;
        }
        *html = out;
    }

    /// Warnings collected during processing.
    fn warnings(&self) -> (r: &[String])
        ensures
            r@.map_values(|w: String| w@) == self.warnings_view(),
    {
        self.warnings.as_slice()
    }
}

} // verus!
