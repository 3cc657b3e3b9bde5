use rw_renderer::directive::fills::{GlobalFills, GlobalKey, Source};
use rw_renderer::directive::{Fills, HoleKey};
use rw_renderer::holes::Holes;

#[test]
fn get_returns_set_value() {
    let mut fills = Fills::new();
    fills.set(7, "<div>".to_owned());
    assert_eq!(fills.get(7), Some("<div>"));
}

#[test]
fn get_returns_none_for_unset_key() {
    let fills = Fills::new();
    assert_eq!(fills.get(7), None);
}

#[test]
fn set_twice_keeps_last() {
    let mut fills = Fills::new();
    fills.set(1, "first".to_owned());
    fills.set(1, "second".to_owned());
    assert_eq!(fills.get(1), Some("second"));
}

#[test]
fn merge_keys_entries_under_their_namespace() {
    let mut first = Fills::new();
    first.set(0, "a".to_owned());
    let mut second = Fills::new();
    second.set(0, "b".to_owned());

    let mut global: GlobalFills<u32> = GlobalFills::default();
    global.merge(1, first);
    global.merge(2, second);

    // Same local key, different handlers — no collision.
    assert_eq!(global.get(GlobalKey(1, 0)), Some("a"));
    assert_eq!(global.get(GlobalKey(2, 0)), Some("b"));
    assert_eq!(global.get(GlobalKey(3, 0)), None);
}

#[test]
fn total_len_tracks_merged_content() {
    let mut fills = Fills::new();
    fills.set(0, "abc".to_owned());
    fills.set(1, "de".to_owned());

    let mut global: GlobalFills<u32> = GlobalFills::default();
    global.merge(1, fills);

    assert_eq!(global.total_len(), 5);
}

#[test]
fn fills_total_len_discounts_replaced_content() {
    let mut global: GlobalFills<u32> = GlobalFills::default();

    let mut first = Fills::new();
    first.set(0, "long fill".to_owned());
    global.merge(1, first);

    let mut replacement = Fills::new();
    replacement.set(0, "short".to_owned());
    global.merge(1, replacement);

    assert_eq!(global.get(GlobalKey(1, 0)), Some("short"));
    assert_eq!(global.total_len(), "short".len());
}

#[test]
fn get_returns_inserted_value() {
    let mut fills = GlobalFills::default();
    fills.insert(GlobalKey(Source::Diagram, 7), "<div>".to_owned());
    assert_eq!(fills.get(GlobalKey(Source::Diagram, 7)), Some("<div>"));
}

#[test]
fn get_returns_none_for_an_unset_key() {
    let fills = GlobalFills::default();
    assert_eq!(fills.get(GlobalKey(Source::Diagram, 7)), None);
}

#[test]
fn a_key_is_scoped_to_its_source() {
    let mut fills = GlobalFills::default();
    fills.insert(GlobalKey(Source::Diagram, 0), "a".to_owned());
    fills.insert(GlobalKey(Source::Tabs, 0), "b".to_owned());

    // Same local key, different owners — no collision. A tab group's bar
    // hole and the first code block's diagram hole are both keyed `0`.
    assert_eq!(fills.get(GlobalKey(Source::Diagram, 0)), Some("a"));
    assert_eq!(fills.get(GlobalKey(Source::Tabs, 0)), Some("b"));
}

#[test]
fn total_len_tracks_inserted_content() {
    let mut fills = GlobalFills::default();
    fills.insert(GlobalKey(Source::Diagram, 0), "abc".to_owned());
    fills.insert(GlobalKey(Source::Tabs, 1), "de".to_owned());

    assert_eq!(fills.total_len(), 5);
}

#[test]
fn total_len_discounts_replaced_content() {
    let mut fills = GlobalFills::default();
    fills.insert(GlobalKey(Source::Diagram, 0), "long fill".to_owned());
    fills.insert(GlobalKey(Source::Diagram, 0), "short".to_owned());

    assert_eq!(fills.get(GlobalKey(Source::Diagram, 0)), Some("short"));
    assert_eq!(fills.total_len(), "short".len());
}

const SOURCE: Source = Source::Leaf(0);

fn fills(entries: &[(HoleKey, &str)]) -> GlobalFills<Source> {
    let mut local = Fills::new();
    for (key, html) in entries {
        local.set(*key, (*html).to_owned());
    }
    let mut global = GlobalFills::default();
    global.merge(SOURCE, local);
    global
}

fn passthrough(fill: &str, out: &mut String) {
    out.push_str(fill);
}

#[test]
fn no_holes_returns_source_unchanged() {
    let holes = Holes::default();
    let out = holes.assemble("<p>hi</p>".to_owned(), &fills(&[]), passthrough);
    assert_eq!(out, "<p>hi</p>");
}

#[test]
fn single_hole_splices_at_offset() {
    let mut holes = Holes::default();
    holes.reserve(3, GlobalKey(SOURCE, 1));
    assert_eq!(
        holes.assemble("abcdef".to_owned(), &fills(&[(1, "MID")]), passthrough),
        "abcMIDdef"
    );
}

#[test]
fn hole_at_start_and_end() {
    let mut holes = Holes::default();
    holes.reserve(0, GlobalKey(SOURCE, 1));
    holes.reserve(3, GlobalKey(SOURCE, 2));
    assert_eq!(
        holes.assemble("abc".to_owned(), &fills(&[(1, "<"), (2, ">")]), passthrough),
        "<abc>"
    );
}

#[test]
fn two_holes_at_same_offset_keep_reservation_order() {
    let mut holes = Holes::default();
    holes.reserve(2, GlobalKey(SOURCE, 1));
    holes.reserve(2, GlobalKey(SOURCE, 2));
    assert_eq!(
        holes.assemble("ab".to_owned(), &fills(&[(1, "["), (2, "]")]), passthrough),
        "ab[]"
    );
}

#[test]
fn holes_from_different_sources_do_not_collide() {
    let mut holes = Holes::default();
    holes.reserve(1, GlobalKey(Source::Leaf(0), 0));
    holes.reserve(1, GlobalKey(Source::Container(0), 0));

    let mut first = Fills::new();
    first.set(0, "[one]".to_owned());
    let mut second = Fills::new();
    second.set(0, "[two]".to_owned());
    let mut global = GlobalFills::default();
    global.merge(Source::Leaf(0), first);
    global.merge(Source::Container(0), second);

    assert_eq!(
        holes.assemble("ab".to_owned(), &global, passthrough),
        "a[one][two]b"
    );
}

#[test]
fn fills_go_through_the_writer() {
    let mut holes = Holes::default();
    holes.reserve(2, GlobalKey(SOURCE, 1));
    // A backend that drops markup (SearchDocumentBackend) drops fills too.
    let dropped = holes.assemble("ab".to_owned(), &fills(&[(1, "<b>")]), |_, _| {});
    assert_eq!(dropped, "ab");
}

#[test]
fn fills_total_bytes_counts_utf8_bytes() {
    let mut fills = Fills::new();
    fills.set(0, "é".to_owned());
    fills.set(1, "ab".to_owned());
    assert_eq!(fills.total_bytes(), Some(4));
}

#[test]
fn merge_replaces_an_entry_already_under_the_namespace() {
    let mut global: GlobalFills<u32> = GlobalFills::new();
    global.insert(GlobalKey(1, 0), "old".to_owned());
    let mut local = Fills::new();
    local.set(0, "new!".to_owned());
    local.set(5, "x".to_owned());
    global.merge(1, local);
    assert_eq!(global.get(GlobalKey(1, 0)), Some("new!"));
    assert_eq!(global.get(GlobalKey(1, 5)), Some("x"));
    assert_eq!(global.total_len(), 5);
}

#[test]
fn holes_on_the_code_block_source_stay_apart() {
    let mut holes = Holes::new();
    holes.reserve(0, GlobalKey(Source::CodeBlock(0), 0));
    holes.reserve(1, GlobalKey(Source::CodeBlock(1), 0));
    let mut global = GlobalFills::default();
    global.insert(GlobalKey(Source::CodeBlock(0), 0), "<0>".to_owned());
    global.insert(GlobalKey(Source::CodeBlock(1), 0), "<1>".to_owned());
    assert_eq!(holes.assemble("xy".to_owned(), &global, passthrough), "<0>x<1>y");
}
