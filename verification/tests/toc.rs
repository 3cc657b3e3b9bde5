use rw_renderer::toc::HeadingAccumulator;

#[test]
fn toc_test_heading_accumulator_html_mode() {
    // HTML mode: extract_title=true, title_as_metadata=false
    // First H1 is captured as title AND emitted.
    let mut acc = HeadingAccumulator::new(true, false);

    // First H1: not skipped — caller pushes Scope::Heading with in_first_h1=false
    // and routes through complete_heading.
    assert!(!acc.is_skipped_title(1));
    let done = acc.complete_heading(1, "My Title", "My Title".to_owned());
    assert_eq!(done.adjusted_level, 1);
    assert_eq!(done.id, "my-title");
    assert_eq!(done.rendered_html, "My Title");

    // H2: rendered at level 2 (no shift in HTML mode).
    let done = acc.complete_heading(2, "Section", "Section".to_owned());
    assert_eq!(done.adjusted_level, 2);

    assert_eq!(acc.take_title(), Some("My Title".to_owned()));
    // Title is NOT in the TOC; only H2 is.
    let toc = acc.take_toc();
    assert_eq!(toc.len(), 1);
    assert_eq!(toc[0].level, 2);
    assert_eq!(toc[0].title, "Section");
    assert_eq!(toc[0].id, "section");
}

#[test]
fn toc_test_heading_accumulator_confluence_mode() {
    // Confluence mode: extract_title=true, title_as_metadata=true
    // First H1 is title-extracted and NOT emitted; subsequent levels shift up by one.
    let mut acc = HeadingAccumulator::new(true, true);

    // First H1: skipped — caller pushes Scope::Heading with in_first_h1=true
    // and routes through complete_first_h1.
    assert!(acc.is_skipped_title(1));
    acc.complete_first_h1("My Title");

    // After the skipped first H1, is_skipped_title now returns false.
    assert!(!acc.is_skipped_title(1));

    // H2 shifts to level 1.
    let done = acc.complete_heading(2, "Section", "Section".to_owned());
    assert_eq!(done.adjusted_level, 1);

    assert_eq!(acc.take_title(), Some("My Title".to_owned()));
    // Skipped first H1 must NOT appear in the TOC; only the level-shifted H2.
    let toc = acc.take_toc();
    assert_eq!(toc.len(), 1);
    assert_eq!(toc[0].level, 1, "H2 shifts to level 1 in Confluence mode");
    assert_eq!(toc[0].title, "Section");
    assert_eq!(toc[0].id, "section");
}

#[test]
fn test_generate_id_suffix_collision_is_unique() {
    // "Foo 1" slugifies to "foo-1", which must NOT collide with the
    // second "Foo" (which would otherwise also become "foo-1").
    let mut acc = HeadingAccumulator::new(false, false);
    let a = acc.complete_heading(2, "Foo", "Foo".to_owned());
    let b = acc.complete_heading(2, "Foo 1", "Foo 1".to_owned());
    let c = acc.complete_heading(2, "Foo", "Foo".to_owned());
    assert_eq!(a.id, "foo");
    assert_eq!(b.id, "foo-1");
    assert_eq!(c.id, "foo-2", "second 'Foo' must not reuse 'foo-1'");
}

#[test]
fn test_generate_id_empty_slug_falls_back_to_section() {
    // Headings with no slug characters must not produce empty ids.
    let mut acc = HeadingAccumulator::new(false, false);
    let a = acc.complete_heading(2, "???", "???".to_owned());
    let b = acc.complete_heading(2, "!!!", "!!!".to_owned());
    assert_eq!(a.id, "section");
    assert_eq!(b.id, "section-1");
}

#[test]
fn test_generate_id_empty_slug_yields_to_real_section_heading() {
    // A real "Section" heading claims "section"; the no-slug heading
    // is suffixed (document order: real heading first here).
    let mut acc = HeadingAccumulator::new(false, false);
    let a = acc.complete_heading(2, "Section", "Section".to_owned());
    let b = acc.complete_heading(2, "???", "???".to_owned());
    assert_eq!(a.id, "section");
    assert_eq!(b.id, "section-1");
}

#[test]
fn test_generate_id_real_slug_collides_with_section_fallback() {
    // A real heading slugging to "section-1" must not be reused by the
    // empty-slug fallback's "section" + "-1" suffix.
    let mut acc = HeadingAccumulator::new(false, false);
    let a = acc.complete_heading(2, "Section 1", "Section 1".to_owned());
    let b = acc.complete_heading(2, "???", "???".to_owned());
    let c = acc.complete_heading(2, "???", "???".to_owned());
    assert_eq!(a.id, "section-1");
    assert_eq!(b.id, "section");
    assert_eq!(
        c.id, "section-2",
        "fallback must skip the taken 'section-1'"
    );
}

#[test]
fn test_generate_id_synthesized_id_reused_as_a_base() {
    // "foo-1" is handed out as a *synthesized* suffix, then a later
    // heading slugifies to that same string as its *base*. One map now
    // holds both roles, so this is where the id-set and the suffix-counter
    // could disagree: the base must see itself as taken and skip past it.
    let mut acc = HeadingAccumulator::new(false, false);
    let a = acc.complete_heading(2, "Foo", "Foo".to_owned());
    let b = acc.complete_heading(2, "Foo", "Foo".to_owned());
    let c = acc.complete_heading(2, "Foo 1", "Foo 1".to_owned());
    let d = acc.complete_heading(2, "Foo 1", "Foo 1".to_owned());
    assert_eq!(a.id, "foo");
    assert_eq!(b.id, "foo-1");
    assert_eq!(c.id, "foo-1-1", "base 'foo-1' was already handed out");
    assert_eq!(d.id, "foo-1-2");
}

#[test]
fn test_generate_id_repeated_headings_increment_via_hint() {
    // Four identical headings increment monotonically (id_counts hint path).
    let mut acc = HeadingAccumulator::new(false, false);
    let ids: Vec<String> = (0..4)
        .map(|_| acc.complete_heading(2, "Setup", "Setup".to_owned()).id)
        .collect();
    assert_eq!(ids, ["setup", "setup-1", "setup-2", "setup-3"]);
}

#[test]
fn state_test_heading_accumulator_html_mode() {
    // HTML mode: extract_title=true, title_as_metadata=false
    // First H1 is captured as title AND emitted.
    let mut acc = HeadingAccumulator::new(true, false);

    // First H1: not skipped — caller pushes Scope::Heading with in_first_h1=false
    // and routes through complete_heading.
    assert!(!acc.is_skipped_title(1));
    let done = acc.complete_heading(1, "My Title", "My Title".to_owned());
    assert_eq!(done.adjusted_level, 1);
    assert_eq!(done.id, "my-title");
    assert_eq!(done.rendered_html, "My Title");

    // H2: rendered at level 2 (no shift in HTML mode).
    let done = acc.complete_heading(2, "Section", "Section".to_owned());
    assert_eq!(done.adjusted_level, 2);

    assert_eq!(acc.take_title(), Some("My Title".to_owned()));
    // Title is NOT in the TOC; only H2 is.
    let toc = acc.take_toc();
    assert_eq!(toc.len(), 1);
    assert_eq!(toc[0].level, 2);
    assert_eq!(toc[0].title, "Section");
    assert_eq!(toc[0].id, "section");
}

#[test]
fn state_test_heading_accumulator_confluence_mode() {
    // Confluence mode: extract_title=true, title_as_metadata=true
    // First H1 is title-extracted and NOT emitted; subsequent levels shift up by one.
    let mut acc = HeadingAccumulator::new(true, true);

    // First H1: skipped — caller pushes Scope::Heading with in_first_h1=true
    // and routes through complete_first_h1.
    assert!(acc.is_skipped_title(1));
    acc.complete_first_h1("My Title");

    // After the skipped first H1, is_skipped_title now returns false.
    assert!(!acc.is_skipped_title(1));

    // H2 shifts to level 1.
    let done = acc.complete_heading(2, "Section", "Section".to_owned());
    assert_eq!(done.adjusted_level, 1);

    assert_eq!(acc.take_title(), Some("My Title".to_owned()));
    // Skipped first H1 must NOT appear in the TOC; only the level-shifted H2.
    let toc = acc.take_toc();
    assert_eq!(toc.len(), 1);
    assert_eq!(toc[0].level, 1, "H2 shifts to level 1 in Confluence mode");
    assert_eq!(toc[0].title, "Section");
    assert_eq!(toc[0].id, "section");
}

#[test]
fn title_extraction_off_keeps_every_heading_in_the_toc() {
    let mut acc = HeadingAccumulator::new(false, true);
    assert!(!acc.is_skipped_title(1));
    let a = acc.complete_heading(1, "Top", "<b>Top</b>".to_owned());
    assert_eq!(a.adjusted_level, 1);
    assert_eq!(a.rendered_html, "<b>Top</b>");
    assert_eq!(acc.take_title(), None);
    let toc = acc.take_toc();
    assert_eq!(toc.len(), 1);
    assert_eq!(toc[0].title, "Top");
}

#[test]
fn only_the_first_h1_is_the_title() {
    let mut acc = HeadingAccumulator::new(true, false);
    acc.complete_heading(1, "One", "One".to_owned());
    acc.complete_heading(1, "Two", "Two".to_owned());
    assert_eq!(acc.take_title(), Some("One".to_owned()));
    let toc = acc.take_toc();
    assert_eq!(toc.len(), 1);
    assert_eq!(toc[0].id, "two");
    assert_eq!(toc[0].level, 1);
}
