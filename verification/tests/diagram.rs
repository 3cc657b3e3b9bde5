use rw_renderer::diagram::{splice_link_attrs, write_diagram_id_attr, DiagramLink};
use rw_renderer::link::{link_base, strip_origin, write_section_attrs};

fn spliced(svg: &str, links: &[DiagramLink]) -> String {
    let mut out = String::new();
    splice_link_attrs(svg, links, &mut out);
    out
}

fn diagram_id_attr(id: Option<&str>) -> String {
    let mut out = String::new();
    write_diagram_id_attr(id, &mut out);
    out
}

#[test]
fn splicing_escapes_the_attribute_values() {
    let svg = r#"<svg><a href="/x">x</a></svg>"#;
    let links = [DiagramLink {
        href: "/x".to_owned(),
        section_ref: r#"domain:default/a"b"#.to_owned(),
        section_path: "p<q".to_owned(),
    }];
    assert_eq!(
        spliced(svg, &links),
        r#"<svg><a href="/x" data-section-ref="domain:default/a&quot;b" data-section-path="p&lt;q">x</a></svg>"#
    );
}

#[test]
fn splicing_no_links_returns_the_input() {
    let svg = r#"<svg><a href="/x">x</a></svg>"#;
    assert_eq!(spliced(svg, &[]), svg);
}

#[test]
fn both_writers_append_to_what_the_caller_already_holds() {
    let mut out = String::from("<figure");
    write_diagram_id_attr(Some("flow-1"), &mut out);
    out.push('>');
    splice_link_attrs(
        r#"<svg><a href="/x">x</a></svg>"#,
        &[DiagramLink {
            href: "/x".to_owned(),
            section_ref: "domain:default/billing".to_owned(),
            section_path: String::new(),
        }],
        &mut out,
    );
    out.push_str("</figure>");

    assert_eq!(
        out,
        r#"<figure data-diagram-id="flow-1"><svg><a href="/x" data-section-ref="domain:default/billing">x</a></svg></figure>"#
    );
}

#[test]
fn a_splice_that_matches_nothing_leaves_the_prefix_alone() {
    let mut out = String::from("before:");
    splice_link_attrs(
        r#"<svg><a href="/unmatched">x</a></svg>"#,
        &[DiagramLink {
            href: "/other".to_owned(),
            section_ref: "domain:default/billing".to_owned(),
            section_path: String::new(),
        }],
        &mut out,
    );
    assert_eq!(out, r#"before:<svg><a href="/unmatched">x</a></svg>"#);
}

#[test]
fn diagram_id_attr_has_a_leading_space() {
    assert_eq!(diagram_id_attr(Some("flow-1")), r#" data-diagram-id="flow-1""#);
}

#[test]
fn diagram_id_attr_escapes_the_id() {
    assert_eq!(diagram_id_attr(Some(r#"a"b<c"#)), r#" data-diagram-id="a&quot;b&lt;c""#);
}

#[test]
fn diagram_id_attr_is_empty_without_an_id() {
    assert_eq!(diagram_id_attr(None), "");
}

#[test]
fn splicing_annotates_every_matching_tag_and_skips_xlink() {
    let links = [
        DiagramLink { href: "/a".to_owned(), section_ref: "r:a".to_owned(), section_path: "p".to_owned() },
        DiagramLink { href: "/a".to_owned(), section_ref: "r:second".to_owned(), section_path: String::new() },
    ];
    let svg = r#"<a xlink:href="/a">1</a><a href="/a" id="q">2</a><a>3</a><a href="/b">4</a><a href="/a">5</a>"#;
    assert_eq!(
        spliced(svg, &links),
        r#"<a xlink:href="/a">1</a><a href="/a" id="q" data-section-ref="r:a" data-section-path="p">2</a><a>3</a><a href="/b">4</a><a href="/a" data-section-ref="r:a" data-section-path="p">5</a>"#
    );
}

#[test]
fn splicing_stops_at_a_tag_without_a_closing_bracket() {
    let links = [DiagramLink { href: "/a".to_owned(), section_ref: "r".to_owned(), section_path: String::new() }];
    assert_eq!(spliced(r#"<a href="/a""#, &links), r#"<a href="/a""#);
}

#[test]
fn section_attrs_omit_an_empty_path() {
    let mut out = String::new();
    write_section_attrs("k:n/a", "", &mut out);
    assert_eq!(out, r#" data-section-ref="k:n/a""#);
    let mut out = String::new();
    write_section_attrs("k", "a&b", &mut out);
    assert_eq!(out, r#" data-section-ref="k" data-section-path="a&amp;b""#);
}

#[test]
fn link_base_is_dir_returns_base_unchanged() {
    assert_eq!(link_base(Some("/specs/notif"), true).as_deref(), Some("/specs/notif"));
}

#[test]
fn link_base_leaf_drops_last_segment() {
    assert_eq!(link_base(Some("/specs/notif"), false).as_deref(), Some("/specs"));
}

#[test]
fn link_base_leaf_at_root_drops_to_root() {
    assert_eq!(link_base(Some("/guide"), false).as_deref(), Some("/"));
}

#[test]
fn link_base_none_when_unset() {
    assert_eq!(link_base(None, false), None);
}

#[test]
fn link_base_ignores_trailing_slashes() {
    assert_eq!(link_base(Some("/a/b//"), false).as_deref(), Some("/a"));
    assert_eq!(link_base(Some("plain"), false).as_deref(), Some("/"));
}

#[test]
fn strip_origin_no_prefix_returns_borrowed_url_unchanged() {
    assert_eq!(strip_origin(None, "docs/guide.md"), "docs/guide.md");
}

#[test]
fn strip_origin_matching_prefix_strips_and_borrows() {
    assert_eq!(strip_origin(Some("docs/"), "docs/guide.md"), "guide.md");
}

#[test]
fn strip_origin_non_matching_prefix_returns_borrowed_url_unchanged() {
    assert_eq!(strip_origin(Some("docs/"), "other/page.md"), "other/page.md");
}

use rw_renderer::diagram::resolve_ids;

#[test]
fn auto_ids_number_by_diagram_position_not_code_block_index() {
    let mut warnings = Vec::new();
    let ids = resolve_ids(&[None, None], &[0, 2], &mut warnings);
    assert_eq!(ids, ["diagram-0", "diagram-1"]);
    assert!(!ids.contains(&"diagram-2".to_owned()));
    assert!(warnings.is_empty());
}

#[test]
fn duplicate_explicit_ids_warn_once_naming_both_fences() {
    let mut warnings = Vec::new();
    resolve_ids(&[Some("flow".to_owned()), Some("flow".to_owned())], &[0, 2], &mut warnings);
    assert_eq!(warnings, ["diagram 2: duplicate id 'flow' (already used by diagram 0)"]);
}

#[test]
fn an_explicit_id_colliding_with_an_auto_id_warns() {
    let mut warnings = Vec::new();
    resolve_ids(&[Some("diagram-1".to_owned()), None], &[0, 1], &mut warnings);
    assert_eq!(warnings, ["diagram 1: duplicate id 'diagram-1' (already used by diagram 0)"]);
}

#[test]
fn every_later_duplicate_names_the_first_use() {
    let mut warnings = vec!["earlier".to_owned()];
    let ids = resolve_ids(
        &[Some("flow".to_owned()), Some("x".to_owned()), Some("flow".to_owned()), Some("flow".to_owned())],
        &[2, 5, 9, 11],
        &mut warnings,
    );
    assert_eq!(ids, ["flow", "x", "flow", "flow"]);
    assert_eq!(
        warnings,
        [
            "earlier",
            "diagram 9: duplicate id 'flow' (already used by diagram 2)",
            "diagram 11: duplicate id 'flow' (already used by diagram 2)",
        ]
    );
}

#[test]
fn only_diagrams_with_a_block_index_are_checked() {
    let mut warnings = Vec::new();
    let ids = resolve_ids(&[Some("a".to_owned()), Some("a".to_owned())], &[4], &mut warnings);
    assert_eq!(ids, ["a", "a"]);
    assert!(warnings.is_empty());
}

struct Billing;

impl rw_renderer::config::SectionIndex for Billing {
    fn resolve_refpath(
        &self,
        _target: &str,
        _base_path: Option<&str>,
    ) -> Option<(String, rw_renderer::config::SectionMatch)> {
        None
    }

    fn find(&self, href: &str) -> Option<rw_renderer::config::SectionMatch> {
        let path = href.strip_prefix("/domains/billing")?;
        Some(rw_renderer::config::SectionMatch {
            section_ref: "domain:default/billing".to_owned(),
            section_name: "Billing".to_owned(),
            path: path.trim_start_matches('/').to_owned(),
        })
    }
}

#[test]
fn scan_svg_links_keeps_only_links_into_a_section() {
    let svg = concat_parts(&[
        r#"<svg><a href="/domains/billing/api"><text>API</text></a>"#,
        r#"<a href="https://example.com">x</a>"#,
        r#"<a xlink:href="/domains/billing/old">y</a>"#,
        r#"<a href="/elsewhere">z</a>"#,
        r#"<a href="/domains/billing">root</a></svg>"#,
    ]);
    let links = rw_renderer::diagram::scan_svg_links(&svg, &Billing);
    assert_eq!(
        links,
        vec![
            DiagramLink {
                href: "/domains/billing/api".to_owned(),
                section_ref: "domain:default/billing".to_owned(),
                section_path: "api".to_owned(),
            },
            DiagramLink {
                href: "/domains/billing".to_owned(),
                section_ref: "domain:default/billing".to_owned(),
                section_path: String::new(),
            },
        ]
    );
}

#[test]
fn scan_svg_links_without_a_tags_finds_nothing() {
    assert!(rw_renderer::diagram::scan_svg_links("<svg><rect/></svg>", &Billing).is_empty());
}

fn concat_parts(parts: &[&str]) -> String {
    parts.join("")
}

#[test]
fn section_ref_attrs_non_internal_returns_none() {
    assert!(rw_renderer::link::section_ref_attrs(None, "https://example.com").is_none());
    assert!(rw_renderer::link::section_ref_attrs(Some(&Billing), "https://example.com").is_none());
    assert!(rw_renderer::link::section_ref_attrs(Some(&Billing), "./relative.md").is_none());
}

#[test]
fn section_ref_attrs_no_sections_returns_none() {
    assert!(rw_renderer::link::section_ref_attrs(None, "/anything").is_none());
}

#[test]
fn section_ref_attrs_internal_path_with_matching_section_returns_attrs() {
    let result = rw_renderer::link::section_ref_attrs(Some(&Billing), "/domains/billing/overview");
    let (section_ref, section_path) = result.expect("internal link should resolve");
    assert_eq!(section_ref, "domain:default/billing");
    assert_eq!(section_path, "overview");
}

#[test]
fn section_attrs_from_takes_the_reference_and_path_of_the_answer() {
    let answer = rw_renderer::config::SectionMatch {
        section_ref: "domain:default/billing".to_owned(),
        section_name: "Billing".to_owned(),
        path: "api".to_owned(),
    };
    assert_eq!(
        rw_renderer::link::section_attrs_from(Some(answer)),
        Some(("domain:default/billing".to_owned(), "api".to_owned()))
    );
    assert_eq!(rw_renderer::link::section_attrs_from(None), None);
}

/// The billing section, found the way the site registry finds it: a leading
/// slash is dropped, then the path must be the section's own or lie under it.
struct BillingRegistry;

impl rw_renderer::config::SectionIndex for BillingRegistry {
    fn resolve_refpath(
        &self,
        _target: &str,
        _base_path: Option<&str>,
    ) -> Option<(String, rw_renderer::config::SectionMatch)> {
        None
    }

    fn find(&self, href: &str) -> Option<rw_renderer::config::SectionMatch> {
        let path = href.strip_prefix('/').unwrap_or(href);
        let rest = if path == "domains/billing" {
            ""
        } else {
            path.strip_prefix("domains/billing/")?
        };
        Some(rw_renderer::config::SectionMatch {
            section_ref: "domain:default/billing".to_owned(),
            section_name: "billing".to_owned(),
            path: rest.to_owned(),
        })
    }
}

/// A registry with no sections.
struct NoSections;

impl rw_renderer::config::SectionIndex for NoSections {
    fn resolve_refpath(
        &self,
        _target: &str,
        _base_path: Option<&str>,
    ) -> Option<(String, rw_renderer::config::SectionMatch)> {
        None
    }

    fn find(&self, _href: &str) -> Option<rw_renderer::config::SectionMatch> {
        None
    }
}

fn annotate(svg: &str, sections: &dyn rw_renderer::config::SectionIndex) -> String {
    spliced(svg, &rw_renderer::diagram::scan_svg_links(svg, sections))
}

#[test]
fn annotates_a_cross_section_link() {
    let svg = r#"<svg><a href="/domains/billing/systems/pay" target="_top" xlink:href="/domains/billing/systems/pay"><text>Pay</text></a></svg>"#;
    assert_eq!(
        annotate(svg, &BillingRegistry),
        r#"<svg><a href="/domains/billing/systems/pay" target="_top" xlink:href="/domains/billing/systems/pay" data-section-ref="domain:default/billing" data-section-path="systems/pay"><text>Pay</text></a></svg>"#
    );
}

#[test]
fn scan_collects_one_link_per_resolving_tag() {
    let svg = r#"<svg><a href="/domains/billing/api">x</a><a href="/domains/billing/other">y</a><a href="https://ext.example">z</a></svg>"#;
    assert_eq!(
        rw_renderer::diagram::scan_svg_links(svg, &BillingRegistry),
        [
            DiagramLink {
                href: "/domains/billing/api".to_owned(),
                section_ref: "domain:default/billing".to_owned(),
                section_path: "api".to_owned(),
            },
            DiagramLink {
                href: "/domains/billing/other".to_owned(),
                section_ref: "domain:default/billing".to_owned(),
                section_path: "other".to_owned(),
            },
        ]
    );
}

#[test]
fn an_exact_section_root_gets_no_section_path() {
    let svg = r#"<svg><a href="/domains/billing" xlink:href="/domains/billing"><text>Billing</text></a></svg>"#;
    assert_eq!(
        annotate(svg, &BillingRegistry),
        r#"<svg><a href="/domains/billing" xlink:href="/domains/billing" data-section-ref="domain:default/billing"><text>Billing</text></a></svg>"#
    );
}

#[test]
fn a_path_outside_every_section_is_left_alone() {
    let svg = r#"<svg><a href="/other/path" xlink:href="/other/path"><text>Other</text></a></svg>"#;
    assert_eq!(rw_renderer::diagram::scan_svg_links(svg, &BillingRegistry), []);
    assert_eq!(annotate(svg, &BillingRegistry), svg);
}

#[test]
fn a_relative_href_is_left_alone_though_the_same_path_would_resolve() {
    let svg = r#"<svg><a href="domains/billing/api">x</a></svg>"#;
    assert_eq!(rw_renderer::diagram::scan_svg_links(svg, &BillingRegistry), []);
    assert_eq!(annotate(svg, &BillingRegistry), svg);

    let absolute = r#"<svg><a href="/domains/billing/api">x</a></svg>"#;
    assert_eq!(
        rw_renderer::diagram::scan_svg_links(absolute, &BillingRegistry).len(),
        1,
        "the same path with a leading slash must still resolve, or this test would pass for the wrong reason",
    );
}

#[test]
fn an_external_link_is_left_alone() {
    let svg = r#"<svg><a href="https://example.com" xlink:href="https://example.com"><text>Ext</text></a></svg>"#;
    assert_eq!(rw_renderer::diagram::scan_svg_links(svg, &BillingRegistry), []);
    assert_eq!(annotate(svg, &BillingRegistry), svg);
}

#[test]
fn an_svg_with_no_a_tags_is_left_alone() {
    let svg = r#"<svg><rect width="100" height="50"/></svg>"#;
    assert_eq!(rw_renderer::diagram::scan_svg_links(svg, &BillingRegistry), []);
    assert_eq!(annotate(svg, &BillingRegistry), svg);
}

#[test]
fn empty_sections_resolve_nothing() {
    let svg = r#"<svg><a href="/domains/billing" xlink:href="/domains/billing"><text>B</text></a></svg>"#;
    assert_eq!(rw_renderer::diagram::scan_svg_links(svg, &NoSections), []);
    assert_eq!(annotate(svg, &NoSections), svg);
}
