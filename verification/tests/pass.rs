use rw_renderer::config::{SectionIndex, SectionMatch};
use rw_renderer::diagram::{Asset, DiagramContent, Size};
use rw_renderer::directive::fills::{GlobalKey, Source};
use rw_renderer::holes::Holes;
use rw_renderer::pass::{finish_diagrams, render_diagrams, DiagramRequest, Resolved};
use rw_renderer::search_document::SearchDocumentBackend;
use rw_renderer::HtmlBackend;

fn request(block: u32, id: Option<&str>, source: &str) -> DiagramRequest {
    DiagramRequest {
        language: "plantuml".to_owned(),
        source: source.to_owned(),
        id: id.map(str::to_owned),
        block,
    }
}

fn resolved_svg(body: &str) -> Resolved {
    Resolved {
        asset: Asset::Inline(DiagramContent::Svg(format!("<svg>{body}</svg>"))),
        size: None,
        warnings: Vec::new(),
    }
}

struct BillingRegistry;

impl SectionIndex for BillingRegistry {
    fn resolve_refpath(&self, _target: &str, _base_path: Option<&str>) -> Option<(String, SectionMatch)> {
        None
    }

    fn find(&self, href: &str) -> Option<SectionMatch> {
        let path = href.strip_prefix('/').unwrap_or(href);
        let rest = if path == "domains/billing" { "" } else { path.strip_prefix("domains/billing/")? };
        Some(SectionMatch {
            section_ref: "domain:default/billing".to_owned(),
            section_name: "billing".to_owned(),
            path: rest.to_owned(),
        })
    }
}

#[test]
fn an_unresolved_request_falls_through_to_diagram_source() {
    let mut warnings = Vec::new();
    let mut refs = Vec::new();
    let out = render_diagrams::<HtmlBackend>(&[request(0, None, "A -> B\n")], &[None], None, &mut warnings, &mut refs);
    assert_eq!(out, [r#"<pre><code class="language-plantuml">A -&gt; B
</code></pre>"#]);
    assert!(warnings.is_empty());
}

#[test]
fn a_resolved_size_reaches_the_backend() {
    let mut warnings = Vec::new();
    let mut refs = Vec::new();
    let resolved = Resolved {
        asset: Asset::Inline(DiagramContent::Png(vec![1, 2, 3])),
        size: Some(Size { width: 10, height: 5 }),
        warnings: Vec::new(),
    };
    let out = render_diagrams::<HtmlBackend>(&[request(0, None, "png")], &[Some(Ok(resolved))], None, &mut warnings, &mut refs);
    assert!(out[0].contains(r#" width="10" height="5""#), "the provider's size did not reach the markup: {}", out[0]);
}

#[test]
fn a_failed_resolution_renders_an_error_figure_and_no_warning() {
    let mut warnings = Vec::new();
    let mut refs = Vec::new();
    let out = render_diagrams::<HtmlBackend>(
        &[request(1, None, "fail")],
        &[Some(Err("kroki said no".to_owned()))],
        None,
        &mut warnings,
        &mut refs,
    );
    assert!(
        out[0].contains("Diagram rendering failed: diagram 1: kroki said no"),
        "the error figure is missing or unnumbered: {}",
        out[0]
    );
    assert!(warnings.is_empty());
}

#[test]
fn provider_warnings_are_prefixed_with_the_fence_index() {
    let mut warnings = Vec::new();
    let mut refs = Vec::new();
    let mut resolved = resolved_svg("");
    resolved.warnings.push("unknown attribute 'zz' ignored".to_owned());
    render_diagrams::<HtmlBackend>(&[request(1, None, "x")], &[Some(Ok(resolved))], None, &mut warnings, &mut refs);
    assert_eq!(warnings, ["diagram 1: unknown attribute 'zz' ignored"]);
}

#[test]
fn an_explicit_id_gets_a_duplicate_warning_from_the_pass() {
    let mut warnings = Vec::new();
    let mut refs = Vec::new();
    let out = render_diagrams::<HtmlBackend>(
        &[request(0, Some("diagram-1"), "first"), request(1, None, "second")],
        &[Some(Ok(resolved_svg(""))), Some(Ok(resolved_svg("")))],
        None,
        &mut warnings,
        &mut refs,
    );
    assert_eq!(warnings, ["diagram 1: duplicate id 'diagram-1' (already used by diagram 0)"]);
    assert!(out[0].contains(r#"data-diagram-id="diagram-1""#), "{}", out[0]);
}

#[test]
fn a_backend_that_emits_no_ids_raises_no_duplicate_id_warnings() {
    let requests = [request(0, Some("flow"), "first"), request(1, Some("flow"), "second")];
    let answers = [Some(Ok(resolved_svg(""))), Some(Ok(resolved_svg("")))];
    let mut warnings = Vec::new();
    let mut refs = Vec::new();
    render_diagrams::<HtmlBackend>(&requests, &answers, None, &mut warnings, &mut refs);
    assert_eq!(warnings.len(), 1, "the fixture must actually contain a duplicate id");
    let mut warnings = Vec::new();
    render_diagrams::<SearchDocumentBackend>(&requests, &answers, None, &mut warnings, &mut refs);
    assert!(warnings.is_empty(), "a backend with DIAGRAM_IDS = false must not warn about ids it never writes");
}

#[test]
fn svg_links_that_resolve_become_section_refs_on_the_result() {
    let mut warnings = Vec::new();
    let mut refs = Vec::new();
    let out = render_diagrams::<HtmlBackend>(
        &[request(0, None, "x")],
        &[Some(Ok(resolved_svg(r#"<a href="/domains/billing/api">x</a>"#)))],
        Some(&BillingRegistry),
        &mut warnings,
        &mut refs,
    );
    assert!(refs.contains(&"domain:default/billing".to_owned()), "the diagram's link did not reach section_refs: {refs:?}");
    assert!(out[0].contains(r#"data-section-ref="domain:default/billing""#), "the link was not annotated in the markup: {}", out[0]);
}

#[test]
fn finish_diagrams_fills_each_diagram_hole_in_place() {
    let mut holes = Holes::new();
    holes.reserve(3, GlobalKey(Source::Diagram, 2));
    let mut warnings = Vec::new();
    let mut refs = Vec::new();
    let html = finish_diagrams::<HtmlBackend>(
        "<p>x</p><p>y</p>".to_owned(),
        holes,
        &[request(2, None, "A")],
        &[None],
        None,
        &mut warnings,
        &mut refs,
    );
    assert_eq!(html, r#"<p><pre><code class="language-plantuml">A</code></pre>x</p><p>y</p>"#);
}
