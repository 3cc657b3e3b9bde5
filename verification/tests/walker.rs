use rw_renderer::code_block::{CodeBlockProcessor, FenceAttrs, ProcessResult};
use rw_renderer::config::{RenderConfig, SectionIndex, SectionMatch};
use rw_renderer::directive::fills::Fills;
use rw_renderer::directive::{DirectiveArgs, DirectiveProcessor};
use rw_renderer::event::{
    BlockDirectivePayload, CodeBlockPayload, Event, InlineDirectivePayload, LinkKind, Tag, TagEnd,
};
use rw_renderer::walker::Walker;
use rw_renderer::{HtmlBackend, RenderResult, SearchDocumentBackend};

fn walk(cfg: RenderConfig, directives: Option<DirectiveProcessor>, events: Vec<Event>) -> RenderResult {
    walk_with(cfg, Vec::new(), directives, events)
}

fn walk_with(
    cfg: RenderConfig,
    processors: Vec<Box<dyn CodeBlockProcessor>>,
    directives: Option<DirectiveProcessor>,
    events: Vec<Event>,
) -> RenderResult {
    let mut walker = Walker::<HtmlBackend>::new(cfg, processors, directives);
    for event in events {
        assert!(walker.accepts_event(&event), "event not accepted: {event:?}");
        walker.handle(event);
    }
    assert!(walker.is_closed());
    walker.finish()
}

fn text(s: &str) -> Event {
    Event::Text(s.to_owned())
}

fn container(name: &str, content: &str) -> Event {
    Event::ContainerDirectiveStart(BlockDirectivePayload {
        name: name.to_owned(),
        args: DirectiveArgs::parse(content, ""),
    })
}

fn close(name: &str, implicit: bool) -> Event {
    Event::ContainerDirectiveEnd { name: Some(name.to_owned()), colon_count: 3, implicit }
}

#[test]
fn finish_returns_empty_result_when_no_events_processed() {
    let walker = Walker::<HtmlBackend>::new(RenderConfig::new(), Vec::new(), None);
    let result = walker.finish();
    assert!(result.html.is_empty());
    assert!(result.title.is_none());
    assert!(result.toc.is_empty());
    assert!(result.warnings.is_empty());
    assert!(result.section_refs.is_empty());
}

#[test]
fn walker_paragraph_text_is_escaped() {
    let result = walk(
        RenderConfig::new(),
        None,
        vec![Event::Start(Tag::Paragraph), text("a < b & c"), Event::End(TagEnd::Paragraph)],
    );
    assert_eq!(result.html, "<p>a &lt; b &amp; c</p>");
}

#[test]
fn walker_heading_gets_a_unique_id_and_a_toc_entry() {
    let heading = |t: &str| {
        vec![Event::Start(Tag::Heading { level: 2 }), text(t), Event::End(TagEnd::Heading)]
    };
    let mut events = heading("Hello World");
    events.extend(heading("Hello World"));
    let result = walk(RenderConfig::new(), None, events);
    assert_eq!(
        result.html,
        r#"<h2 id="hello-world">Hello World</h2><h2 id="hello-world-1">Hello World</h2>"#
    );
    assert_eq!(result.toc.len(), 2);
    assert_eq!(result.toc[0].level, 2);
    assert_eq!(result.toc[0].title, "Hello World");
    assert_eq!(result.toc[0].id, "hello-world");
    assert_eq!(result.toc[1].id, "hello-world-1");
}

#[test]
fn walker_first_h1_becomes_the_title_when_extracting() {
    let mut cfg = RenderConfig::new();
    cfg.extract_title = true;
    let result = walk(
        cfg,
        None,
        vec![
            Event::Start(Tag::Heading { level: 1 }),
            text("Title"),
            Event::End(TagEnd::Heading),
            Event::Start(Tag::Heading { level: 1 }),
            text("Second"),
            Event::End(TagEnd::Heading),
        ],
    );
    assert_eq!(result.title.as_deref(), Some("Title"));
    assert_eq!(result.toc.len(), 1);
    assert_eq!(result.toc[0].title, "Second");
}

#[test]
fn walker_heading_body_keeps_markup_but_the_toc_text_does_not() {
    let result = walk(
        RenderConfig::new(),
        None,
        vec![
            Event::Start(Tag::Heading { level: 3 }),
            text("Big "),
            Event::Start(Tag::Strong),
            text("news"),
            Event::End(TagEnd::Strong),
            Event::End(TagEnd::Heading),
        ],
    );
    assert_eq!(result.html, r#"<h3 id="big-news">Big <strong>news</strong></h3>"#);
    assert_eq!(result.toc[0].title, "Big news");
}

#[test]
fn walker_image_alt_text_drops_markup() {
    let result = walk(
        RenderConfig::new(),
        None,
        vec![
            Event::Start(Tag::Paragraph),
            Event::Start(Tag::Image { dest_url: "pic.png".to_owned(), title: String::new() }),
            text("a "),
            Event::Start(Tag::Emphasis),
            text("b"),
            Event::End(TagEnd::Emphasis),
            Event::Code("c".to_owned()),
            Event::SoftBreak,
            text("d"),
            Event::End(TagEnd::Image),
            Event::End(TagEnd::Paragraph),
        ],
    );
    assert_eq!(result.html, r#"<p><img src="pic.png" alt="a bc d"></p>"#);
}

#[test]
fn walker_link_goes_through_the_backend_transform() {
    let mut cfg = RenderConfig::new();
    cfg.base_path = Some("/guide".to_owned());
    let result = walk(
        cfg,
        None,
        vec![
            Event::Start(Tag::Paragraph),
            Event::Start(Tag::Link { kind: LinkKind::Other, dest_url: "./setup.md".to_owned() }),
            text("Setup"),
            Event::End(TagEnd::Link),
            Event::End(TagEnd::Paragraph),
        ],
    );
    assert_eq!(result.html, r#"<p><a href="/guide/setup">Setup</a></p>"#);
    assert!(result.section_refs.is_empty());
}

struct OneSection;

impl SectionIndex for OneSection {
    fn resolve_refpath(&self, target: &str, _base_path: Option<&str>) -> Option<(String, SectionMatch)> {
        if target != "billing::overview" {
            return None;
        }
        Some((
            "/domains/billing/overview".to_owned(),
            SectionMatch {
                section_ref: "domain:default/billing".to_owned(),
                section_name: "Billing".to_owned(),
                path: "overview".to_owned(),
            },
        ))
    }

    fn find(&self, href: &str) -> Option<SectionMatch> {
        if !href.starts_with("/domains/billing") {
            return None;
        }
        Some(SectionMatch {
            section_ref: "domain:default/billing".to_owned(),
            section_name: "Billing".to_owned(),
            path: href.trim_start_matches("/domains/billing").trim_start_matches('/').to_owned(),
        })
    }
}

#[test]
fn walker_wikilinks_resolve_through_the_sections() {
    let mut cfg = RenderConfig::new();
    cfg.sections = Some(Box::new(OneSection));
    let wiki = |target: &str| {
        vec![
            Event::Start(Tag::Link { kind: LinkKind::Wiki { has_pothole: false }, dest_url: target.to_owned() }),
            Event::End(TagEnd::Link),
        ]
    };
    let mut events = vec![Event::Start(Tag::Paragraph)];
    events.extend(wiki("billing::overview"));
    events.extend(wiki("#getting-started"));
    events.extend(wiki("nowhere"));
    events.push(Event::End(TagEnd::Paragraph));
    let result = walk(cfg, None, events);
    assert_eq!(
        result.html,
        [
            "<p>",
            r#"<a href="/domains/billing/overview" data-section-ref="domain:default/billing" data-section-path="overview">overview</a>"#,
            r##"<a href="#getting-started">getting started</a>"##,
            r##"<a href="#" class="rw-broken-link">nowhere</a>"##,
            "</p>",
        ]
        .join("")
    );
    assert_eq!(result.section_refs, vec!["domain:default/billing".to_owned()]);
}

#[test]
fn walker_internal_links_record_their_section_ref_once() {
    let mut cfg = RenderConfig::new();
    cfg.sections = Some(Box::new(OneSection));
    let link = |url: &str| {
        vec![
            Event::Start(Tag::Link { kind: LinkKind::Other, dest_url: url.to_owned() }),
            text("x"),
            Event::End(TagEnd::Link),
        ]
    };
    let mut events = vec![Event::Start(Tag::Paragraph)];
    events.extend(link("/domains/billing/api"));
    events.extend(link("/domains/billing/faq"));
    events.extend(link("https://example.com"));
    events.push(Event::End(TagEnd::Paragraph));
    let result = walk(cfg, None, events);
    assert!(result.html.contains(
        r#"<a href="/domains/billing/api" data-section-ref="domain:default/billing" data-section-path="api">"#
    ));
    assert!(result.html.contains(r#"<a href="https://example.com">x</a>"#));
    assert_eq!(result.section_refs, vec!["domain:default/billing".to_owned()]);
}

#[test]
fn walker_status_badge_is_built_in() {
    let result = walk(
        RenderConfig::new(),
        Some(DirectiveProcessor::new()),
        vec![
            Event::Start(Tag::Paragraph),
            Event::InlineDirective(InlineDirectivePayload {
                name: "status".to_owned(),
                args: DirectiveArgs::parse("  On Track ", "color=GREEN"),
                raw: ":status[  On Track ]{color=GREEN}".to_owned(),
            }),
            Event::End(TagEnd::Paragraph),
        ],
    );
    assert_eq!(result.html, r#"<p><span class="status status-green">On Track</span></p>"#);
    assert!(result.warnings.is_empty());
}

#[test]
fn walker_unknown_inline_directive_stays_literal_and_warns() {
    let result = walk(
        RenderConfig::new(),
        Some(DirectiveProcessor::new()),
        vec![
            Event::Start(Tag::Paragraph),
            Event::InlineDirective(InlineDirectivePayload {
                name: "kbd".to_owned(),
                args: DirectiveArgs::parse("X", ""),
                raw: ":kbd[X]".to_owned(),
            }),
            Event::End(TagEnd::Paragraph),
        ],
    );
    assert_eq!(result.html, "<p>:kbd[X]</p>");
    assert_eq!(result.warnings.len(), 1);
    assert!(result.warnings[0].contains("unknown inline directive ':kbd'"));
}

#[test]
fn walker_tab_group_fills_its_bar_after_the_walk() {
    let result = walk(
        RenderConfig::new(),
        Some(DirectiveProcessor::new()),
        vec![
            container("tabs", ""),
            container("tab", "A"),
            Event::Start(Tag::Paragraph),
            text("a body"),
            Event::End(TagEnd::Paragraph),
            close("tab", false),
            container("tab", "\"B\""),
            close("tab", false),
            close("tabs", false),
        ],
    );
    let expected = [
        r#"<div class="tabs" id="tabs-0"><div class="tabs-buttons" role="tablist">"#,
        r#"<button role="tab" id="tab-0-0" aria-controls="panel-0-0" aria-selected="true" tabindex="0">A</button>"#,
        r#"<button role="tab" id="tab-0-1" aria-controls="panel-0-1" aria-selected="false" tabindex="-1">B</button>"#,
        "</div>",
        r#"<div role="tabpanel" id="panel-0-0" aria-labelledby="tab-0-0"><p>a body</p></div>"#,
        r#"<div role="tabpanel" id="panel-0-1" aria-labelledby="tab-0-1" hidden></div>"#,
        "</div>",
    ]
    .join("");
    assert_eq!(result.html, expected);
    assert!(result.warnings.is_empty());
}

#[test]
fn walker_unclosed_and_lone_tabs_warn() {
    let result = walk(
        RenderConfig::new(),
        Some(DirectiveProcessor::new()),
        vec![container("tab", "Alone"), close("tab", true), container("tabs", ""), close("tabs", false)],
    );
    assert_eq!(result.warnings.len(), 3, "{:?}", result.warnings);
    assert!(result.warnings[0].contains("outside a `::::tabs` group"));
    assert!(result.warnings[1].contains("unclosed container directive :::tab"));
    assert!(result.warnings[2].contains("has no `:::tab` items"));
}

#[test]
fn walker_tabs_emit_no_markup_into_a_search_document() {
    let mut walker = Walker::<SearchDocumentBackend>::new(RenderConfig::new(), Vec::new(), Some(DirectiveProcessor::new()));
    for event in [
        container("tabs", ""),
        container("tab", "Label"),
        Event::Start(Tag::Paragraph),
        text("body"),
        Event::End(TagEnd::Paragraph),
        close("tab", false),
        close("tabs", false),
    ] {
        assert!(walker.accepts_event(&event));
        walker.handle(event);
    }
    let result = walker.finish();
    assert!(!result.html.contains("Label"), "got: {}", result.html);
    assert!(result.html.contains("body"));
}

#[test]
fn walker_stray_close_renders_literally_and_warns() {
    let result = walk(
        RenderConfig::new(),
        Some(DirectiveProcessor::new()),
        vec![Event::ContainerDirectiveEnd { name: None, colon_count: 4, implicit: false }],
    );
    assert_eq!(result.html, "<p>::::</p>");
    assert_eq!(result.warnings, vec!["stray ::: with no opening directive".to_owned()]);
}

#[test]
fn walker_unregistered_container_renders_literally_and_expands_inline_directives() {
    let result = walk(
        RenderConfig::new(),
        Some(DirectiveProcessor::new()),
        vec![container("note", "see :status[Done]{color=green}"), close("note", false)],
    );
    assert!(
        result.html.contains(r#"<span class="status status-green">Done</span>"#),
        "got: {}",
        result.html
    );
    assert!(result.html.ends_with("<p>:::</p>"), "got: {}", result.html);
}

struct Diagrams;

impl CodeBlockProcessor for Diagrams {
    fn bundle(&mut self, _language: &str, _source: &str) -> Option<String> {
        None
    }

    fn process(&mut self, language: &str, _attrs: &FenceAttrs, source: &str, _index: usize) -> ProcessResult {
        match language {
            "later" => ProcessResult::Deferred,
            "now" => ProcessResult::Inline(format!("<figure>{source}</figure>")),
            _ => ProcessResult::PassThrough,
        }
    }

    fn fills(&mut self, fills: &mut Fills) {
        fills.set(1, "<svg/>".to_owned());
    }

    fn warnings(&self) -> &[String] {
        &[]
    }

    fn section_refs(&self) -> Vec<String> {
        Vec::new()
    }
}

fn code(lang: Option<&str>, source: &str) -> Event {
    Event::CodeBlock(CodeBlockPayload {
        language: lang.map(str::to_owned),
        attrs: FenceAttrs::default(),
        source: source.to_owned(),
    })
}

#[test]
fn walker_code_blocks_go_to_processors_first() {
    let processors: Vec<Box<dyn CodeBlockProcessor>> = vec![Box::new(Diagrams)];
    let result = walk_with(
        RenderConfig::new(),
        processors,
        None,
        vec![code(Some("now"), "x"), code(Some("later"), "y"), code(Some("rust"), "a<b"), code(None, "plain")],
    );
    assert_eq!(
        result.html,
        [
            "<figure>x</figure>",
            "<svg/>",
            r#"<pre><code class="language-rust">a&lt;b</code></pre>"#,
            "<pre><code>plain</code></pre>",
        ]
        .join("")
    );
}

#[test]
fn walker_refuses_events_it_cannot_take() {
    let mut walker = Walker::<HtmlBackend>::new(RenderConfig::new(), Vec::new(), None);
    assert!(!walker.accepts_event(&Event::End(TagEnd::Heading)));
    assert!(!walker.accepts_event(&Event::End(TagEnd::Image)));
    assert!(!walker.accepts_event(&container("note", "")));
    assert!(walker.accepts_event(&close("note", false)));
    assert!(walker.accepts_event(&container("tabs", "")));
    assert!(walker.accepts_event(&container("tab", "A")));
    assert!(walker.accepts_event(&Event::Start(Tag::Heading { level: 1 })));
    walker.handle(Event::Start(Tag::Heading { level: 1 }));
    assert!(!walker.is_closed());
    assert!(!walker.accepts_event(&code(Some("rust"), "x")));
    assert!(walker.accepts_event(&Event::End(TagEnd::Heading)));
    walker.handle(Event::End(TagEnd::Heading));
    assert!(walker.is_closed());
    assert!(walker.accepts_event(&code(Some("rust"), "x")));
}

#[test]
fn walker_heading_takes_a_fragment_wikilinks_display_text() {
    let mut cfg = RenderConfig::new();
    cfg.wikilinks = true;
    let result = walk(
        cfg,
        None,
        vec![
            Event::Start(Tag::Heading { level: 2 }),
            text("See "),
            Event::Start(Tag::Link { kind: LinkKind::Wiki { has_pothole: false }, dest_url: "#setup-steps".to_owned() }),
            Event::End(TagEnd::Link),
            Event::End(TagEnd::Heading),
        ],
    );
    assert_eq!(result.toc.len(), 1);
    assert_eq!(result.toc[0].title, "See setup steps");
    assert!(result.html.contains("setup steps</a>"), "{}", result.html);
}

/// The events a markdown parser with directive support makes of `line`:
/// its text runs and, between them, its inline directives.
fn inline_events(line: &str) -> Vec<Event> {
    let mut events = Vec::new();
    let mut rest = line;
    while let Some((directive, start, end)) = rw_renderer::directive::parser::parse_line(rest) {
        match directive {
            rw_renderer::directive::parser::ParsedDirective::Inline { name, args } => {
                if start > 0 {
                    events.push(text(&rest[..start]));
                }
                events.push(Event::InlineDirective(InlineDirectivePayload {
                    name,
                    args,
                    raw: rest[start..end].to_owned(),
                }));
                rest = &rest[end..];
            }
            _ => break,
        }
    }
    if !rest.is_empty() {
        events.push(text(rest));
    }
    events
}

/// A one-paragraph document holding `line`, rendered with an empty
/// directive processor (status badges are built in).
fn render_line(line: &str) -> RenderResult {
    let mut events = vec![Event::Start(Tag::Paragraph)];
    events.extend(inline_events(line));
    events.push(Event::End(TagEnd::Paragraph));
    walk(RenderConfig::new(), Some(DirectiveProcessor::new()), events)
}

#[test]
fn test_status_renders_span() {
    let html = render_line(":status[On Track]{color=green}").html;
    assert!(html.contains(r#"<span class="status status-green">On Track</span>"#), "got: {html}");
}

#[test]
fn test_status_color_defaults_to_grey() {
    let html = render_line(":status[Declined]").html;
    assert!(html.contains(r#"<span class="status status-grey">Declined</span>"#), "got: {html}");
}

#[test]
fn test_status_unknown_color_falls_back_to_grey() {
    let html = render_line(":status[X]{color=mauve}").html;
    assert!(html.contains(r#"<span class="status status-grey">X</span>"#), "got: {html}");
}

#[test]
fn test_status_escapes_label() {
    // The text event carries `&` as the markdown parser delivers it.
    let html = render_line(":status[A & B]{color=red}").html;
    assert!(html.contains(r#"<span class="status status-red">A &amp; B</span>"#), "got: {html}");
}

#[test]
fn test_status_trims_label() {
    let html = render_line(":status[  Spaced  ]{color=blue}").html;
    assert!(html.contains(r#"<span class="status status-blue">Spaced</span>"#), "got: {html}");
}

#[test]
fn test_status_empty_label() {
    let html = render_line(":status[]{color=blue}").html;
    assert!(html.contains(r#"<span class="status status-blue"></span>"#), "got: {html}");
}

#[test]
fn test_multiple_status_badges_on_one_line() {
    let html = render_line(":status[A]{color=red} and :status[B]{color=blue}").html;
    assert!(html.contains(r#"<span class="status status-red">A</span>"#), "got: {html}");
    assert!(html.contains(r#"<span class="status status-blue">B</span>"#), "got: {html}");
}

fn status_heading() -> RenderResult {
    walk(
        RenderConfig::new(),
        Some(DirectiveProcessor::new()),
        vec![
            Event::Start(Tag::Heading { level: 1 }),
        ]
        .into_iter()
        .chain(inline_events("Ship :status[On Track]{color=green}"))
        .chain([Event::End(TagEnd::Heading)])
        .collect(),
    )
}

#[test]
fn test_status_inside_heading_renders_into_the_heading_body() {
    let html = status_heading().html;
    assert!(html.contains(r#"<span class="status status-green">On Track</span>"#), "got: {html}");
    assert!(html.contains("<h1"), "got: {html}");
}

#[test]
fn test_status_inside_image_alt_text_drops_markup() {
    let html = walk(
        RenderConfig::new(),
        Some(DirectiveProcessor::new()),
        vec![
            Event::Start(Tag::Paragraph),
            Event::Start(Tag::Image { dest_url: "x.png".to_owned(), title: String::new() }),
        ]
        .into_iter()
        .chain(inline_events("before :status[Badge]{color=red} after"))
        .chain([Event::End(TagEnd::Image), Event::End(TagEnd::Paragraph)])
        .collect(),
    )
    .html;
    assert!(!html.contains("<span"), "markup leaked into alt: {html}");
    assert!(!html.contains("status-red"), "markup leaked into alt: {html}");
    assert!(html.contains("Badge"), "label lost: {html}");
}

#[test]
fn test_status_inside_heading_sets_slug_and_toc() {
    let result = status_heading();
    assert!(result.html.contains(r#"id="ship-on-track""#), "heading id must include the badge label; got: {}", result.html);
    assert_eq!(
        result.toc.first().map(|e| e.title.as_str()),
        Some("Ship On Track"),
        "TOC title must include the badge label; got: {:?}",
        result.toc
    );
    assert!(result.html.contains(r#"<span class="status status-green">On Track</span>"#), "got: {}", result.html);
}

#[test]
fn test_status_renders_with_an_empty_processor() {
    let result = render_line("Delivery is :status[On Track]{color=green}.");
    assert!(result.html.contains(r#"<span class="status status-green">On Track</span>"#), "got: {}", result.html);
}

#[test]
fn test_status_stays_literal_without_a_processor() {
    let result = walk(
        RenderConfig::new(),
        None,
        vec![Event::Start(Tag::Paragraph), text(":status[On Track]{color=green}"), Event::End(TagEnd::Paragraph)],
    );
    assert!(
        result.html.contains(":status[On Track]{color=green}"),
        "status should stay literal without a processor; got: {}",
        result.html
    );
    assert!(!result.html.contains("status-green"), "got: {}", result.html);
}

#[test]
fn status_inline_alone_on_a_line_still_expands() {
    let html = render_line(":status[Done]{color=green}").html;
    assert!(html.contains(r#"<span class="status status-green">Done</span>"#), "got: {}", html);
}

#[test]
fn status_renders_with_no_providers_configured() {
    let html = render_line("Billing is :status[On Track]{color=green} this quarter.").html;
    assert!(html.contains(r#"<span class="status status-green">On Track</span>"#), "got: {}", html);
}

fn para(s: &str) -> Vec<Event> {
    vec![Event::Start(Tag::Paragraph), text(s), Event::End(TagEnd::Paragraph)]
}

/// A closed `::::tabs` group holding one `:::tab` per (label, body).
fn tab_group(tabs: &[(&str, &str)]) -> Vec<Event> {
    let mut events = vec![container("tabs", "")];
    for (label, body) in tabs {
        events.push(container("tab", label));
        events.extend(para(body));
        events.push(close("tab", false));
    }
    events.push(close("tabs", false));
    events
}

fn render_tabs(events: Vec<Event>) -> RenderResult {
    walk(RenderConfig::new(), Some(DirectiveProcessor::new()), events)
}

#[test]
fn tabs_render_with_no_providers_configured() {
    let result = render_tabs(tab_group(&[("macOS", "Install with Homebrew."), ("Linux", "Install with apt.")]));
    assert!(result.html.contains(r#"role="tablist""#));
    assert!(result.html.contains(r#"role="tab""#));
    assert!(result.html.contains(r#"role="tabpanel""#));
    assert!(result.html.contains("macOS"));
    assert!(result.html.contains("Linux"));
}

#[test]
fn multi_tab_group_renders_without_spurious_warning() {
    let result = render_tabs(tab_group(&[("A", "Content A"), ("B", "Content B")]));
    assert!(result.html.contains(r#"<div class="tabs" id="tabs-0">"#), "got: {}", result.html);
    assert!(result.html.contains(r#"<button role="tab""#), "got: {}", result.html);
    assert!(result.html.contains(">A</button>"), "got: {}", result.html);
    assert!(result.html.contains(">B</button>"), "got: {}", result.html);
    assert!(result.html.contains("Content A"), "got: {}", result.html);
    assert!(result.html.contains("Content B"), "got: {}", result.html);
    assert!(!result.html.contains("rw-tab"), "got: {}", result.html);
    assert!(result.warnings.is_empty(), "got: {:?}", result.warnings);
}

#[test]
fn three_tab_group_renders_without_spurious_warning() {
    let result = render_tabs(tab_group(&[("A", "Content A"), ("B", "Content B"), ("C", "Content C")]));
    assert!(result.html.contains(r#"role="tablist""#), "got: {}", result.html);
    assert!(result.html.contains(">A</button>"), "got: {}", result.html);
    assert!(result.html.contains(">B</button>"), "got: {}", result.html);
    assert!(result.html.contains(">C</button>"), "got: {}", result.html);
    assert!(result.html.contains("Content A"), "got: {}", result.html);
    assert!(result.html.contains("Content B"), "got: {}", result.html);
    assert!(result.html.contains("Content C"), "got: {}", result.html);
    assert!(!result.html.contains("<rw-tab"), "got: {}", result.html);
    assert!(result.warnings.is_empty(), "got: {:?}", result.warnings);
}

#[test]
fn two_separate_closed_tab_groups_emit_no_warnings() {
    let mut events = tab_group(&[("A", "x"), ("B", "y")]);
    events.extend(para("between"));
    events.extend(tab_group(&[("C", "z"), ("D", "w")]));
    let result = render_tabs(events);
    assert_eq!(result.html.matches(r#"role="tablist""#).count(), 2, "got: {}", result.html);
    assert!(result.html.contains("between"), "got: {}", result.html);
    assert!(result.warnings.is_empty(), "got: {:?}", result.warnings);
}

#[test]
fn lone_tab_without_group_renders_unwrapped_and_warns() {
    let mut events = vec![container("tab", "X")];
    events.extend(para("body"));
    events.push(close("tab", false));
    let result = render_tabs(events);
    assert!(!result.html.contains(r#"role="tablist""#), "chrome leaked: {}", result.html);
    assert!(!result.html.contains(":::tab"), "literal syntax leaked: {}", result.html);
    assert!(result.html.contains("body"), "content lost: {}", result.html);
    assert!(
        result.warnings.iter().any(|w| w.contains("outside a `::::tabs`")),
        "expected a lone-tab warning: {:?}",
        result.warnings
    );
}

#[test]
fn table_cells_separated_by_space() {
    let mut walker = Walker::<SearchDocumentBackend>::new(RenderConfig::new(), Vec::new(), None);
    let cell = |s: &str| vec![Event::Start(Tag::TableCell), text(s), Event::End(TagEnd::TableCell)];
    let mut events = vec![Event::Start(Tag::Table(vec![rw_renderer::Alignment::Unset, rw_renderer::Alignment::Unset]))];
    events.push(Event::Start(Tag::TableHead));
    events.extend(cell("A"));
    events.extend(cell("B"));
    events.push(Event::End(TagEnd::TableHead));
    events.push(Event::Start(Tag::TableRow));
    events.extend(cell("C"));
    events.extend(cell("D"));
    events.push(Event::End(TagEnd::TableRow));
    events.push(Event::End(TagEnd::Table));
    for event in events {
        assert!(walker.accepts_event(&event), "event not accepted: {event:?}");
        walker.handle(event);
    }
    let result = walker.finish();
    let text = result.html.trim();
    assert!(text.contains('A'));
    assert!(text.contains('B'));
    assert!(text.contains('C'));
    assert!(text.contains('D'));
    assert!(!text.contains('<'));
}

#[test]
fn walker_status_and_tabs_need_no_directive_processor() {
    let status = walk(
        RenderConfig::new(),
        None,
        vec![
            Event::Start(Tag::Paragraph),
            Event::InlineDirective(InlineDirectivePayload {
                name: "status".to_owned(),
                args: DirectiveArgs::parse("Done", "color=green"),
                raw: ":status[Done]{color=green}".to_owned(),
            }),
            Event::End(TagEnd::Paragraph),
        ],
    );
    assert_eq!(status.html, r#"<p><span class="status status-green">Done</span></p>"#);
    let tabs = walk(RenderConfig::new(), None, tab_group(&[("A", "Content A")]));
    assert!(tabs.html.contains(r#"<div class="tabs" id="tabs-0">"#), "got: {}", tabs.html);
    assert!(tabs.html.contains("Content A"));
    assert!(tabs.warnings.is_empty());
}

#[test]
fn walker_stray_close_without_processor_is_literal() {
    let result = walk(RenderConfig::new(), None, vec![close("note", false)]);
    assert_eq!(result.html, "<p>:::</p>");
    assert!(result.warnings.is_empty());
}

struct Noisy {
    warnings: Vec<String>,
}

impl CodeBlockProcessor for Noisy {
    fn bundle(&mut self, _language: &str, _source: &str) -> Option<String> {
        None
    }

    fn process(&mut self, _language: &str, _attrs: &FenceAttrs, _source: &str, _index: usize) -> ProcessResult {
        ProcessResult::PassThrough
    }

    fn warnings(&self) -> &[String] {
        &self.warnings
    }

    fn section_refs(&self) -> Vec<String> {
        Vec::new()
    }
}

#[test]
fn walker_warnings_are_processors_then_directives() {
    let processors: Vec<Box<dyn CodeBlockProcessor>> = vec![
        Box::new(Noisy { warnings: vec!["p1".to_owned()] }),
        Box::new(Noisy { warnings: vec!["p2".to_owned(), "p3".to_owned()] }),
    ];
    let result = walk_with(
        RenderConfig::new(),
        processors,
        Some(DirectiveProcessor::new()),
        vec![close("note", false)],
    );
    assert_eq!(result.warnings.len(), 4);
    assert_eq!(&result.warnings[..3], &["p1".to_owned(), "p2".to_owned(), "p3".to_owned()]);
    assert!(result.warnings[3].contains("stray"), "{:?}", result.warnings);
}

struct Warns(&'static str, Vec<String>);

impl rw_renderer::directive::LeafDirective for Warns {
    fn name(&self) -> &str {
        self.0
    }

    fn process(
        &mut self,
        _args: DirectiveArgs,
        _ctx: &rw_renderer::directive::DirectiveContext,
    ) -> rw_renderer::directive::DirectiveOutput {
        rw_renderer::directive::DirectiveOutput::Skip
    }

    fn warnings(&self) -> &[String] {
        &self.1
    }
}

#[test]
fn walker_warnings_end_with_the_handlers() {
    let directives = DirectiveProcessor::new().with_leaf(Warns("quiet", Vec::new())).with_leaf(Warns("loud", vec!["handler".to_owned()]));
    let processors: Vec<Box<dyn CodeBlockProcessor>> = vec![Box::new(Noisy { warnings: vec!["p".to_owned()] })];
    let result = walk_with(RenderConfig::new(), processors, Some(directives), vec![close("note", false)]);
    assert_eq!(result.warnings.len(), 3, "{:?}", result.warnings);
    assert_eq!(result.warnings[0], "p");
    assert!(result.warnings[1].contains("stray"));
    assert_eq!(result.warnings[2], "handler");
}

struct Referrer {
    refs: Vec<String>,
}

impl CodeBlockProcessor for Referrer {
    fn bundle(&mut self, _language: &str, _source: &str) -> Option<String> {
        None
    }

    fn process(&mut self, _language: &str, _attrs: &FenceAttrs, _source: &str, _index: usize) -> ProcessResult {
        ProcessResult::PassThrough
    }

    fn warnings(&self) -> &[String] {
        &[]
    }

    fn section_refs(&self) -> Vec<String> {
        self.refs.clone()
    }
}

#[test]
fn walker_section_refs_take_the_processors_refs_sorted_once() {
    let processors: Vec<Box<dyn CodeBlockProcessor>> = vec![
        Box::new(Referrer { refs: vec!["domain:default/b".to_owned(), "domain:default/a".to_owned()] }),
        Box::new(Referrer { refs: vec!["domain:default/a".to_owned()] }),
    ];
    let result = walk_with(RenderConfig::new(), processors, None, vec![text("x")]);
    assert_eq!(result.section_refs, vec!["domain:default/a".to_owned(), "domain:default/b".to_owned()]);
}
