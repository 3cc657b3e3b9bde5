use rw_renderer::backend::{AlertKind, RenderBackend};
use rw_renderer::comment::{is_allowed_link_scheme, CommentBackend};

#[test]
fn only_web_and_mail_links_keep_their_href() {
    assert!(is_allowed_link_scheme("https://example.com"));
    assert!(is_allowed_link_scheme("  HTTP://EXAMPLE.COM "));
    assert!(is_allowed_link_scheme("MailTo:a@b.c"));
    assert!(!is_allowed_link_scheme("javascript:alert(1)"));
    assert!(!is_allowed_link_scheme("./relative.md"));
    assert!(!is_allowed_link_scheme("tel:123"));
    assert!(!is_allowed_link_scheme("data:text/html,x"));
}

#[test]
fn comment_links_are_balanced_and_neutralized() {
    let mut out = String::new();
    CommentBackend::link_start("javascript:alert(1)", None, &mut out);
    CommentBackend::text("x", &mut out);
    CommentBackend::link_end(&mut out);
    assert_eq!(out, "<a>x</a>");
    let mut out = String::new();
    CommentBackend::link_start("https://a.b/?q=1&r=2", Some(("s", "p")), &mut out);
    assert_eq!(out, r#"<a href="https://a.b/?q=1&amp;r=2">"#);
}

#[test]
fn comment_structure_is_restricted() {
    let mut out = String::new();
    CommentBackend::heading_start(1, "id", &mut out);
    CommentBackend::text("Title", &mut out);
    CommentBackend::heading_end(1, &mut out);
    CommentBackend::alert_start(AlertKind::Warning, &mut out);
    CommentBackend::alert_end(AlertKind::Warning, &mut out);
    CommentBackend::image("i.png", "alt", "", &mut out);
    CommentBackend::table_start(&mut out);
    CommentBackend::table_cell_start(true, None, &mut out);
    CommentBackend::text("a", &mut out);
    CommentBackend::table_cell_end(true, &mut out);
    CommentBackend::table_end(&mut out);
    CommentBackend::raw_html("<b>x</b>", &mut out);
    CommentBackend::code_block(Some("rs"), "<x>", &mut out);
    assert_eq!(
        out,
        r#"<p>Title</p><blockquote></blockquote>a &lt;b&gt;x&lt;/b&gt;<pre><code class="language-rs">&lt;x&gt;</code></pre>"#
    );
    assert!(!CommentBackend::title_as_metadata());
}
