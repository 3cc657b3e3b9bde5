use rw_renderer::config::TitleResolver;
use rw_renderer::wikilink::{display_text, display_text_with_title, title_path, WikilinkResolution};

#[test]
fn display_text_fragment_strips_hash_and_replaces_dashes_with_spaces() {
    let res = WikilinkResolution::Fragment;
    assert_eq!(display_text(None, &res, "#hello-world-now"), "hello world now");
}

#[test]
fn display_text_broken_returns_raw_target() {
    let res = WikilinkResolution::Broken;
    assert_eq!(display_text(None, &res, "broken/target"), "broken/target");
}

#[test]
fn display_text_resolved_uses_subpath_basename_when_no_resolver() {
    let res = WikilinkResolution::Resolved {
        href: "/foo/bar".to_owned(),
        section_ref: "domain:billing".to_owned(),
        section_name: "billing".to_owned(),
        subpath: "foo/bar".to_owned(),
    };
    assert_eq!(display_text(None, &res, "unused-for-resolved"), "bar");
}

#[test]
fn display_text_resolved_falls_back_to_section_name_when_subpath_empty() {
    let res = WikilinkResolution::Resolved {
        href: "/foo".to_owned(),
        section_ref: "domain:billing".to_owned(),
        section_name: "billing".to_owned(),
        subpath: String::new(),
    };
    assert_eq!(display_text(None, &res, "unused-for-resolved"), "billing");
}

struct StaticResolver;

impl TitleResolver for StaticResolver {
    fn resolve_title(&self, path: &str) -> Option<String> {
        if path == "domains/billing/overview" {
            Some("Billing Overview".to_owned())
        } else {
            None
        }
    }
}

#[test]
fn display_text_resolved_uses_resolver_when_present() {
    let resolver = StaticResolver;
    let res = WikilinkResolution::Resolved {
        href: "/domains/billing/overview".to_owned(),
        section_ref: "domain:billing".to_owned(),
        section_name: "billing".to_owned(),
        subpath: "domains/billing/overview".to_owned(),
    };
    assert_eq!(display_text(Some(&resolver), &res, "unused-for-resolved"), "Billing Overview");
}

struct AlwaysNoneResolver;

impl TitleResolver for AlwaysNoneResolver {
    fn resolve_title(&self, _path: &str) -> Option<String> {
        None
    }
}

#[test]
fn display_text_resolved_falls_through_when_resolver_returns_none() {
    let resolver = AlwaysNoneResolver;
    let res = WikilinkResolution::Resolved {
        href: "/foo/bar".to_owned(),
        section_ref: "domain:billing".to_owned(),
        section_name: "billing".to_owned(),
        subpath: "foo/bar".to_owned(),
    };
    assert_eq!(display_text(Some(&resolver), &res, "unused-for-resolved"), "bar");
}

#[test]
fn the_title_is_looked_up_without_slash_or_fragment() {
    assert_eq!(title_path("/domains/billing/overview#setup"), "domains/billing/overview");
    assert_eq!(title_path("plain"), "plain");
    assert_eq!(title_path("#only"), "");
}

#[test]
fn resolved_text_falls_back_to_the_href_last() {
    let res = WikilinkResolution::Resolved {
        href: "/x".to_owned(),
        section_ref: String::new(),
        section_name: String::new(),
        subpath: String::new(),
    };
    assert_eq!(display_text_with_title(&res, "t", None), "/x");
    assert_eq!(display_text_with_title(&res, "t", Some("Title".to_owned())), "Title");
    assert_eq!(display_text_with_title(&WikilinkResolution::Fragment, "no-hash", None), "no hash");
}

#[test]
fn resolve_fragment_returns_fragment_variant() {
    assert!(matches!(
        rw_renderer::wikilink::resolve(None, None, "#some-fragment"),
        WikilinkResolution::Fragment
    ));
}

#[test]
fn resolve_no_sections_returns_broken() {
    assert!(matches!(
        rw_renderer::wikilink::resolve(None, None, "domain:billing::overview"),
        WikilinkResolution::Broken
    ));
}
