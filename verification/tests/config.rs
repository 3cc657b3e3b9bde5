use rw_renderer::config::{RenderConfig, SectionIndex, SectionMatch};

struct Registry {
    empty: bool,
}

impl SectionIndex for Registry {
    fn resolve_refpath(&self, _target: &str, _base_path: Option<&str>) -> Option<(String, SectionMatch)> {
        None
    }

    fn is_empty(&self) -> bool {
        self.empty
    }

    fn find(&self, _href: &str) -> Option<SectionMatch> {
        None
    }
}

#[test]
fn config_builders_set_their_fields() {
    let cfg = RenderConfig::new()
        .with_title_extraction()
        .with_base_path("/guide".to_owned())
        .with_is_dir(false)
        .with_origin("docs".to_owned())
        .with_wikilinks(true);
    assert!(cfg.extract_title);
    assert_eq!(cfg.base_path.as_deref(), Some("/guide"));
    assert!(!cfg.is_dir);
    assert_eq!(cfg.origin_prefix.as_deref(), Some("docs/"));
    assert!(cfg.wikilinks);
}

#[test]
fn config_with_an_empty_registry_has_none() {
    let cfg = RenderConfig::new().with_sections(Box::new(Registry { empty: true }));
    assert!(cfg.sections.is_none());
    let cfg = RenderConfig::new().with_sections(Box::new(Registry { empty: false }));
    assert!(cfg.sections.is_some());
}
