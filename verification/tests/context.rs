use rw_renderer::directive::{DirectiveContext, ReadFile, ResolveError};

struct EmptyReader;

impl ReadFile for EmptyReader {
    fn read_file(&self, _path: &str) -> std::io::Result<String> {
        Ok(String::new())
    }
}

struct FixedReader;

impl ReadFile for FixedReader {
    fn read_file(&self, _path: &str) -> std::io::Result<String> {
        Ok("file content".to_owned())
    }
}

struct FailingReader;

impl ReadFile for FailingReader {
    fn read_file(&self, _path: &str) -> std::io::Result<String> {
        Err(std::io::Error::new(std::io::ErrorKind::NotFound, "not found"))
    }
}

#[test]
fn test_read_file() {
    let ctx_reader = FixedReader;
    let ctx = DirectiveContext::new(None, ".", 1, &ctx_reader);

    let result = ctx.read("test.md");
    assert_eq!(result.unwrap(), "file content");
}

#[test]
fn test_read_file_error() {
    let ctx_reader = FailingReader;
    let ctx = DirectiveContext::new(None, ".", 1, &ctx_reader);

    let result = ctx.read("nonexistent.md");
    assert!(result.is_err());
}

#[test]
fn test_resolve_path_happy_path() {
    let ctx_reader = EmptyReader;
    let ctx = DirectiveContext::new(None, "/docs", 1, &ctx_reader);

    assert_eq!(
        ctx.resolve_path("snippets/code.md"),
        Ok("/docs/snippets/code.md".to_owned())
    );
}

#[test]
fn test_resolve_error_display_messages() {
    assert_eq!(
        ResolveError::Absolute.message(),
        "path is absolute; only paths relative to the base directory are allowed"
    );
    assert_eq!(
        ResolveError::WindowsPrefix.message(),
        "path uses a Windows-specific prefix that is not allowed"
    );
    assert_eq!(
        ResolveError::Traversal.message(),
        "path escapes the base directory"
    );
    assert_eq!(
        ResolveError::InvalidChar.message(),
        "path contains an invalid character"
    );
}

#[test]
fn test_resolve_path_current_dir_segments() {
    let ctx_reader = EmptyReader;
    let ctx = DirectiveContext::new(None, "/docs", 1, &ctx_reader);
    assert_eq!(
        ctx.resolve_path("./snippets/code.md"),
        Ok("/docs/snippets/code.md".to_owned())
    );
    assert_eq!(
        ctx.resolve_path("a/./b/../c.md"),
        Ok("/docs/a/c.md".to_owned())
    );
}

#[test]
fn test_resolve_path_internal_parent_dirs_allowed() {
    let ctx_reader = EmptyReader;
    let ctx = DirectiveContext::new(None, "/docs", 1, &ctx_reader);
    // Steps into subdir then back out, lands in base
    assert_eq!(
        ctx.resolve_path("a/b/../../c.md"),
        Ok("/docs/c.md".to_owned())
    );
}

#[test]
fn test_resolve_path_traversal_above_root() {
    let ctx_reader = EmptyReader;
    let ctx = DirectiveContext::new(None, "/docs", 1, &ctx_reader);
    assert_eq!(
        ctx.resolve_path("a/b/../../../c.md"),
        Err(ResolveError::Traversal)
    );
    assert_eq!(
        ctx.resolve_path("../etc/passwd"),
        Err(ResolveError::Traversal)
    );
}

#[test]
fn test_resolve_path_unix_absolute() {
    let ctx_reader = EmptyReader;
    let ctx = DirectiveContext::new(None, "/docs", 1, &ctx_reader);
    assert_eq!(ctx.resolve_path("/etc/passwd"), Err(ResolveError::Absolute));
    // Still Absolute even if it would happen to "stay inside"
    let ctx_etc_reader = EmptyReader;
    let ctx_etc = DirectiveContext::new(None, "/etc", 1, &ctx_etc_reader);
    assert_eq!(
        ctx_etc.resolve_path("/etc/passwd"),
        Err(ResolveError::Absolute)
    );
}

#[test]
fn test_resolve_path_windows_current_drive_rooted() {
    let ctx_reader = EmptyReader;
    let ctx = DirectiveContext::new(None, "/docs", 1, &ctx_reader);
    assert_eq!(ctx.resolve_path(r"\foo"), Err(ResolveError::Absolute));
}

#[test]
fn test_resolve_path_windows_unc() {
    let ctx_reader = EmptyReader;
    let ctx = DirectiveContext::new(None, "/docs", 1, &ctx_reader);
    assert_eq!(
        ctx.resolve_path(r"\\server\share\file"),
        Err(ResolveError::Absolute)
    );
}

#[test]
fn test_resolve_path_windows_verbatim_and_device() {
    let ctx_reader = EmptyReader;
    let ctx = DirectiveContext::new(None, "/docs", 1, &ctx_reader);
    assert_eq!(
        ctx.resolve_path(r"\\?\C:\foo"),
        Err(ResolveError::WindowsPrefix)
    );
    assert_eq!(
        ctx.resolve_path(r"\\?\UNC\server\share"),
        Err(ResolveError::WindowsPrefix)
    );
    assert_eq!(
        ctx.resolve_path(r"\\.\PhysicalDrive0"),
        Err(ResolveError::WindowsPrefix)
    );
}

#[test]
fn test_resolve_path_windows_drive_absolute() {
    let ctx_reader = EmptyReader;
    let ctx = DirectiveContext::new(None, "/docs", 1, &ctx_reader);
    assert_eq!(
        ctx.resolve_path(r"C:\Windows\System32"),
        Err(ResolveError::Absolute)
    );
    assert_eq!(
        ctx.resolve_path("c:/Windows/System32"),
        Err(ResolveError::Absolute)
    );
}

#[test]
fn test_resolve_path_windows_drive_relative() {
    let ctx_reader = EmptyReader;
    let ctx = DirectiveContext::new(None, "/docs", 1, &ctx_reader);
    assert_eq!(ctx.resolve_path("C:foo"), Err(ResolveError::WindowsPrefix));
    assert_eq!(ctx.resolve_path("c:foo"), Err(ResolveError::WindowsPrefix));
    // Bare drive letter
    assert_eq!(ctx.resolve_path("C:"), Err(ResolveError::WindowsPrefix));
}

#[test]
fn test_resolve_path_control_chars() {
    let ctx_reader = EmptyReader;
    let ctx = DirectiveContext::new(None, "/docs", 1, &ctx_reader);
    assert_eq!(ctx.resolve_path("a\0b"), Err(ResolveError::InvalidChar));
    assert_eq!(ctx.resolve_path("a\tb"), Err(ResolveError::InvalidChar));
    assert_eq!(ctx.resolve_path("a\nb"), Err(ResolveError::InvalidChar));
}

#[test]
fn test_resolve_path_normalizes_embedded_backslashes() {
    // Embedded backslashes in a relative path are treated as separators
    // so the same markdown source resolves identically on Unix and Windows.
    // The Windows-prefix attacks (leading \, drive letter, UNC, \\?\, \\.\)
    // were rejected before reaching this point.
    let ctx_reader = EmptyReader;
    let ctx = DirectiveContext::new(None, "/docs", 1, &ctx_reader);
    assert_eq!(
        ctx.resolve_path(r"subdir\file.md"),
        Ok("/docs/subdir/file.md".to_owned())
    );
    // Traversal via backslash is also caught.
    assert_eq!(
        ctx.resolve_path(r"..\secret.md"),
        Err(ResolveError::Traversal)
    );
    // Mixed separators are normalized.
    assert_eq!(
        ctx.resolve_path(r"a/b\c.md"),
        Ok("/docs/a/b/c.md".to_owned())
    );
}

#[test]
fn test_resolve_path_empty_and_dot() {
    let ctx_reader = EmptyReader;
    let ctx = DirectiveContext::new(None, "/docs", 1, &ctx_reader);
    assert_eq!(ctx.resolve_path(""), Ok("/docs".to_owned()));
    assert_eq!(ctx.resolve_path("."), Ok("/docs".to_owned()));
}


#[test]
fn context_accessors_report_what_it_was_made_with() {
    let reader = EmptyReader;
    let ctx = DirectiveContext::new(Some("docs/a.md"), "/docs", 7, &reader);
    assert_eq!(ctx.source_path(), Some("docs/a.md"));
    assert_eq!(ctx.base_dir(), "/docs");
    assert_eq!(ctx.line(), 7);
}

#[test]
fn resolve_path_joins_onto_a_base_with_a_trailing_slash() {
    let reader = EmptyReader;
    let ctx = DirectiveContext::new(None, "/docs/", 1, &reader);
    assert_eq!(ctx.resolve_path("x//y.md"), Ok("/docs/x/y.md".to_owned()));
    let ctx = DirectiveContext::new(None, "", 1, &reader);
    assert_eq!(ctx.resolve_path("x.md"), Ok("x.md".to_owned()));
}

#[test]
fn the_default_reader_refuses_every_read() {
    let reader = rw_renderer::directive::context::NoReader;
    let ctx = DirectiveContext::new(None, ".", 1, &reader);
    assert!(ctx.read("anything.md").is_err());
}
