use rw_renderer::bundle::bundle_markdown;
use rw_renderer::code_block::{CodeBlockProcessor, FenceAttrs, ProcessResult};

struct UpperCaseProcessor;

impl CodeBlockProcessor for UpperCaseProcessor {
    fn process(&mut self, _language: &str, _attrs: &FenceAttrs, _source: &str, _index: usize) -> ProcessResult {
        ProcessResult::PassThrough
    }

    fn bundle(&mut self, language: &str, source: &str) -> Option<String> {
        if language == "upper" {
            Some(source.to_uppercase())
        } else {
            None
        }
    }

    fn warnings(&self) -> &[String] {
        &[]
    }

    fn section_refs(&self) -> Vec<String> {
        Vec::new()
    }
}

struct ExpandProcessor;

impl CodeBlockProcessor for ExpandProcessor {
    fn process(&mut self, _language: &str, _attrs: &FenceAttrs, _source: &str, _index: usize) -> ProcessResult {
        ProcessResult::PassThrough
    }

    fn bundle(&mut self, language: &str, source: &str) -> Option<String> {
        if language == "expand" {
            Some(source.chars().map(|c| format!("[{c}]")).collect())
        } else {
            None
        }
    }

    fn warnings(&self) -> &[String] {
        &[]
    }

    fn section_refs(&self) -> Vec<String> {
        Vec::new()
    }
}

struct ReverseProcessor;

impl CodeBlockProcessor for ReverseProcessor {
    fn process(&mut self, _language: &str, _attrs: &FenceAttrs, _source: &str, _index: usize) -> ProcessResult {
        ProcessResult::PassThrough
    }

    fn bundle(&mut self, language: &str, source: &str) -> Option<String> {
        if language == "reverse" {
            Some(source.chars().rev().collect())
        } else {
            None
        }
    }

    fn warnings(&self) -> &[String] {
        &[]
    }

    fn section_refs(&self) -> Vec<String> {
        Vec::new()
    }
}

#[test]
fn test_no_processors_returns_unchanged() {
    let md = "# Hello\n\n```rust\nfn main() {}\n```\n";
    let result = bundle_markdown(md, &mut []);
    assert_eq!(result, md);
}

#[test]
fn test_no_code_blocks_returns_unchanged() {
    let md = "# Hello\n\nSome paragraph text.\n\n- List item\n";
    let mut proc = UpperCaseProcessor;
    let result = bundle_markdown(md, &mut [&mut proc]);
    assert_eq!(result, md);
}

#[test]
fn test_non_matching_language_unchanged() {
    let md = "```rust\nfn main() {}\n```\n";
    let mut proc = UpperCaseProcessor;
    let result = bundle_markdown(md, &mut [&mut proc]);
    assert_eq!(result, md);
}

#[test]
fn test_matching_language_content_replaced() {
    let md = "```upper\nhello world\n```\n";
    let mut proc = UpperCaseProcessor;
    let result = bundle_markdown(md, &mut [&mut proc]);
    assert_eq!(result, "```upper\nHELLO WORLD\n```\n");
}

#[test]
fn test_surrounding_content_preserved() {
    let md = "# Title\n\nBefore.\n\n```upper\nhello\n```\n\nAfter.\n";
    let mut proc = UpperCaseProcessor;
    let result = bundle_markdown(md, &mut [&mut proc]);
    assert_eq!(
        result,
        "# Title\n\nBefore.\n\n```upper\nHELLO\n```\n\nAfter.\n"
    );
}

#[test]
fn test_multiple_code_blocks_only_matching_replaced() {
    let md = "```rust\nlet x = 1;\n```\n\n```upper\nhello\n```\n\n```python\nprint(1)\n```\n";
    let mut proc = UpperCaseProcessor;
    let result = bundle_markdown(md, &mut [&mut proc]);
    assert_eq!(
        result,
        "```rust\nlet x = 1;\n```\n\n```upper\nHELLO\n```\n\n```python\nprint(1)\n```\n"
    );
}

#[test]
fn test_multiple_processors_first_match_wins() {
    // Both processors handle "upper" — first one wins
    let md = "```upper\nhello\n```\n";
    let mut proc1 = UpperCaseProcessor;
    let mut proc2 = ReverseProcessor;
    let result = bundle_markdown(md, &mut [&mut proc1, &mut proc2]);
    assert_eq!(result, "```upper\nHELLO\n```\n");
}

#[test]
fn test_different_processors_different_blocks() {
    let md = "```upper\nhello\n```\n\n```reverse\nabc\n```\n";
    let mut proc1 = UpperCaseProcessor;
    let mut proc2 = ReverseProcessor;
    let result = bundle_markdown(md, &mut [&mut proc1, &mut proc2]);
    assert_eq!(result, "```upper\nHELLO\n```\n\n```reverse\ncba\n```\n");
}

#[test]
fn test_code_block_with_attributes_preserved() {
    let md = "```upper format=png\nhello\n```\n";
    let mut proc = UpperCaseProcessor;
    let result = bundle_markdown(md, &mut [&mut proc]);
    assert_eq!(result, "```upper format=png\nHELLO\n```\n");
}

#[test]
fn test_four_backtick_fence() {
    let md = "````upper\nhello\n````\n";
    let mut proc = UpperCaseProcessor;
    let result = bundle_markdown(md, &mut [&mut proc]);
    assert_eq!(result, "````upper\nHELLO\n````\n");
}

#[test]
fn test_indented_code_block_not_processed() {
    // Indented code blocks (4 spaces) are not fenced, should be skipped
    let md = "    indented code\n    more code\n";
    let mut proc = UpperCaseProcessor;
    let result = bundle_markdown(md, &mut [&mut proc]);
    assert_eq!(result, md);
}

#[test]
fn test_empty_code_block() {
    let md = "```upper\n```\n";
    let mut proc = UpperCaseProcessor;
    let result = bundle_markdown(md, &mut [&mut proc]);
    // Empty code block — processor gets empty string
    assert_eq!(result, "```upper\n```\n");
}

#[test]
fn test_code_block_no_language() {
    let md = "```\nsome content\n```\n";
    let mut proc = UpperCaseProcessor;
    let result = bundle_markdown(md, &mut [&mut proc]);
    assert_eq!(result, md);
}

#[test]
fn test_multiline_content() {
    let md = "```upper\nline one\nline two\nline three\n```\n";
    let mut proc = UpperCaseProcessor;
    let result = bundle_markdown(md, &mut [&mut proc]);
    assert_eq!(result, "```upper\nLINE ONE\nLINE TWO\nLINE THREE\n```\n");
}

#[test]
fn test_replacement_changes_content_length() {
    // "ab" (2 bytes) expands to "[a][b]" (6 bytes), "xy" to "[x][y]"
    let md = "```expand\nab\n```\n\nMiddle text.\n\n```expand\nxy\n```\n";
    let mut proc = ExpandProcessor;
    let result = bundle_markdown(md, &mut [&mut proc]);
    assert_eq!(
        result,
        "```expand\n[a][b]\n```\n\nMiddle text.\n\n```expand\n[x][y]\n```\n"
    );
}

#[test]
fn bundling_keeps_multibyte_text_around_a_replaced_block() {
    let md = "Привет 🎉\n\n```upper\nhé\n```\n\nпока\n";
    let mut proc = UpperCaseProcessor;
    let result = bundle_markdown(md, &mut [&mut proc]);
    assert_eq!(result, "Привет 🎉\n\n```upper\nHÉ\n```\n\nпока\n");
}

#[test]
fn a_tilde_fence_is_bundled_too() {
    let md = "~~~upper\nabc\n~~~\n";
    let mut proc = UpperCaseProcessor;
    assert_eq!(bundle_markdown(md, &mut [&mut proc]), "~~~upper\nABC\n~~~\n");
}

use rw_renderer::bundle::{apply_bundles, code_spans, CodeSpan, MdEvent, MdEventKind};

fn ev(kind: MdEventKind, start: usize, end: usize) -> MdEvent {
    MdEvent { kind, start, end }
}

#[test]
fn code_spans_follow_the_event_stream() {
    let events = [
        ev(MdEventKind::Other, 0, 3),
        ev(MdEventKind::FenceStart("upper {#x}".to_owned()), 4, 20),
        ev(MdEventKind::Text("ab\n".to_owned()), 13, 16),
        ev(MdEventKind::Text("cd\n".to_owned()), 16, 19),
        ev(MdEventKind::CodeBlockEnd, 4, 23),
        ev(MdEventKind::FenceStart(String::new()), 24, 30),
        ev(MdEventKind::Text("skipped\n".to_owned()), 28, 36),
        ev(MdEventKind::CodeBlockEnd, 24, 40),
        ev(MdEventKind::Text("outside".to_owned()), 41, 48),
    ];
    let spans = code_spans(&events);
    assert_eq!(spans.len(), 1);
    assert_eq!(spans[0].language, "upper");
    assert_eq!(spans[0].source, "ab\ncd");
    assert_eq!((spans[0].start, spans[0].end), (13, 18));
}

#[test]
fn apply_bundles_maps_byte_ranges_onto_characters() {
    let md = "é```x\nab\n```";
    let spans = [CodeSpan { language: "x".to_owned(), source: "ab".to_owned(), start: 7, end: 9 }];
    assert_eq!(apply_bundles(md, &spans, &[Some("Z".to_owned())]), "é```x\nZ\n```");
    assert_eq!(apply_bundles(md, &spans, &[None]), md);
    let inside_a_char = [CodeSpan { language: "x".to_owned(), source: String::new(), start: 1, end: 2 }];
    assert_eq!(apply_bundles(md, &inside_a_char, &[Some("Z".to_owned())]), md);
}
