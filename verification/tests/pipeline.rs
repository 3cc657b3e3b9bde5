use rw_renderer::code_block::{CodeBlockProcessor, FenceAttrs, ProcessResult};
use rw_renderer::pipeline::Pipeline;

struct DummyProcessor;

impl CodeBlockProcessor for DummyProcessor {
    fn bundle(&mut self, _language: &str, _source: &str) -> Option<String> {
        None
    }

    fn process(&mut self, _language: &str, _attrs: &FenceAttrs, _source: &str, _index: usize) -> ProcessResult {
        ProcessResult::PassThrough
    }

    fn warnings(&self) -> &[String] {
        &[]
    }

    fn section_refs(&self) -> Vec<String> {
        Vec::new()
    }
}

#[test]
fn new_pipeline_has_no_processors() {
    let p = Pipeline::new();
    assert!(p.processors.is_empty());
}

#[test]
fn with_processor_appends() {
    let p = Pipeline::new().with_processor(DummyProcessor).with_processor(DummyProcessor);
    assert_eq!(p.processors.len(), 2);
}

#[test]
fn default_pipeline_has_no_processors() {
    let p = Pipeline::default();
    assert_eq!(p.len(), 0);
}
