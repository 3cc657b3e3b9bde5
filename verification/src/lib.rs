//! Markdown rendering building blocks with verified contracts: the render
//! backend and its HTML5, search-text and comment implementations, directive
//! syntax and dispatch, tab groups, heading ids, link and path resolution,
//! HTML escaping, deferred-content assembly and markdown bundling.

pub mod text;
pub mod kv;
pub mod util;
pub mod backend;
pub mod html;
pub mod search_document;
pub mod comment;
pub mod link;
pub mod wikilink;
pub mod diagram;
pub mod table;
pub mod toc;
pub mod directive;
pub mod tabs;
pub mod holes;
pub mod code_block;
pub mod status;
pub mod pipeline;
pub mod config;
pub mod renderer;
pub mod event;
pub mod walker;
pub mod pass;
pub mod bundle;

pub use backend::{AlertKind, Alignment, RenderBackend};
pub use bundle::bundle_markdown;
pub use code_block::{CodeBlockProcessor, ExtractedCodeBlock, FenceAttrs, ProcessResult};
pub use config::TitleResolver;
pub use diagram::{Asset, DiagramContent, DiagramLink, DiagramView, Size};
pub use html::HtmlBackend;
pub use pipeline::Pipeline;
pub use renderer::RenderResult;
pub use search_document::SearchDocumentBackend;
pub use status::StatusColor;
pub use tabs::TabInfo;
pub use toc::TocEntry;
pub use util::{escape_html, escape_into};
