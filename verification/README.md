# rw_renderer

Building blocks of a markdown renderer, written in Verus with their
contracts proved:

- `backend` — the `RenderBackend` trait: each operation appends exactly the
  text its `_text` specification names, HTML5 by default; `html`,
  `search_document` and `comment` implement it for pages, search text and
  comment bodies. `html` also resolves relative `.md` links.
- `directive` — directive syntax (`:inline`, `::leaf`, `:::container`):
  argument parsing, line parsing, handler traits, dispatch, deferred output
  (`fills`) and post-processing replacements.
- `tabs` — `::: tabs` groups: fence tracking, the preprocessor that turns
  them into intermediate elements, the post-processor that turns those into
  accessible markup, and the built-in container directive.
- `toc`, `util` — heading ids and the table of contents; slugs and HTML
  escaping.
- `event`, `walker` — the event vocabulary a markdown tokenizer produces,
  and the walker that interprets a stream of events into backend output:
  scopes for headings and images, lists, alerts, tables, links and
  wikilinks, directives, built-in tabs and status badges, code block
  processors, and holes filled once the walk is over. The walk buffer only
  ever grows, so every reserved hole keeps naming its place.
- `config` — what a renderer is configured with: base path and origin,
  title extraction, and the section registry and title lookup that links
  and wikilinks consult.
- `holes` — splicing deferred content into rendered output at reserved
  offsets.
- `pass` — the second phase of a render: diagram fences, once resolved
  elsewhere, become figures (or error figures, or their source) written at
  their holes, with duplicate-id and provider warnings and the section refs
  of their SVG links.
- `diagram`, `link`, `wikilink`, `table`, `status`, `code_block`,
  `pipeline`, `bundle` — diagram figures and their section links, link
  bases and section attributes, wikilink display text, table cell state,
  status badge colors, fence info strings and code block processors,
  per-render processor lists, and markdown bundling.

`app/` holds what stays outside the verified library: reading included
files from disk, the serializable and `std::error::Error` forms of library
types, and conversions from the markdown parser's own types.

No tokenizer ships here: the walker takes events from whatever produces
them, and `Walker::accepts_event` tells a caller whether the next event
meets its precondition.
