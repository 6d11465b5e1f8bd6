# mcpg-markdown-convert

Converts documents to Markdown: plain text, CSV, JSON, notebooks, XML, feeds,
HTML, Office files, EPUB, Outlook messages, PDF, spreadsheets, images, audio and
zip archives of any of these. The library detects what an input is, converts it
to one document model and renders that model, within limits on size, nesting and
time. What is cut, skipped or guessed is reported as a warning.

The library is written in Verus. Every function states what it returns, and the
proofs are part of the source.

## Layout

- `src/chars.rs`, `text.rs`, `bytes.rs`: text and bytes, as mathematical
  sequences and as code.
- `src/ir.rs`, `error.rs`, `config.rs`, `stream_info.rs`: the document model,
  errors and warnings, options, what is known of an input.
- `src/detect.rs`: what an input may be.
- `src/cx.rs`, `registry.rs`, `engine.rs`: budgets, converters and the order in
  which they are tried.
- `src/converters/`: one module for each format.
- `src/markdown.rs`, `render.rs`, `template.rs`: from documents to Markdown.
- `src/guarantees.rs`, `spacing.rs`, `disclosure.rs`: what holds of every
  rendering, such as that text cannot forge markup, how blank lines come out,
  and which cuts are reported. Further laws stand beside the functions they are
  about.
- `app/`: the host's side, with serialisable options and documents, and the
  extractors for PDF files, workbooks, HTML and audio and the templates under a
  panic guard.
- `tests/`: the same promises on concrete inputs.

## What is trusted

Parsers from other crates are called through small functions marked
`external_body`; each names the outside function and says what is claimed of it.
Where a result takes pages to describe it is given a name, and contracts speak of
that name. Four parsers, `pdf-extract`, `calamine`, `htmd` and `lofty`, panic or
exhaust the stack on damaged files, and so does `minijinja` on some templates and
values: the host runs them (`Extractor`) and the library is proved for whatever
they hand back. The clock is read between the
parts of an input; a contract says at which of them the time may run out.
