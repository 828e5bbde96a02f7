# web2llm

Fetch web pages and turn their main content into clean, token-budgeted
Markdown for LLM ingestion and RAG pipelines.

The crate is a verified library: every function in `src/` carries a
contract that Verus proves, and the laws of the pipeline (layered
configuration, crawl bounds, batch outcomes, chunk numbering, idempotent
Markdown washing, ...) are stated as proof functions or postconditions.

- `src/` — the library: URL pre-flight and SSRF rules (`preflight`),
  robots.txt decisions (`robots`), SPA detection and fetch strategy
  (`fetch`), chunking of scored DOM trees (`scorer`), Markdown washing and
  token estimates (`tokens`), extraction (`extract`), results (`output`),
  crawl planning (`crawl`), configuration (`config`) and the command-line
  layering and reports (`cli`).
- `app/` — the `web2llm` command: argument parsing, TOML and JSON, HTTP and
  headless-browser fetching, the asynchronous engine, and the floating-point
  scoring of the DOM.
- `tests/` — tests of the library on concrete values.

Run `verus` on `src/lib.rs` to check the proofs.
