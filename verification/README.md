# transtractor_rs (verified core)

The verified part of a bank statement reader that turns PDF statements into
transaction data.

- `src/` is the library, checked by Verus:
  - `text`: line splitting with the semantics of `str::lines`, Unicode white
    space, blank lines, joining strings.
  - `text_item`: a line of text with its box on a page.
  - `pdf_extractor`: from the text of each PDF page to stacked text items, one
    per non-blank line, with the laws that they come in reading order and hold
    the non-blank lines of their page.
  - `api`: `ConfigRun`, every decision of a parse or debug request (which keys,
    which configuration to look up next, when to run the parsers, which result
    or error to return), driven by its caller's answers.
  - `error`: `ParseError` and its messages.
- `app/` is the unverified rest: reading PDFs through pdfium, the `Parser` that
  holds the configuration store and statement typer of `transtractor_core` and
  drives a `ConfigRun` for each request, and the error type with `thiserror`'s
  derives.
