# kagi

The verified core of three command-line tools for Kagi: `kagi-search` (web
search), `kagi-maps` (places) and `kagi-summarize` (URL summaries).

`src/` is a Verus library. Its functions have contracts that Verus proves,
except the small wrappers marked `#[verifier::external_body]` around calls
into `scraper`, `serde_json` and `std`, whose contracts Verus takes on trust:

- `cli`: the options of the tools, the API values of lenses, orderings, time
  ranges and summary types, the `--json` shortcut and the date check.
- `request`: the query text, the query parameters of each request, the
  response status checks, where the session token comes from (the variable
  first, the token files only when it gives none) and the decision on each
  candidate token file (skip, read or refuse).
- `search`: the reader of a search result page, stated over what `scraper`
  answers for the page (`html`), and the whole answer to a search (response
  check, body, page).
- `summary`: the reader of the summarizer stream, stated over what
  `serde_json` answers for the final state (`json`), and the whole answer to
  a summarize request.
- `maps`: the ranking of maps results by relevance, rating, distance or price,
  and the cut to `--limit` after the whole page is ranked.
- `output`: the plain-text rendering, which lets no control character other
  than line feed and tab reach the terminal.
- `text`: character-level string helpers and the few `std` string operations
  the library uses.

`app/` holds what Verus does not see: argument parsing with `clap`, the HTTP
requests, the token file on disk, the maps JSON (which holds floating-point
numbers) and printing.
