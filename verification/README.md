# wget-faster-lib

A wget-style downloader whose decisions and text formats are verified with
Verus.

- `src/` is the library. Each public function states its result in its
  contract; the `lemma_*` proof functions state laws that relate several
  functions (for example, that a cookie jar written to a cookie file reads
  back as the same jar, or that the planned chunks of a parallel download
  cover the file exactly once).
- `app/` is the `wgetf` program: command line, HTTP transfers with reqwest,
  files, terminal output and the floating point parts (speeds, backoff).
  It calls the library for every rule it applies.
- `tests/` runs the library on concrete inputs.

Tables keyed by text (cookie domains, robots.txt agents, converted links,
`.netrc` machines, visited pages) are vectors of entries whose keys are
kept unique, an invariant each type states; their contents are stated as
sequences and maps of character strings.

Modules of the library: `transfer` (status handling, resume, file modes,
headers), `chunks` (range plans), `recursive` (URL filter, save paths, link
extraction, crawl state), `link_converter`, `cookies`, `netrc`, `robots`,
`timestamping`, `cli` (options and their rules), `messages` (printed
lines), `error`, `config`, `progress`, `response_handler`,
`auth_handler`, `urls`, `paths`, `html` and `text`.
