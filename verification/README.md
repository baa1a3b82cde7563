# cepa

Storage accounting for a local disk-usage explorer, written in Verus: the
scan tree, the ranked and charted folder views, search, the request
lifecycles of scans, estimates and plans, and read-only compression
inspection, estimation and planning. The functions in `src/` carry
contracts that Verus proves, except the small wrappers marked
`#[verifier::external_body]`: each makes one call into std or an outside
crate (hashing, compression, regular expressions, lossy text decoding, case
folding, trimming), and Verus believes its contract, which its doc comment
states.

## Layout

- `src/` — the verified library.
  - `arena.rs`, `walk.rs`, `aggregate.rs`: the scan tree as an arena in which
    every parent precedes its children, built entry by entry with hard-link
    deduplication, then aggregated bottom-up.
  - `statx.rs`, `darwin.rs`, `winfs.rs`, `mft.rs`, `ntfs.rs`: the decisions of
    the native traversals (Linux `statx`, macOS bulk attribute records, Windows
    folder listings and the NTFS volume index): record parsing, entry
    classification, cloud exclusion and tree assembly.
  - `dispatch.rs`: which traversal a scan backend runs on which platform, and
    when a native traversal hands over to the portable walk.
  - `ranking.rs`, `snapshot.rs`, `chart.rs`, `query.rs`: bounded rankings,
    folder views, the nested chart and name search over a finished scan.
  - `lifecycle.rs`, `progress.rs`, `cancel.rs`: which request is current, what
    a superseded one may still do, and when progress is reported.
  - `compression.rs`, `estimator.rs`, `plan.rs`, `revision.rs`: compression
    capability and state reports, savings sampling, plan preparation and
    revalidation against the scanned file revision.
  - `roots.rs`, `desktop.rs`, `text.rs`, `types.rs`: scan roots, window
    placement and start-up rules, byte and text ordering and number text, and
    the shared report types.
- `tests/` — tests run against the compiled library with the real outside
  crates linked.
- `app/` — a command-line front end: file-system walks, kernel queries,
  threads and JSON output around the library.
