# atlas

Security drift intelligence: scan a target's exposed surface, keep
snapshots of it, and reason about what changed between them.

The library (`src/`) is verified with Verus. Every public function states
what it returns in its `ensures`, over spec functions and views; the laws
that tie several functions together are public proof functions named
`law_*`.

- `text`, `order`, `ids`: strings, sorted sets of strings and stable sorts,
  stable identifiers (SHA-256 through `sha2` and `hex`).
- `common`, `config`, `auth`, `api`, `query`: shared types, configuration and
  its rules, request authorization, request and response shapes, the query
  model.
- `diff`, `drift`, `classify`, `report`, `timeline`, `plugins`: snapshot
  diffs, drift findings and policies, drift reports, timelines with
  new/recurring/persistent/resolved findings, finding plugins.
- `correlation`: grouping findings into clusters and risk episodes.
- `graph`, `sources`, `engine`, `parser`: the exposure graph, how it is built
  from snapshots, timelines and episodes, and the query language over it.
- `risk`, `summary`, `executive`, `operations`: risk, summary and executive
  reports, alerts, per-owner summaries and incident reconciliation.
- `texts`: the human-readable text of the diff, drift, timeline, risk and
  summary reports, line by line.
- `jobs`, `discovery`, `http`, `ip`: scheduled jobs and their queue, target
  normalization, what an HTTP answer reveals, IP literals.

`app/` is the command line around the library: network scanning, files
(snapshots as JSON, policies as JSON, the configuration as TOML, reports
as JSON) and printing. Times are whole seconds from the Unix epoch. `tests/` exercises the library from outside.
