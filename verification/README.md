# matchy_core

The verified core of `matchy`, a tool that compares two renderings of the same
page (old site and new site) and reports what changed.

- `src/` is the library, written in Verus: every function carries a contract
  that Verus proves. Calls into `url`, `serde_json`, `sha2` and `hex` go
  through small trusted wrappers whose contracts name what those crates
  compute.
- `app/` is the `matchy` command (`doctor` and `explain`): argument parsing,
  files, child processes and printing around the library.
- `tests/` exercises the library on concrete inputs.

Modules of the library: capture contract types (`contract`), configuration
constants (`config`), baselines, clustering, doctor verdicts, probe egress
rules, the `explain` report, hit-test tallies, URL hygiene checks, issue ids,
locale path rules, the exact parts of node matching, network and console
diffs, capture orchestration helpers and the command-line runner's
decisions.

Issue drafts (`drafts`) are the issues the checks report, with every field
but the confidence score, which is a floating-point value left to the caller.
The accessibility, network/console and URL-hygiene checks (`hygiene_issues`:
status parity, trailing slashes, redirect chains, protocol downgrades,
canonical mismatch, locale paths) build them; their evidence and remediation are
lists of JSON leaves addressed by dotted paths, and the severity comes from a
caller-supplied `SeverityProfile`.

`clickable` picks the matched node pairs whose hit-test tallies report a
clickable-area regression; the confidence and percentages of that issue are
floating-point and left to the caller.
