# qnap

A command-line client for QNAP NAS devices whose core is verified with Verus.

- `src/` is the verified library: reading the flat XML documents the NAS
  answers with (`xml`), adapters and DNS servers (`network`), system
  information and firmware checks (`info`), volumes and disks (`volumes`),
  file listings (`files`), shares (`shares`), resource figures (`status`),
  fixture anonymisation, including file-listing JSON (`dump`), connection settings and host
  normalisation (`config`), the login/session protocol (`session`), and the
  command-line decisions such as error kinds and exit codes (`cli`), and the
  machine-readable description of the commands and error kinds (`schema`).
  Character-level search, trimming and decimal conversion live in `text`.
  Each public function states its result over `Seq<char>` models; the
  `law_*` proof functions state properties that span several functions.
- `app/` is the program around it: argument parsing, HTTP requests, files,
  prompts, JSON output, and the floating-point metrics.
- `tests/` exercises the library on concrete inputs.
