# stryke-spark

Apache Spark client for stryke: a verified core in `src/`, the C exports and the helper
program around it in `app/`.

- `text` — characters, numbers, splitting, lines.
- `json`, `wire`, `error` — JSON values, and their way from and to text through `serde_json`.
- `ident`, `names` — backtick quoting and dotted table names.
- `master` — Spark master URLs.
- `memory` — Spark sizes (`512m`, `2g`).
- `launch`, `opts` — where `spark-submit` is looked for and what it is started with.
- `requests` — what is asked of the PySpark driver, and what is made of its rows.
- `call`, `exports` — one call from the bytes of its argument to the text of its reply.
- `helper` — the helper program from its command line to its exit code.

The core does no I/O. A call or a run is a chain of steps: the core says what to do next
(write the driver into a file, look whether a path is a file, run a program, hand out the
reply), `app/` does it and hands back what it found out.

What rests on `serde_json` is stated in `json` and `wire`, above each item that calls it.
