# ssh-bench

A command-line tool that measures SSH latency (authentication, session open,
remote command) and throughput under a chosen concurrency, and reports p50, p99,
min, max and average figures.

- `src/` is the verified library: option validation (`cli`), target parsing and
  rotation (`target`), run planning (`bench`), sample trimming and percentile
  ranks (`stats`), report counting (`model`), error categories (`error`), the
  decisions taken on SSH channel events and error labels (`ssh`), and the text
  helpers they share (`text`).
- `app/` is the program around it: command-line parsing, SSH connections, timing,
  the floating-point summaries and the rendering of reports.
- `tests/` exercises the library on concrete values.
