# artifact

A disk-space analyzer that finds build-artifact directories (`node_modules`,
Rust `target/`, Python virtual environments, ...) and removes them safely.

- `src/` is the verified library: the rule registry, every scan decision
  (which directories are walked, which match, orphan detection, ranking),
  re-validation before deletion, cleanup manifests and runs, the deletion
  history (records, schema handling, statistics, run grouping), the results
  and browser models, settings, notices and display text. Each function
  carries a contract proved by Verus; the laws that relate several functions
  are public proof functions.
- `app/` is the program around it: the configuration file, logging, the
  embedded history database, the filesystem walk, trashing and removal, and
  a command-line entry point.
- `tests/` exercises the library on concrete values.
