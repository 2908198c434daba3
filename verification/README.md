# archdoc

Architecture documentation for Python projects: the project is scanned, each Python
file's imports, definitions and calls are extracted, resolved into a project model
(modules, files, symbols and the edges between them), and Markdown documents are
written whose generated sections are replaced in place while hand-written text is
kept.

The library under `src/` is verified with Verus; every public function states what it
returns in its contract.

- `config` — the configuration, its defaults, duration and size parsing, validation.
- `python_ast`, `python_parse`, `python_analyzer` — the syntax tree the analyzer reads,
  parsing Python with rustpython into it, extraction of imports, symbols and calls,
  and their resolution into a `ProjectModel`.
- `model`, `strmap` — the project model; maps keep keys in first-insertion order.
- `cycle_detector` — circular imports between modules, found by depth-first search.
- `writer` — generated-section markers, in-place replacement, timestamps, templates.
- `docs`, `stats` — per-file documents and the statistics report.
- `cache`, `scanner` — the rules of the parse cache and of file selection.

`app/` is the command-line program around the library: argument handling, reading
and writing files, walking the project tree, and printing.
