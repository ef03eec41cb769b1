# oryn

The logic of the Oryn Markdown workspace, verified with Verus.

- `src/markdown/`: Markdown to display blocks (headings, paragraphs, list
  items, rules, blank-line spacers) from the `pulldown-cmark` event stream;
  inline markup for bold, italic, code and links; LaTeX math to Unicode
  (with the `regex` crate); syntax-highlighted code blocks (with `syntect`);
  Mermaid diagrams to SVG (with `merman`).
- `src/workspace/`: the workspace configuration (open projects, pins) and its
  updates, the sidebar lists of documents and projects (pinned first, sorted,
  filtered by the search query), names for new and renamed files, paths
  compared by components, and which filesystem events cause a reload.
- `src/text.rs`: the text operations the rest is stated with (trimming,
  replacing, decimal numbers).
- `app/`: file system access, the configuration file and the filesystem
  watcher around the library.
- `tests/`: tests of the library on concrete values.
