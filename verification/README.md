# winxmerge

The core of a two- and three-way comparison and merge tool for text, CSV/TSV
tables, Excel workbooks, ZIP archives, images, binary files and folders,
written in Verus: the library's own functions are proved by Verus against
their contracts.

## Layout

- `src/` — the verified library.
  - `text`, `numfmt`, `names`: characters, lines, numbers and file names.
  - `diff_engine`, `three_way`, `models`: line diffs with the compare options
    (whitespace, case, blank lines, line endings, line filters, substitutions,
    moved lines) and three-way merges with conflicts.
  - `view`, `diff_view`, `pane_buffer`, `detail`, `navigation`, `session`:
    the rows shown in the panes, ghost rows that keep them aligned, the
    detail pane, moving between differences, search and the status line.
  - `text_edit`, `three_way_edit`, `replace`, `history`, `comments`, `saving`,
    `tabs`: editing the panes, copying blocks and selections, resolving
    conflicts, replacing, undo/redo, comments on blocks, deciding how panes
    are saved, and the list of open tabs.
  - `csv`, `table`, `table_edit`, `excel`, `archive`, `image_compare`, `hex`,
    `folder`, `folder_view`: the other kinds of comparison.
  - `encoding`, `highlight`, `export`, `patch`, `project`, `cli`, `options`:
    reading and writing files in their encoding, syntax highlighting, reports
    (and how an exported unified diff applies), project files, the command
    line and the settings fields.
- `tests/` — tests of the library on concrete values.
- `app/` — a command-line front end: reading files and folders, running the
  comparison and printing the result.

Calls into other crates (regex, similar, encoding_rs, chardetng, zip,
calamine, image, roxmltree, rust_xlsxwriter, tree-sitter) go through small
trusted functions that Verus does not check. Their contracts state what the
crates' sources show, name a result that would take pages to state, or,
where the result depends on the time, say only what holds of every result.
