# gatewaynode

The content side of a small blog, verified with Verus.

- `src/` — the library: file-name rules (stem and extension), page content
  types, markdown rendering, grouping of a content directory's files into
  pages by stem, ordering by creation time, the steps of loading a single
  page, and the site's fixed texts.
- `app/` — the web server: reads the content directory from disk, asks the
  library what to load and how to assemble it, and renders templates.
- `tests/` — tests of the library on concrete values.
