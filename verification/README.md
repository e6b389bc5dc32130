# sview

`sview` builds compact structure views of source files for coding agents:
outlines of headings, items and declarations, each with the line range it
spans and a short preview, rendered as a tree or as JSON.

The library in `src/` is written in Verus. Its functions state what they
return in contracts; where a result comes from tree-sitter or from a
path's text, the contract names that result. The properties that span
functions are stated and proved as `law_*` proof functions:

- `text` — trimming, line splitting, previews, file names.
- `model` — languages, outline nodes, structure views, render options.
- `tree` — flat item lists and the trees they describe; under every
  parent that reaches the top the tree lists that parent's items in order,
  building undoes pre-order flattening, reading a block-ordered list's tree
  in pre-order gives the list back, a parents-first list keeps every item
  once, and nested item ranges give nested node ranges.
- `markdown` — the line-oriented Markdown outline; its headings, in
  pre-order, are the heading lines outside frontmatter and fences, each
  closed before the next heading of the same or a higher rank; ranges nest
  inside the headings that hold them, and headings nest by level.
- `render` — the text outline: the header, then the lines of the visible
  nodes in pre-order up to the node allowance, each prefixed after its
  ancestors, then a `...` line when the allowance runs out.
- `syntax` — tree-sitter parsing behind a few trusted calls, read out as
  plain values.
- `query`, `rust`, `java`, `javascript`, `kotlin`, `cpp`, `objc`, `swift`
  — the per-language rules that turn syntax nodes into outline items.
- `traverse` — the shared walk over a syntax tree.
- `analyzer` — language detection and the analysis entry point.

`app/` holds the command-line front end: argument parsing, file reading and
JSON output.
