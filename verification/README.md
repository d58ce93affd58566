# Sift

Sift scans a repository, extracts the declarations of its source files with
tree-sitter grammars (Rust, C, C++, Go, JavaScript, TypeScript, Python), and
reports on them: a directory map (`sift map`), a symbol search (`sift find`)
and statistics (`sift stats`).

The library in `src/` is written in Verus. Its functions are verified by
Verus against their contracts; the calls into std and tree-sitter sit
behind a small set of trusted wrappers whose contracts are believed, not
proved.

- `primitives` — FNV-1a hashing, byte counting, first-occurrence search.
- `language`, `model`, `text`, `paths`, `path_order` — languages and
  extensions, the data model, string ordering, path decomposition, and the
  component order of paths.
- `syntax`, `lang/*`, `extract`, `treesitter` — the syntax-tree model, the
  per-language declaration rules, and the conversion of a tree-sitter parse
  into that model.
- `scanner`, `index`, `render`, `cli` — the scan decisions, the index with
  search and statistics, and the three reports.
- `native` — status codes, a capacity-accounted byte buffer, a bump arena
  and scan accounting.

`app/` is the `sift` program: argument parsing, the directory walk (with the
`ignore` crate), file reads and output. It hands what it reads to the
library and prints what the library renders.
