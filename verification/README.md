# absolem

See the *shape* of a change before reading any code.

`absolem` surfaces the structural API that moved between two git refs — types,
interfaces, functions, methods, fields, variants, consts — so that one walks
into a diff already holding a mental model of what changed. Bodies are not the
point; the contracts are.

```
producer.extract(ref) ─► Surface ┐
                                  ├─► changes::diff ─► ChangeSet ─► frontend
producer.extract(ref) ─► Surface ┘
```

## Layout

- `src/` — the library, verified with Verus: every function carries a contract,
  and the properties that span functions stand as public proof functions whose
  names start with `law_`.
  - `item`, `surface` — what a file declares.
  - `producer` — Go and Rust sources into surfaces, by way of tree-sitter.
  - `changes`, `diff_laws`, `count_laws` — the diff of two surfaces, grouped into
    blocks.
  - `index`, `index_laws` — names resolved across a whole tree.
  - `git`, `range`, `review` — what is asked of git, which refs are compared,
    and the review that comes of it.
  - `render`, `markdown`, `json` — the printing frontends.
  - `tui` — the interactive frontend, but for the terminal itself.
  - `text`, `text_laws` — text primitives.
- `tests/` — the library at work, on the real parsers.
- `app/` — the program: arguments, the git process, the terminal, the editor.

What the library takes on trust is declared where it is used: the wrappers
around tree-sitter in `producer::syntax`, around serde_json in `json`, and a few
functions of the standard library in `text` and `git`. Each says in its doc
comment what it claims.
