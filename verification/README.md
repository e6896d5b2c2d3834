# reqlang

Request files are markdown documents that hold an HTTP request in a
`%request` code block, optionally an expected response in a `%response`
block and a TOML config in a `%config` block. The config declares
environments and their variables, prompts and secrets, which the request and
response reference as `{{:variable}}`, `{{?prompt}}`, `{{!secret}}` and
`{{@provider}}`.

The library in `src/` is written in Verus; each function states its
behaviour in `requires`/`ensures` and Verus proves it.

- `extract_codeblocks`, `ast`: the syntax tree of a file (markdown is read by
  the `markdown` crate).
- `parser`: template and expression references, the request and response
  blocks (read by `httparse`), the config and the checks of a whole file.
- `expression`, `templater`: evaluating references and `{( )}` expression
  references with the `reqlang-expr` language in an environment of
  variables, prompts, secrets and providers, and replacing them with the
  text they evaluate to.
- `assert_response`: comparing an expected response with the actual one, and
  the line diffs (by `similar`) that show the differences.
- `export`: requests as HTTP messages and curl commands.
- `diagnostics`, `str_idxpos`, `semantic_tokens`: positions in a file for
  editors (line and column lookup by the `line-col` crate).
- `splitter`, `unresolved`, `resolver`: splitting a file into its blocks and
  resolving environments, prompts and secrets.

`app/` is the `reqlang` command line program: it reads files, decodes the
TOML config with `toml`, writes JSON with `serde_json`, sends requests with
`reqwest` and colours response differences with `console`.
