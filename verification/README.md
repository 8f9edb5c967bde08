# linearf

The core of a fuzzy finder for vim and neovim, verified with Verus.

`src/` holds the verified library:

- `value`, `score`: the scores that matchers give items and their order.
- `sorted`: sorting chunks of scored items and merging them into what is shown.
- `chunks`, `cache_chunks`, `cache_stream`, `bench_cache`: cutting an item
  stream into chunks and caching it for several readers.
- `flow`, `state`: flows and sessions, and the search for earlier work that a
  new flow can reuse; `sessions` is the first model of the same bookkeeping.
- `interface`: the parameters and registries that sources, matchers,
  converters and actions plug into.
- `item`, `test_sources`, `decimal`, `priority`: items, the sample sources and
  matchers, decimal numbers, and the `u16` score.
- `transport`, `rpc`: the length-prefixed framing of messages and the ids of
  requests waiting for an answer.
- `bundle`, `preprocessor`, `manifest`, `relpath`, `toml_table`: the pieces
  of the registry build: which crates a recipe uses, the manifests, reading
  TOML and pointing a user's manifest at the core, relative paths.
- `bridge`, `encoding`: what the editor's bridges compute, and base64.

`app/` holds what runs around it: the serde forms of messages and recipes, the
transport over stdin and stdout, the message loop, the generation of the
registry's source with `quote`, the programs that build it, the tasks that a
flow spawns on the runtime, the C entry points of the base64 helper, and the
`f64` score.
