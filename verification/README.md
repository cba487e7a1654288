# Helix core, verified

Helix is a local-first personal agent: a daemon (`helixd`) on loopback and a
command line (`helix`) around a home directory of charter, memory, plots,
secret references and tool pins. This crate holds its decisions as Verus-verified
Rust; the programs around it live in `app/`.

## Layout

- `src/` — the verified library
  - `charter` — the builtin packs and what each allows
  - `switch` — the egress allowlist every model call passes first
  - `loom` — provider selection, endpoints, prompts and replies
  - `atlas` — tools pinned by SHA-256 digest; trust and fuel caps
  - `reliquary` — named secret references and their sealed values
  - `grants` — Ask grants and the write check that consumes them
  - `cap` — shrink-only capability tokens: their rights, how a holder
    narrows them, their HMAC, and the checks a token must pass (the clock
    is read by the caller and handed in)
  - `memory`, `plots`, `recall`, `words` — the home layout, preferences,
    plot paths and snapshots, retrieval and playbook promotion
  - `daemon`, `cli`, `hands`, `protocol` — the daemon's and the command
    line's decisions, the Wasm host's configuration, the wire records
  - `text`, `paths`, `order`, `keyed`, `digest` — strings, Unix paths,
    orderings, a sorted string-keyed map, SHA-256 in hex
- `tests/` — tests of the library
- `app/` — `main`, the HTTP daemon, the CLI, filesystem and clock, the Wasm
  runtime, and the JSON forms of the library's records

Laws of the library are public proof functions named `law_*`.
