# island_strategy

The deterministic strategy layer of a multi-faction island campaign: factions,
buildings and their production, forces and their marches, directives a player
issues and the explanations shown before they are issued, site rules,
authored dungeons and the journal. The library in `src/` is written in Verus:
its functions carry contracts that Verus proves, and the one function it
trusts is the wrapper `text::push_char` around `String::push`. The same inputs
give the same campaign state, events and text.

Layout:

- `src/` — the verified library, one module per concern (`geography`,
  `building`, `production`, `force`, `directive`, `action`, `tick`, ...).
  `keyed` holds the string-keyed map and set the library's records live in;
  `text` holds the small string builders everything else writes with.
- `tests/` — ordinary Rust tests that run the library.
- `app/` — the serde-facing copies of the records that are loaded from JSON
  content, converted to and from the library's own types.

Build and verify with the Verus toolchain; the outside crates (serde and
serde_json) are used by `app/` only.
