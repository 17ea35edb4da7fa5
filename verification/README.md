# forge_cli

The `forge` command-line tool of the ForgeFlux ecosystem: it detects the
format of a file (plain text, CSV, JSON object, JSON array), decomposes the
content into tiles, reassembles tiles into content, reports tile statistics,
runs a simple pipeline, and lists the crates of the ecosystem.

Layout:

- `src/` — the library, verified with Verus.
  - `text.rs`: trimming, lines, splitting, counting and joining of characters,
    and the law that joining the lines of a text gives it back.
  - `json.rs`: the parsed shape of a JSON document, read through `serde_json`.
  - `tile.rs`: tiles, tile sets and statistics; fresh tile ids from `uuid`.
  - `detect.rs`: format detection.
  - `decompose.rs`: decomposition by lines, CSV rows, or JSON elements.
  - `compose.rs`: stable sort by index and reassembly, with its laws.
  - `stats.rs`: byte sizes of tiles.
  - `registry.rs`: the crates of the ecosystem, `list` and `info`.
  - `commands.rs`: the commands, from their arguments and what was read to
    what is printed or the error reported.
- `app/` — the program: argument dispatch, reading files, printing JSON.
- `tests/` — tests of the library.
