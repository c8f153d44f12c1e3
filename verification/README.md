# mc_blackhole

A small Minecraft server whose protocol and world logic is a verified Verus
library.

- `src/` is the library. `proto/` holds the byte buffer, VarInts, strings,
  UUIDs and the packets; `codecs/` the encode/decode traits and the value
  codecs; `net/` packet framing with zlib compression; `handlers.rs` what
  each packet of a connection asks for; `world/` chunks, palettes, the level
  with its block patches, terrain generation rules, and the chunk tracking
  and structure entities. Each public function states its result in its
  contract, and the round trips (a value written and read back) are proved.
- `app/` is the server program around it: sockets, the tokio tasks, noise
  and random draws, and the floating-point parts (player positions,
  metaballs, fractal noise).
- `tests/` exercises the library on concrete values.
