# kyumaru

Kyumaru is a Hachimi plugin for *Umamusume: Pretty Derby* that picks the player's
inventory out of the game's `load/index` response, saves it as JSON files, and hands
a compact, deflated, base64url payload to the AlmondEyeDB web app through a URL
fragment (`#data=...`).

This crate is the plugin's logic, verified with Verus:

- `src/msgpack.rs` — MessagePack values (decoded with `rmpv`) and their conversion to JSON.
- `src/json.rs` — the JSON documents the plugin builds and reads, with their model.
- `src/hooks.rs` — packet detection, inventory extraction, the sync payload, the
  capture state and the overlay layout.
- `src/sync.rs` — base64url encoding (with its decoding law), JSON + DEFLATE
  compression (`serde_json`, `flate2`), and the browser address.
- `src/config.rs` — configuration defaults, settings and where the dumps are saved.
- `src/persistence.rs`, `src/plugin_api.rs` — what gets written, and the host entry checks.
- `src/text.rs` — decimal text, replacement, trimming and search on strings.

`app/` is the plugin around it: the exported C entry points, the host's function
table, hook installation, file output, logging and the browser launch.
