# rbxl_editor

The logic of an Android Roblox place editor, written in Verus and proved
against its contracts.

- `src/` — the verified library:
  - `assets`, `bundled`, `textures`, `mesh`, `scan`: asset ids, the bundled
    asset tables, the procedural material textures, the binary `.mesh`
    reader, the asset caches and lookups, and the scan of a place for the
    assets it refers to;
  - `events`, `editor`: the queues that carry platform and background
    results to the editor, the output log and tabs, and the syncing of
    scripts edited in an external app back into their tabs;
  - `ime`: the soft-keyboard bridge's diffing and show/hide decisions;
  - `gui`: GUI-object classes, explorer icons, fonts and rich-text markup;
  - `session`, `websocket`, `sha1`, `base64`: the live-session bridge to
    Roblox Studio and its WebSocket protocol;
  - `text`: character-level helpers shared by the parsers.
- `app/` — ordinary Rust around the library: process-wide caches and
  queues, the JNI bridge, file and socket I/O, audio, and the drawing and
  parsing that need floating point.
- `tests/` — tests of the library's public functions.
