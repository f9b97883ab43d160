# stele_undead

A status bar for the Sway compositor, drawn with `stele`. The library in
`src/` holds the bar's logic with Verus contracts and proofs:

- `ipc`: Sway IPC message framing (header encoding, the receive buffer,
  payload types), proved to read back every message it encodes.
- `tree`: Sway's layout tree, the workspace icon search and the workspace
  state of one output.
- `xdg`, `themes`, `image_type`, `table`: XDG icon lookup — icon theme
  directory and file names, the `Inherits` hierarchy of icon themes, desktop
  files, the icon index and the `app_id` cache.
- `bar`, `clock`: which modules the bar shows, with which layers.
- `text`: character-level string helpers with their meaning as spec
  functions.

`app/` is the program around it: the Sway socket, the file system walk over
icon themes, reading desktop files, JSON parsing of the tree, and `stele`'s
event loop. It expects the bar's SVG files under `data/`.
