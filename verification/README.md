# dropwin

The core of DropWin, a desktop utility that opens floating "Drop" windows to
hold files, folders, text and links while they are dragged between
applications. A Drop is opened by shaking the cursor during a drag or by a
global shortcut.

The logic is written in Verus and proved against its contracts:

- `src/drop_registry.rs`: the open Drops, their files and their places on
  screen; window labels; moving files from one Drop to another.
- `src/file_ops.rs`: adding, removing, renaming and clearing the files of a
  Drop, and forgetting files that no longer exist.
- `src/internal_drag.rs`, `src/drag_ops.rs`: the Drop-to-Drop drag session
  around a native drag, and the drag image sent by the interface.
- `src/mouse_monitor.rs`: recognising a shake of the cursor, and the process
  blacklist.
- `src/custom_drop.rs`: what a native drop onto a Drop delivers.
- `src/drag_preview.rs`, `src/thumbnail.rs`: the drawn drag preview and the
  Base64 PNG text of thumbnails.
- `src/config.rs`, `src/file.rs`, `src/drop_window.rs`, `src/text.rs`:
  settings, file metadata, the prepared Drop and string helpers.

`app/` is the Tauri application around the library: windows, commands, the
platform drop targets and cursor sampling, settings files and the floating
point window geometry. `tests/` runs the library on concrete values.
