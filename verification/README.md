# messy_grapefruit

The verified core of a vector sprite and animation editor: palettes and theme
colors, the layer/element structure of sprites, undo history and selection,
path editing (erasing, merging, joining, symmetric strokes), layer sockets, and
the exporters' integer logic (atlas shelf packing, spritesheet assembly, trim
boxes, RON layout text, file names).

- `src/` is the library, written in Verus. Its functions are verified, except
  the small trusted wrappers (marked `external_body`) through which it calls the
  `image`, `resvg` and `uuid` crates and a few std functions; their contracts say
  what those calls do, as read in the crates' sources and std's documentation.
- `tests/` runs the library on concrete values.
- `app/` is a small command-line front end: project files, Lospec palette
  download, writing export files, watching a folder, the clipboard, and the
  floating-point geometry (curve fitting, transforms, mirroring) that the
  library does not hold.
