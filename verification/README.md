# Mandel Core (verified)

The library of the HAAVK user-land system, written in Verus: every function
in `src/` carries a contract that Verus proves.

- `src/` — configuration, node identity, hardware name plate, the Relink
  peer table and relay decisions, the `haavk://` virtual file system, the
  application registry, the permission model, the `.mandel` disk image, the
  desktop's decisions (windows, task bar, start menu, file manager, shell,
  browser, settings), the command line, and the bare-metal VGA console.
- `tests/` — tests run against the compiled library.
- `app/` — the programs around the library, one binary named three ways:
  `haavk` (the desktop: winit window, wgpu renderer, egui drawing),
  `relay-server` (the Relink relay) and `mandel-core` (boots the core
  without a desktop). It also holds the files, environment, network
  threads, logging, and the JSON/TOML forms of the library's values.
