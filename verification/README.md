# pkg2mpkg

A tool for Wallpaper Engine mobile packages (`.mpkg`): it inspects wallpaper
projects, plans exports, reads and writes the PKGM container, prepares Scene
projects for Android (unpacking desktop `scene.pkg`, rewriting cursor input,
following local references) and drives the resource compiler that transcodes
textures.

The library in `src/` is written in Verus. Its functions carry `requires` /
`ensures` contracts that Verus proves; the laws of the library (container
round trip, key order of written JSON, geometry limits, what the package
layout and the staged-package verification agree on, and others) are public
proof functions.

## Layout

- `src/mpkg/`: container version and magic, archive paths, directory reading
  and validation, the writer's layout, and the round-trip laws.
- `src/project/`, `src/profile.rs`, `src/export.rs`, `src/resolution.rs`,
  `src/property.rs`: project manifests and kinds, the Scene profile matrix
  and content classes, export plans, video geometry and property filtering.
- `src/scene/`: packaged Scene input, source inventory, zcompat shader rules,
  the reference closure and script scanner, the staged-package verification,
  the mobile manifest, and the JavaScript lexer and rules behind the mobile
  cursor-input rewrite.
- `src/execute.rs`, `src/export_context.rs`, `src/export_laws.rs`: the
  decisions taken while an export runs and the laws that tie them together.
- `src/codec.rs`, `src/backend.rs`: the resource compiler's arguments, output
  capture and result checks.
- `src/json.rs`, `src/json_order.rs`, `src/text.rs`, `src/collections.rs`:
  JSON held as plain values, byte order, text helpers, and the `indexmap`
  collections the library uses.
- `src/os_path.rs`: file-system path texts compared by their components.
- `src/error.rs`: errors, their codes, stages, exit statuses and messages.
- `app/`: the command line (`inspect`, `verify`, `export`), file system and
  process work, and JSON input and output.
- `tests/`: executable tests of the library.
