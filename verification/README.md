# dotstroke

A drawing editor for 1-bit vector art on the Playdate: shapes are drawn on a
small canvas, previewed as 1-bit pixels with Playdate dither patterns, saved
as `pdvector` JSON, exported to PNG, and copied out as Playdate Lua drawing
code.

The editing core is a Verus-verified library:

- `src/model.rs` — documents, layers, vector objects and their mathematical views.
- `src/history.rs` — bounded undo/redo history, with its laws.
- `src/editor.rs` — the editing state and every operation on it: drawing
  shapes from clicked points, selection, moving, reordering, deleting,
  duplicating, style changes, canvas size and new documents, with laws such
  as "undo removes a new shape" and "a selection follows a reordered object".
- `src/raster.rs` — the 1-bit rasteriser: Bresenham lines, midpoint ellipses,
  shape coverage in exact half-pixel arithmetic, dither masks and blend modes.
- `src/lua.rs`, `src/export.rs` — Playdate Lua code generation.
- `src/dither_density.rs` — the dither patterns repeat every 48 pixels and
  let exactly half of any 48 by 48 window through.
- `src/colors.rs` — interface colors from hex codes.
- `src/text.rs` — decimal formatting and integer parsing.

Coordinates are whole document pixels. The rasteriser draws documents whose
coordinates lie within ±2^24; moves add their offset exactly and refuse only
a sum that leaves the `i32` range.

`app/` is the egui window around the library (panels, canvas painting, file
dialogs, clipboard, native menu); `tests/` exercises the library.
