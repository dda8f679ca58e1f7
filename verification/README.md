# runic

Inventory containers with Tetris-like items: items have a shape (a grid of filled slots),
containers have a grid of slots, and items are dragged, turned, and dropped where they fit.

The library under `src/` is written in Verus. Its functions carry contracts that Verus proves,
with one exception: `string_from_chars` in `shape.rs` collects characters into a `String` with
std's `String::from_iter`, and its contract (the string holds exactly those characters) is
taken on trust.

- `shape.rs`: `Shape`, a grid of filled and empty slots, with its view `ShapeView`; painting and
  erasing one shape in another, fit checks, quarter turns, rows and text.
- `shape_laws.rs`: what holds across those operations (erasing undoes painting where a shape
  fit, four quarter turns are the identity, ...).
- `occupancy.rs`: a container's shape is the union of the items placed in it.
- `item.rs`: items and their rotation.
- `contents.rs` and `contents/`: slots, flags, grids (`GridContents`), sectioned, expanding,
  inline and header contents, `ContentsStorage`, the sections of the world and the moves
  of items between them, `reach.rs` (the descendant search finds every descendant when no
  entity is its own descendant), and `placement.rs` (filling a new grid with its items).
- `item_drag.rs`, `drag.rs`, `view.rs`, `events.rs`: the decisions taken while an item is
  dragged, and what they report.
- `vec2.rs`, `grid_math.rs`: unsigned 2D vectors and row-major index arithmetic.

`app/` holds what talks to egui and bevy: drawing shapes, reading keys and the pointer, the
library's types as bevy components, an observer that carries out drops, and the move reports
as bevy events.
