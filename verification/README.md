# hadrone

A headless engine for draggable and resizable grid layouts, written in Verus:
every executable function of the library carries a contract that Verus proves.

## Layout

- `src/item.rs` – layout items, resize handles, aspect ratios, collision.
- `src/order.rs` – reading order (row, then column) and its sort.
- `src/compact.rs` – gravity ("rising tide") and free-placement compaction.
- `src/settle.rs`, `src/rise.rs` – gravity laws: a compacted layout is settled,
  and on a layout without overlaps gravity only lifts items.
- `src/collision.rs` – push-down and no-op collision resolution.
- `src/engine.rs` – the layout engine: move, resize, aspect ratio, keyboard nudges.
- `src/interaction.rs` – drag and resize sessions measured in whole cells.
- `src/validate.rs` – validation issues and repair of imported layouts.
- `src/responsive.rs` – breakpoint selection and column rescaling.
- `src/grid.rs`, `src/snapshot.rs`, `src/events.rs`, `src/ids.rs` – a stateful
  engine for script bindings, persisted snapshots, lifecycle events, id lookup.
- `app/` – host glue that the verifier does not see: serde forms of the types,
  pixel-based pointer sessions (floating point), storage adapters with a
  debounced save, breakpoint configs and the JavaScript bindings.
- `tests/` – executable tests of the library.

