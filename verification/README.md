# tree_widgets

A tree-view widget, the view that builds and updates it, and a selectable text block
with per-range colors, written in Verus with their contracts proved.

- `src/widget.rs` — widget ids, pods, and the contexts of mutation, registration and
  event passes.
- `src/layout.rs` — axes, measurement requests, sizes; lengths are whole logical
  pixels and sums saturate, so centring an item in an odd gap puts the odd pixel
  below it.
- `src/widgets/tree_node.rs` — the tree node: leaf/branch construction, expanding,
  adding and removing children, measuring and laying out one node from the measured
  sizes of its content row and children.
- `src/widgets/disclosure_button.rs`, `src/widgets/label.rs` — the triangle and the
  usual content widget.
- `src/view.rs`, `src/view/tree_node.rs`, `src/view/label.rs` — views: building a
  widget tree from a tree of views, diffing it against the previous tree, tearing it
  down, and routing messages along view-id paths. A tree node is itself a view, and
  records, as ghost state, the view path under which each content row is visited.
- `src/widgets/colored_text.rs` — palette and styled runs built from colored byte
  ranges, selection, copy and select-all shortcuts. The font family, size and weight
  are the text layout engine's to apply when it shapes the styled runs, and a
  scrolling viewer around the text belongs to the application's own views; neither
  is held here.
- `src/access.rs` — the accessibility roles of the widgets and the calls into
  `accesskit`.
- `src/event.rs` — keyboard, pointer and update events.
