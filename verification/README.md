# lib

Widget, gesture and diagnostics logic of a UI toolkit, verified with Verus.

- `src/` is the verified library. Every decision that needs no geometry
  lives here with its contract: key handling and shortcut tables, slotted and
  table children, stack-trace parsing, the tap-count tracker, the tree
  sliver's flattening and toggles, the tab selection, and the small decision
  tables behind the sliver and material widgets. The laws the library keeps
  stand beside the functions they speak of, as public proof functions.
- `tests/` runs the library on concrete values.
- `app/` holds the widget settings and helpers that are measured in
  floating point -- viewport fractions, extents, elevations, animation
  values -- for the sliver, stepper, tab, snack-bar, snapshot and gesture
  widgets, and hands the library plain values. It is not a renderer: the
  painting of slider parts, theme interpolation, the clip geometry of
  slivers and the sliver lists and grids need a canvas and render objects
  that this crate does not have, and are not here.
