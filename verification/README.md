# watersim

A shallow-water basin simulated on a square grid, with a dolphin swimming
over it, rendered in the browser.

- `src/` is the verified library: the integer logic of the simulation and its
  meshes. `grid` numbers the cells row by row and finds a cell's neighbours
  (closed walls at the edges); `mesh` builds the triangle index buffer of the
  water surface; `strip` orders the samples of the dolphin's tube-shaped body
  into one triangle strip. Each function's contract states its whole result,
  and the proof functions beside them state the laws that tie them together
  (cell numbering is one-to-one, neighbourhood is mutual, every triangle is
  wound the same way, the body's tube is sealed).
- `app/` is the rest: the floating-point physics, the dolphin's shape and
  shading, the WebAssembly bindings and a terminal demo.
- `tests/` runs the library on concrete grids.
