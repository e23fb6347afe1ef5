# minceraft

The game logic of a small voxel sandbox, verified with Verus.

- `src/faces.rs`: the six faces of a unit block and their directions.
- `src/block.rs`: block positions and kinds, and the six textured quads
  that draw a block.
- `src/world.rs`: the world as a map from grid position to block kind
  (blocks kept in order of position and found by binary search), the
  starting terrain, placing and removing blocks, and which faces are
  drawn (a face is drawn when no block touches it).
- `src/hit.rs`: picking the nearest hit along a ray.
- `src/input.rs`: the last state of every key and the moves and turns of
  held keys.
- `src/crosshair.rs`: the crosshair's pixels, decoded from PNG bytes by the
  `image` crate.
- `src/config.rs`: the "WIDTHxHEIGHT" resolution, the frame limit and the
  wait after each frame.

`app/` is the program around the library: the window, input events, the
renderer and the floating-point camera, which converts between the
renderer's types and the library's plain values.
