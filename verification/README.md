# viewer

A Gaussian-splat viewer. The verified library (`src/`) holds the logic that can
be stated without floating point:

- `ply`: reading a PLY splat file from its bytes — the header (line by line,
  UTF-8, trimmed of Unicode white space, `element vertex`, `property`,
  `end_header`) and the vertex records, of which fourteen 4-byte float words
  are kept, each picked by its property name (`x`, `y`, `z`, `scale_0..2`,
  `f_dc_0..2`, `opacity`, `rot_0..3`), or by its position in that list where
  no property has that name;
- `text`: the character-level pieces the header needs (trimming, splitting on
  white space, decimal `usize` parsing, UTF-8 decoding of a line);
- `controls`: which keys move the camera, and the event state machine of the
  viewer (window and device events to actions);
- `surface`: the renderer's surface size across resizes, and what a frame does
  for each outcome of acquiring the next surface texture.

`app/` is the program around it: the winit event loop, the wgpu renderer, the
glam camera and the float conversion of splat records.
