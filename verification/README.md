# raytracer

A small real-time ray tracer for the browser. The crate root `src/` is the
verified core, checked by Verus:

- `color` — 8-bit colours, their channel-wise sum and their CSS text
  `rgb(R,G,B)`, with the laws of colour addition and the fact that the text
  names the colour uniquely.
- `input` — the set of held keys, updated by key-down and key-up events.
- `controls` — the camera turns that the held arrow keys ask for each frame.
- `screen` — the walk over the pixels of a frame, in drawing order, and the
  place of each pixel on the canvas.

`app/` is the browser side, built on `wasm-bindgen` and `web-sys`: the
canvas, the key listeners, the animation loop, and the floating-point scene
(vectors, spheres, lights, ray tracing), which the verified core does not hold.
