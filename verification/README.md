# glazer

A small toolkit for writing games in Rust, with its core verified by Verus.

`src/` is the verified library:

- `bytes`: little-endian encodings of numbers and padding to an alignment.
- `pack`: the `Pack` trait, a byte layout for assets. Every value reserves a
  multiple of the alignment; numbers are little endian; pairs pack their
  fields one after the other (nest pairs for structs of more fields). Each
  implementation proves that unpacking gives back what was packed, whatever
  the buffer held before and whatever follows.
- `picture` and `sound`: images and audio and their packed layouts; images
  are decoded from files with the `image` crate. Audio samples are held as
  the bit patterns of their `f32` values.
- `raster`: which pixels a triangle covers and their integer barycentric
  coordinates; filling triangles and quads with a color. Proved: the pixels
  drawn do not depend on the order of the vertices, filling twice changes
  nothing, degenerate triangles draw nothing, and fills with one color
  commute.
- `platform`: the decisions of the windowing layer: when to hot-reload the
  game's code and which functions a reload installs, how audio samples move
  between the game and the output device, and what each window event leads
  to.
- `reverb`: the delay lines of the Freeverb reverberator, which never share a
  cell and always stay within their buffers.
- `debug`: timing a closure.

`app/` holds what the library cannot: the winit/softbuffer/cpal event loop,
`dlopen`-based reloading, and the floating-point audio effects and shading,
which call into the verified library for coverage, delay-line positions and
all decisions.
