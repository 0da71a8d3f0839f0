# image_core

A small image-processing library whose logic is verified with Verus, and a
program around it (an HTTP editor, a blur demo and an ASCII-art tool).

Images are flat, row-major buffers of interleaved samples (`RawImage<T>`).
The library proves where every sample goes — pixel access, quarter-turn
rotations, RGB-to-gray reduction, convolution windows, histogram counting,
the undo history of an editing session, ASCII-art layout — and leaves the
arithmetic on the samples themselves (floating point in the program) to
caller-supplied functions.

- `src/` — the verified library (`layout`, `raster`, `transform`,
  `convolve`, `histogram`, `session`, `codec`, `ascii`, `text`).
- `tests/` — tests of the library on concrete images.
- `app/` — the program: file and network I/O, the web server, and the
  floating-point statistics and kernels.
