# vidgen

Renders `.png` frames (from closures, from an overlay on a still image, or
from the frames of an existing video), optionally edge-detects them, and
glues them into an `.mp4` with `ffmpeg`.

- `src/` is the verified library: the frame schedule (each frame is written
  forward and mirrored, then the mirrored copies are removed), frame file
  names and paths, the `ffmpeg` command lines, and the integer arithmetic of
  the Sobel edge image.
- `app/main.rs` is the program: file and process I/O, the `image` crate's
  decoding, encoding and 3x3 filter, and the floating-point colour closures.
- `tests/` checks the library on concrete values, including against the
  floating-point edge computation and the `image` crate's buffers.
