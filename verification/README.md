# vtome

Put an image or a video on a specific monitor, or on a specific quadrilateral
of one, without FFmpeg and without a codec anyone charges for.

The crate is in two parts.

- `src/` is the library, written in Verus: every function in it carries a
  contract, and all but a handful of small wrappers around the standard
  library and the image decoder are proved against theirs; each of those
  wrappers makes an outside call and converts its result, and its contract
  says only what the outside code shows. It holds what the program decides and
  computes — what a file is from its first bytes, the two shapes of an H.264
  bitstream and the conversion between them, the `avcC` record, how a decoded
  picture is laid out in memory and the pool its buffers return to, how an
  image file's bytes become a frame under a size ceiling, which decoder would
  take an encoding and what to say when none does, when a frame is due, the
  decisions a demuxer makes about what it has read, which monitor a selector
  names and which one a placement lands on, and what the renderer decides
  around the GPU: whether a picture fits and can reuse its textures, and how
  readback rows lose their padding.
- `app/` is the ordinary Rust around it: reading files, the MP4 and Matroska
  readers that do their own I/O, the monotonic clock, the floating-point
  geometry of placing a picture on a monitor, and the GPU renderer and window
  that draw it.

`tests/` runs the library's public functions on concrete values.

Alongside the contracts, `src/` proves properties of the library as a whole,
as public proof functions: length-prefixed units survive the trip to Annex B
and back, splitting an Annex B stream gives back exactly the units joined into
it and never a unit that is empty or holds a start code, parameter sets
written out come back one for one, each MP4 code names its own encoding, a
rebuilt `avcC` record parses back to its sets, a warm frame pool stops
allocating, reuses whenever a held buffer could serve, and never outgrows its
bound, a pacing decision moves at most one counter and a noted repeat changes
no later decision, at most one platform decoder exists on any platform, and
nothing patent-pooled is ever encodable.
