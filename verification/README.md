# imgseqs

Reads an ordered list of images as a VapourSynth clip: `Read` hands out the color
clip of a sequence, and `ReadAlpha` the color clip and a gray alpha clip of it.

`src/` is the library, and every function of it is verified with Verus:

- `formats/` reads what a container says of its image (avif, heif, jpeg 2000,
  jpeg xl, png, webp) and packs what its decoder hands over into planes;
- `decoder` decides which module describes and decodes a file, and what a probe
  records of it;
- `pixel/` holds the frame formats, the eight orientations and the writers that
  move decoded samples into the planes of a frame;
- `color` turns the colour a file states into frame properties;
- `clip` builds the frames of both clips from one decoded image;
- `prefetch/` is the state of the lookahead pool: what is queued, decoded, cached
  and dropped;
- `source` resolves the arguments of a call and what its clips declare.

A public proof function states a property that spans several functions: that an
orientation and its inverse undo each other, that a frame that does not fit the
budget is not queued, that both clips of a call share everything but their
format.

What the library takes on trust is the clock, the extension of a path, the byte
order of the machine, and OpenJPEG, which it calls through the `jpeg2k` crate; each
such item says in its comment what it claims.

`app/` is the plugin around the library: the filters, the files, the threads, and
the calls into image, jxl, libheif, dav1d, libwebp and VapourSynth.
