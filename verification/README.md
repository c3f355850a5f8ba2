# sluggrs

Glyph preparation and frame bookkeeping for GPU vector text. Glyphs are drawn
from their quadratic outlines by a fragment shader, so text stays sharp at
every size and no glyph images are kept.

`src/` is the library. It is written in Verus, and every function states what
it returns or changes:

- `scalar`, `words`, `bytes`: numbers as bit patterns, and how they are packed.
- `outline`, `pen`, `cubic`, `prepare`: outlines collected from path commands,
  cubics taken apart into quadratics, outlines slanted or transformed.
- `font`, `colr`, `commands`: what is read from font files, colour glyphs as
  layers or as commands, and how a command sequence is read.
- `band`, `band_lists`, `band_reading`, `prep`: the band structure of a glyph
  and the blob it is packed into. Reading a blob gives back the curves of every
  band.
- `glyph_cache`, `fxmap`, `text_atlas`: cached glyphs, the buffer that their
  blobs are appended to, and when it is flushed, grown and reset.
- `culling`, `keys`, `emit`, `border`, `area_cache`, `text_renderer`,
  `draw_order`: text areas planned, emitted and drawn, and the order of draws.
- `frames`, `shown`: what holds from frame to frame. A frame of unchanged areas
  is taken from the cache and draws what it drew. Only visible glyphs are drawn.
  A border that is taken away from an area that stands still leaves no trace, as
  long as the lines that it made visible show no glyph without it.
- `placed`: where blobs lie. No two glyphs share a place, so only plain glyphs
  get borders, also from the cache.
- `instance`, `upload`, `border_upload`, `shader`, `texture`: what goes to the
  graphics device.
- `types`: types of the public interface.

Coordinates come into the library as bit patterns. The library compares and
quantizes them exactly; where a decision rests on floating-point arithmetic, it
asks for the result.

`app/` is the program around it: floating-point geometry, font painting, raster
images for glyphs without an outline, the graphics device and a window. `tests/` holds the tests of the library.
