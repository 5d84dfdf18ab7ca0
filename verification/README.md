# jxl front-end logic, verified

A Verus library holding the decision logic of a JPEG XL decoder front end,
with its contracts proved:

- `predictor.rs`: predictor numbers, property values, packed signed integers.
- `ma.rs`: meta-adaptive (MA) context trees, their flattening for one
  channel and stream, leaf lookup and sample decoding. The flattened tree
  answers every lookup as the tree does.
- `ma_parse.rs`: the MA tree parser, fed one entropy-coded symbol at a time
  (the entropy decoder itself is not part of this crate); the assembled
  tree uses each context at exactly one leaf, and its breadth-first listing
  is the sequence of nodes read.
- `pixel.rs`: pixel formats, the colour model of the rendered encoding,
  crop regions.
- `render.rs`: which output grids a rendered frame interleaves, and the
  sample stream over an oriented image, which visits each sample once.
- `image.rs`: initialisation from the image headers and the byte
  bookkeeping of incremental frame loading; every byte fed is either
  consumed or still pending.

The bitstream parsers, the entropy decoder, the renderer and colour
management are separate components; the library takes what they report as
plain values (`ImageHeaderRead`, `FrameHeaderRead`, symbols, grid counts)
and returns what to do next.
