# lunar_png

Building blocks of a PNG codec, written in Verus with their contracts proved.

- `src/chunk.rs`: chunk types, chunk reading and its CRC check.
- `src/crc.rs`: the table-driven CRC-32, proved equal to the bit-by-bit definition.
- `src/stream.rs`: a byte stream and fixed-length reads from it.
- `src/color.rs`: color types, allowed bit depths, palettes.
- `src/filter.rs`: the neighbouring bytes and the Paeth predictor used to undo filters.
- `src/image.rs`: image types and the alpha/channel conversions, with their laws
  (round trip of adding and stripping alpha, commutation, pixel count).
