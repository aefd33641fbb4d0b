# oxideav_bitstream

Header parsing and writing for video bitstreams, with every function proved
against a contract by Verus.

- `bits` is the mathematical model: what a fixed-width field or an Exp-Golomb
  code at a position of a bit string is, what writing one appends, and the laws
  that make reading and writing inverse to each other.
- `message` puts the texts of errors together.
- `bit_reader` and `bit_writer` are the executable counterparts; `rbsp` handles
  extension data and trailing bits.
- `nal` has emulation prevention and the conversion between Annex-B and
  length-prefixed framing; `start_code` finds `00 00 01 XX` codes; `sei` frames
  SEI messages; `scan` holds the scan orders of 8x8 blocks.
- `h266` (VPS, SPS, PPS, APS, SEI) and `hevc` (VPS, SPS, PPS, slice header, AUD,
  SEI), `mpeg2`, `vc1`, `vp8` and `ivf` are the formats.

For a structure `x`, `x_at` says what is read at a position, `put_x` what is
written, `x_ok` which values reading can give and `x_can` which values the
writer accepts. `law_put_x_at` says that writing what was read gives the bits
back, `law_pre_put_x` that reading what was written gives the value back. The
laws of whole parameter sets, payloads and containers are built on these and
named `law_write_parsed_..`, `law_parse_written_..`, `law_encode_decoded_..` and
`law_decode_encoded_..`.

`app/` gives the errors a `Display`. No function here performs I/O.
