# pita

Decoding of a game's texture (`.tex`) and sprite (`.spr`) containers,
verified with Verus.

- `src/` is the verified library:
  - `bytes`: little-endian fields and rounded-up division;
  - `error`: the error codes and their messages;
  - `dds`: the DDS (DX10) header written around BC7 data;
  - `swizzle`: the Tegra block-linear layout, and conversion to and from
    row-major block order; `swizzle_laws` proves that reading a surface out
    undoes writing it whenever blocks tile the GOB rows, GOB blocks are a
    power of two high and rows of GOBs are wide enough;
  - `spr`: the sprite header, section table and sections;
  - `tex`: the texture footer, the GOB block height a companion sprite may
    prescribe, and decoding a zstd-compressed texture to a DDS file
    (decompression is done by the `zstd` crate).
- `app/` is the command-line tool and the C interface.
- `tests/` holds the tests.
