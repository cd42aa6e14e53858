# rxing_reader

A QR code reading library whose logic is verified with Verus: from the module
matrix of a symbol to the bytes it holds.

- `src/` is the verified library. Its main parts:
  - symbol structure: `version` (QR versions, error-correction tables, function
    patterns), `qr_version` (QR and Micro QR versions, version and size
    decoding), `format_information`, `ec_level`, `data_mask`, `mode`;
  - reading modules: `bit_matrix`, `bitmatrix_parser` and `symbol_reader`
    (zigzag codeword reading for QR and Micro QR), `matrix_parser` (a stateful
    parser with mirroring and re-masking);
  - decoding: `data_block` (de-interleaving), `reed_solomon` (error
    correction over GF(256)), `bit_source`, `decoder` (segments and the bit
    stream), `eci_string_builder`;
  - text: `character_set` and `charset_codec` (encoding and decoding through
    encoding_rs and codepage-437 behind named trusted wrappers);
  - image helpers: `luma_source`, `pattern`, `matrix`, `util`, `value`;
  - API types: `barcode_format`, `decode_hints`, `result_metadata`, `error`.
- `tests/` runs the library on concrete inputs, among them a complete version 1
  symbol built module by module and decoded with and without damage.
- `app/` holds the pattern tests that compute module sizes in floating point.
