use vstd::prelude::*;

pub mod ec_level;
pub mod eci_string_builder;
pub mod data_block;
pub mod data_mask;
pub mod decode_hints;
pub mod decoder;
pub mod error;
pub mod format_information;
pub mod luma_source;
pub mod mode;
pub mod matrix;
pub mod matrix_parser;
pub mod pattern;
pub mod qr_type;
pub mod qr_version;
pub mod reed_solomon;
pub mod result_metadata;
pub mod symbol_reader;
pub mod model1_reader;
pub mod version;
pub mod alignment_rule;
pub mod barcode_format;
pub mod bit_matrix;
pub mod bit_source;
pub mod bit_array;
pub mod bitmatrix_parser;
pub mod character_set;
pub mod charset_codec;
pub mod util;
pub mod value;
