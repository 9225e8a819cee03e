pub mod bitvals;
mod bytesops;
mod compress;
mod errors;
mod graph;
pub mod processors;
mod reader;
mod text;

pub use bytesops::bytes_strip_right;
pub use bytesops::bytes_terminate;
pub use bytesops::find_byte;
pub use bytesops::lemma_find_byte;
pub use bytesops::lemma_rotate_left_round_trip;
pub use bytesops::lemma_xor_one_involution;
pub use bytesops::modulo;
pub use bytesops::process_rotate_left;
pub use bytesops::process_xor_many;
pub use bytesops::process_xor_one;
pub use bytesops::rotl_byte;
pub use bytesops::rotl_spec;
pub use bytesops::strip_right_spec;
pub use bytesops::xor_many_spec;
pub use bytesops::xor_one_spec;
pub use compress::process_zlib;
pub use compress::zlib_inflated;
pub use errors::CustomDecoder;
pub use errors::KError;
pub use errors::KResult;
pub use errors::ValidationFailedError;
pub use errors::ValidationKind;
pub use graph::KStructUnit;
pub use graph::OptRc;
pub use graph::SharedType;
pub use graph::WeakRef;
pub use reader::bytes_needed;
pub use reader::BytesReader;
pub use reader::ReaderState;
pub use text::ascii_caseless_eq;
pub use text::ascii_lower_char;
pub use text::bytes_to_str;
pub use text::cp437_decoded;
pub use text::grapheme_split;
pub use text::reverse_string;
pub use text::whatwg_decoded;
