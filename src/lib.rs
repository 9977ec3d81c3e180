//! Field-element and signature text codecs for a Stark-curve signing boundary,
//! with the reply logic of the order-hash and message-signing entry points.

mod boundary;
mod error;
mod field;
mod hex;
mod signature;

pub use boundary::{
    hash_text, lemma_hash_text_determined, lemma_hash_text_width, order_hash_reply,
    parse_signing_inputs, reply_text, sign_reply,
};
pub use error::CodecError;
pub use field::{
    be_value, field_modulus, hex_body, hex_parses, hex_shaped, is_hex_shaped, parses_in, prefixed,
    FieldElement, ParseMode,
};
pub use hex::{
    fixed_hex, hex_char, hex_digit_value, hex_value, is_hex_char, is_hex_digits, is_lower_hex_char, natural_hex,
    pow16,
};
pub use signature::{
    lemma_pack_unpack, lemma_packed_lowercase, lemma_packed_width, lemma_unpack_pack,
    lemma_unpacked_in_field, lemma_unpack_rejects_length,
    lemma_unpack_rejects_non_hex, packed_text, unpack_view, window_ok, SignatureTriple,
};
