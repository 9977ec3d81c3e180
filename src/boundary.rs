use crate::error::CodecError;
use crate::field::{
    field_modulus, hex_body, lemma_modulus_width, parses_in, prefixed, FieldElement, ParseMode,
};
use crate::hex::{hex_value, lemma_natural_hex_len, lemma_natural_hex_shape, natural_hex};
use crate::signature::{packed_text, SignatureTriple};
use vstd::prelude::*;

verus! {

/// The text that reports an order hash: `0x` and its natural-width digits.
pub open spec fn hash_text(h: nat) -> Seq<char> {
    prefixed(natural_hex(h))
}

/// The reply of the order-hash entry point to what the hashing capability
/// returned: the hash as text, or the capability's diagnostic unchanged.
pub fn order_hash_reply(outcome: Result<FieldElement, String>) -> (r: Result<String, String>)
    ensures
        match outcome {
            Ok(h) => r matches Ok(text) && text@ == hash_text(h@),
            Err(e) => r matches Err(m) && m@ == e@,
        },
{
    match outcome {
        Ok(h) => Ok(h.to_hex_string()),
        Err(e) => Err(e),
    }
}

/// The reply of the sign entry point to what the signing capability returned:
/// the packed signature, or the capability's diagnostic unchanged.
pub fn sign_reply(outcome: Result<SignatureTriple, String>) -> (r: Result<String, String>)
    ensures
        match outcome {
            Ok(t) => r matches Ok(text) && text@ == packed_text(t@),
            Err(e) => r matches Err(m) && m@ == e@,
        },
{
    match outcome {
        Ok(t) => Ok(t.pack()),
        Err(e) => Err(e),
    }
}

/// Flattens a reply into the single text channel of the foreign boundary, where
/// a diagnostic stands in the place of the result.
pub fn reply_text(reply: Result<String, String>) -> (r: String)
    ensures
        r@ == match reply {
            Ok(text) => text@,
            Err(m) => m@,
        },
{
    match reply {
        Ok(text) => text,
        Err(m) => m,
    }
}

/// Parses the message and the private key handed to the sign entry point.
pub fn parse_signing_inputs(msg_hex: &str, priv_hex: &str, mode: ParseMode) -> (r: Result<
    (FieldElement, FieldElement),
    CodecError,
>)
    ensures
        r is Ok <==> parses_in(msg_hex@, mode) && parses_in(priv_hex@, mode),
        r matches Ok(p) ==> p.0@ == hex_value(hex_body(msg_hex@)) % field_modulus() && p.1@
            == hex_value(hex_body(priv_hex@)) % field_modulus(),
        r matches Err(e) ==> e == CodecError::MalformedHex,
{
    let msg = match FieldElement::parse(msg_hex, mode) {
        Ok(fe) => fe,
        Err(e) => return Err(e),
    };
    let key = match FieldElement::parse(priv_hex, mode) {
        Ok(fe) => fe,
        Err(e) => return Err(e),
    };
    Ok((msg, key))
}

/// The text of a hash is `0x` and one to 63 lowercase digits.
pub proof fn lemma_hash_text_width(h: nat)
    requires
        h < field_modulus(),
    ensures
        3 <= hash_text(h).len() <= 65,
        hash_text(h)[0] == '0',
        hash_text(h)[1] == 'x',
        crate::hex::is_hex_digits(hash_text(h).skip(2)),
{
    lemma_modulus_width();
    lemma_natural_hex_len(h, 63);
    lemma_natural_hex_shape(h);
    assert(hash_text(h).skip(2) =~= natural_hex(h));
}

/// The reply to a hash depends on its value alone, so equal hashes are reported
/// by equal text; distinct hashes by distinct text.
pub proof fn lemma_hash_text_determined(a: nat, b: nat)
    ensures
        (hash_text(a) == hash_text(b)) == (a == b),
{
    if hash_text(a) == hash_text(b) {
        assert(natural_hex(a) =~= hash_text(a).skip(2));
        assert(natural_hex(b) =~= hash_text(b).skip(2));
        crate::hex::lemma_natural_hex_injective(a, b);
    }
}

} // verus!
