use crate::error::CodecError;
use crate::field::{field_modulus, hex_body, lemma_modulus_width, prefixed, FieldElement};
use crate::hex::{
    fixed_hex, hex_value, is_hex_char, is_hex_digits, is_lower_hex_char, lemma_fixed_hex_of_value,
    lemma_fixed_hex_shape, lemma_fixed_hex_tail, lemma_fixed_hex_value, lemma_pow16_add, pow16,
};
use vstd::prelude::*;

verus! {

/// The `(r, s, v)` triple of a Stark signature: the two curve scalars and the
/// recovery indicator.
#[derive(Debug)]
pub struct SignatureTriple {
    pub r: FieldElement,
    pub s: FieldElement,
    pub v: FieldElement,
}

impl View for SignatureTriple {
    type V = (nat, nat, nat);

    open spec fn view(&self) -> (nat, nat, nat) {
        (self.r@, self.s@, self.v@)
    }
}

/// The packed text of a triple: 64 digits of `r`, 64 of `s` and 2 of `v`,
/// lowercase and zero-padded, without prefixes.
pub open spec fn packed_text(t: (nat, nat, nat)) -> Seq<char> {
    fixed_hex(t.0, 64) + fixed_hex(t.1, 64) + fixed_hex(t.2, 2)
}

/// Whether a window of packed text denotes a field element: hexadecimal
/// digits of either case, up to the modulus.
pub open spec fn window_ok(w: Seq<char>) -> bool {
    is_hex_digits(w) && hex_value(w) <= field_modulus()
}

/// What decoding packed text gives: its length is checked first, then each of
/// the windows `[0, 64)`, `[64, 128)` and `[128, 130)`.
pub open spec fn unpack_view(text: Seq<char>) -> Result<(nat, nat, nat), CodecError> {
    if text.len() != 130 {
        Err(CodecError::InvalidLength)
    } else {
        let (wr, ws, wv) = (text.subrange(0, 64), text.subrange(64, 128), text.subrange(128, 130));
        if window_ok(wr) && window_ok(ws) && window_ok(wv) {
            Ok(
                (
                    hex_value(wr) % field_modulus(),
                    hex_value(ws) % field_modulus(),
                    hex_value(wv) % field_modulus(),
                ),
            )
        } else {
            Err(CodecError::MalformedHex)
        }
    }
}

proof fn lemma_hex_body_prefixed(w: Seq<char>)
    requires
        w.len() > 0,
    ensures
        hex_body(prefixed(w)) =~= w,
{
}

/// Parses the characters `[from, to)` of `text` as a field element.
fn parse_window(text: &str, from: usize, to: usize) -> (r: Result<FieldElement, CodecError>)
    requires
        from < to <= text@.len(),
        to - from <= 64,
    ensures
        r is Ok <==> window_ok(text@.subrange(from as int, to as int)),
        r matches Ok(fe) ==> fe@ == hex_value(text@.subrange(from as int, to as int))
            % field_modulus(),
        r matches Err(e) ==> e == CodecError::MalformedHex,
{
    let mut buf = String::new();
    buf.append("0x");
    buf.append(text.substring_char(from, to));
    proof {
        reveal_strlit("0x");
        let w = text@.subrange(from as int, to as int);
        assert(buf@ =~= prefixed(w));
        lemma_hex_body_prefixed(w);
    }
    FieldElement::parse_hex(buf.as_str())
}

impl SignatureTriple {
    /// Encodes the triple as 130 lowercase hexadecimal characters: `r` and `s`
    /// in 64 digits each, then the low byte of `v` in 2.
    pub fn pack(&self) -> (r: String)
        ensures
            r@ == packed_text(self@),
            r@.len() == 130,
    {
        let rs = self.r.to_fixed_hex_string();
        let ss = self.s.to_fixed_hex_string();
        let vs = self.v.to_fixed_hex_string();
        proof {
            lemma_fixed_hex_shape(self.r@, 64);
            lemma_fixed_hex_shape(self.s@, 64);
            lemma_fixed_hex_shape(self.v@, 64);
            lemma_fixed_hex_shape(self.v@, 2);
            lemma_fixed_hex_tail(self.v@, 64);
        }
        let mut out = String::new();
        out.append(rs.as_str().substring_char(2, 66));
        out.append(ss.as_str().substring_char(2, 66));
        out.append(vs.as_str().substring_char(64, 66));
        proof {
            assert(rs@.subrange(2, 66) =~= fixed_hex(self.r@, 64));
            assert(ss@.subrange(2, 66) =~= fixed_hex(self.s@, 64));
            assert(vs@.subrange(64, 66) =~= fixed_hex(self.v@, 64).subrange(62, 64));
            assert(out@ =~= packed_text(self@));
        }
        out
    }

    /// Decodes 130 characters of packed text; the windows are read as
    /// hexadecimal of either case, and one that denotes the modulus reads as zero.
    pub fn unpack(text: &str) -> (r: Result<SignatureTriple, CodecError>)
        ensures
            match r {
                Ok(t) => unpack_view(text@) == Ok::<(nat, nat, nat), CodecError>(t@),
                Err(e) => unpack_view(text@) == Err::<(nat, nat, nat), CodecError>(e),
            },
    {
        if text.unicode_len() != 130 {
            return Err(CodecError::InvalidLength);
        }
        let r = match parse_window(text, 0, 64) {
            Ok(fe) => fe,
            Err(e) => return Err(e),
        };
        let s = match parse_window(text, 64, 128) {
            Ok(fe) => fe,
            Err(e) => return Err(e),
        };
        let v = match parse_window(text, 128, 130) {
            Ok(fe) => fe,
            Err(e) => return Err(e),
        };
        Ok(SignatureTriple { r, s, v })
    }
}

/// Packed text is always 130 characters long.
pub proof fn lemma_packed_width(t: (nat, nat, nat))
    ensures
        packed_text(t).len() == 130,
{
    lemma_fixed_hex_shape(t.0, 64);
    lemma_fixed_hex_shape(t.1, 64);
    lemma_fixed_hex_shape(t.2, 2);
}

proof fn lemma_fixed_window(x: nat, n: nat)
    requires
        1 <= n <= 64,
        x < field_modulus(),
        x < pow16(n),
    ensures
        window_ok(fixed_hex(x, n)),
        hex_value(fixed_hex(x, n)) % field_modulus() == x,
{
    lemma_fixed_hex_shape(x, n);
    lemma_fixed_hex_value(x, n);
    vstd::arithmetic::div_mod::lemma_small_mod(x, pow16(n));
    vstd::arithmetic::div_mod::lemma_small_mod(x, field_modulus());
}

/// Unpacking the packed text of a triple of field elements gives the triple back,
/// provided the recovery indicator fits the two digits it is packed in.
pub proof fn lemma_unpack_pack(t: (nat, nat, nat))
    requires
        t.0 < field_modulus(),
        t.1 < field_modulus(),
        t.2 < field_modulus(),
        t.2 < 256,
    ensures
        unpack_view(packed_text(t)) == Ok::<(nat, nat, nat), CodecError>(t),
{
    lemma_modulus_width();
    lemma_pow16_add(63, 1);
    assert(pow16(1) == 16 * pow16(0));
    assert(pow16(2) == 16 * pow16(1));
    lemma_packed_width(t);
    lemma_fixed_window(t.0, 64);
    lemma_fixed_window(t.1, 64);
    lemma_fixed_window(t.2, 2);
    lemma_fixed_hex_shape(t.0, 64);
    lemma_fixed_hex_shape(t.1, 64);
    lemma_fixed_hex_shape(t.2, 2);
    let p = packed_text(t);
    assert(p.subrange(0, 64) =~= fixed_hex(t.0, 64));
    assert(p.subrange(64, 128) =~= fixed_hex(t.1, 64));
    assert(p.subrange(128, 130) =~= fixed_hex(t.2, 2));
}

/// Packed text consists of lowercase hexadecimal digits only.
pub proof fn lemma_packed_lowercase(t: (nat, nat, nat))
    ensures
        forall|i: int| 0 <= i < packed_text(t).len() ==> #[trigger] is_lower_hex_char(packed_text(t)[i]),
{
    lemma_fixed_hex_shape(t.0, 64);
    lemma_fixed_hex_shape(t.1, 64);
    lemma_fixed_hex_shape(t.2, 2);
    let (a, b, c) = (fixed_hex(t.0, 64), fixed_hex(t.1, 64), fixed_hex(t.2, 2));
    let p = packed_text(t);
    assert forall|i: int| 0 <= i < p.len() implies #[trigger] is_lower_hex_char(p[i]) by {
        if i < 64 {
            assert(p[i] == a[i]);
        } else if i < 128 {
            assert(p[i] == b[i - 64]);
        } else {
            assert(p[i] == c[i - 128]);
        }
    }
}

/// Whatever unpacking yields lies in the field.
pub proof fn lemma_unpacked_in_field(text: Seq<char>)
    ensures
        unpack_view(text) matches Ok(t) ==> t.0 < field_modulus() && t.1 < field_modulus()
            && t.2 < field_modulus(),
{
}

/// Packing what was unpacked gives the text back, for text in lowercase whose
/// windows each denote a number below the modulus.
pub proof fn lemma_pack_unpack(text: Seq<char>)
    requires
        text.len() == 130,
        forall|i: int| 0 <= i < 130 ==> #[trigger] is_lower_hex_char(text[i]),
        hex_value(text.subrange(0, 64)) < field_modulus(),
        hex_value(text.subrange(64, 128)) < field_modulus(),
        hex_value(text.subrange(128, 130)) < field_modulus(),
    ensures
        unpack_view(text) matches Ok(t) && packed_text(t) == text,
{
    let (wr, ws, wv) = (text.subrange(0, 64), text.subrange(64, 128), text.subrange(128, 130));
    assert forall|i: int| 0 <= i < 64 implies #[trigger] is_lower_hex_char(wr[i]) by {
        assert(wr[i] == text[i]);
    }
    assert forall|i: int| 0 <= i < 64 implies #[trigger] is_lower_hex_char(ws[i]) by {
        assert(ws[i] == text[i + 64]);
    }
    assert forall|i: int| 0 <= i < 2 implies #[trigger] is_lower_hex_char(wv[i]) by {
        assert(wv[i] == text[i + 128]);
    }
    assert forall|i: int| 0 <= i < 64 implies #[trigger] is_hex_char(wr[i]) by {
        assert(is_lower_hex_char(wr[i]));
    }
    assert forall|i: int| 0 <= i < 64 implies #[trigger] is_hex_char(ws[i]) by {
        assert(is_lower_hex_char(ws[i]));
    }
    assert forall|i: int| 0 <= i < 2 implies #[trigger] is_hex_char(wv[i]) by {
        assert(is_lower_hex_char(wv[i]));
    }
    lemma_fixed_hex_of_value(wr);
    lemma_fixed_hex_of_value(ws);
    lemma_fixed_hex_of_value(wv);
    vstd::arithmetic::div_mod::lemma_small_mod(hex_value(wr), field_modulus());
    vstd::arithmetic::div_mod::lemma_small_mod(hex_value(ws), field_modulus());
    vstd::arithmetic::div_mod::lemma_small_mod(hex_value(wv), field_modulus());
    assert(text =~= wr + ws + wv);
}

/// Text of any length but 130 is refused as being of the wrong length.
pub proof fn lemma_unpack_rejects_length(text: Seq<char>)
    requires
        text.len() != 130,
    ensures
        unpack_view(text) == Err::<(nat, nat, nat), CodecError>(CodecError::InvalidLength),
{
}

/// Text of 130 characters with a character that is no hexadecimal digit is
/// refused as malformed, whichever window holds it.
pub proof fn lemma_unpack_rejects_non_hex(text: Seq<char>, i: int)
    requires
        text.len() == 130,
        0 <= i < 130,
        !is_hex_char(text[i]),
    ensures
        unpack_view(text) == Err::<(nat, nat, nat), CodecError>(CodecError::MalformedHex),
{
    if i < 64 {
        assert(!is_hex_char(text.subrange(0, 64)[i]));
    } else if i < 128 {
        assert(!is_hex_char(text.subrange(64, 128)[i - 64]));
    } else {
        assert(!is_hex_char(text.subrange(128, 130)[i - 128]));
    }
}

} // verus!
