use crate::error::CodecError;
use crate::hex::{
    fixed_hex, hex_value, is_hex_char, is_hex_digits, lemma_pow16_add, lemma_pow16_positive, natural_hex, pow16,
};
use starknet_crypto::Felt;
use vstd::prelude::*;

verus! {

#[verifier::external_type_specification]
#[verifier::external_body]
pub struct ExFromStrError(starknet_types_core::felt::FromStrError);

/// The prime of the Stark field, `2^251 + 17 * 2^192 + 1`.
pub open spec fn field_modulus() -> nat {
    8 * pow16(62) + 17 * pow16(48) + 1
}

/// The modulus fits in 64 hexadecimal digits, and in 63.
pub proof fn lemma_modulus_width()
    ensures
        pow16(2) < field_modulus() < pow16(63),
{
    lemma_pow16_add(48, 14);
    lemma_pow16_add(62, 1);
    lemma_pow16_add(2, 46);
    lemma_pow16_positive(2);
    lemma_pow16_positive(46);
    assert(pow16(2) == 256) by {
        reveal_with_fuel(pow16, 3);
    }
    assert(pow16(14) > 17) by {
        reveal_with_fuel(pow16, 3);
        lemma_pow16_add(2, 12);
        lemma_pow16_positive(12);
        assert(pow16(2) * pow16(12) >= 256) by (nonlinear_arith)
            requires pow16(2) == 256, pow16(12) >= 1;
    }
    assert(pow16(1) == 16) by {
        reveal_with_fuel(pow16, 2);
    }
    let (a, b) = (pow16(48) as int, pow16(14) as int);
    lemma_pow16_positive(48);
    assert(17 * a + 1 < 8 * (a * b)) by (nonlinear_arith)
        requires a >= 1, b > 17;
    assert(pow16(2) * pow16(46) >= 256) by (nonlinear_arith)
        requires pow16(2) == 256, pow16(46) >= 1;
}

/// The number that bytes denote, most significant first.
pub open spec fn be_value(b: Seq<u8>) -> nat
    decreases b.len(),
{
    if b.len() == 0 {
        0
    } else {
        be_value(b.drop_last()) * 256 + b.last() as nat
    }
}

/// The digits of hexadecimal text once a leading `0x` is taken off; the prefix is
/// only recognised when digits follow it.
pub open spec fn hex_body(s: Seq<char>) -> Seq<char> {
    if s.len() > 2 && s[0] == '0' && s[1] == 'x' {
        s.skip(2)
    } else {
        s
    }
}

/// Whether text parses as a field element: at most 64 hexadecimal digits, in
/// either case, after an optional `0x`, denoting at most the modulus.
pub open spec fn hex_parses(s: Seq<char>) -> bool {
    let d = hex_body(s);
    is_hex_digits(d) && d.len() <= 64 && hex_value(d) <= field_modulus()
}

/// Whether text is one to 64 hexadecimal digits, in either case, after an
/// optional `0x`, whatever number they denote.
pub open spec fn hex_shaped(s: Seq<char>) -> bool {
    let d = hex_body(s);
    is_hex_digits(d) && d.len() <= 64
}

/// How strictly text is read as a field element.
#[derive(Debug, Clone, Copy, PartialEq, Eq, Structural)]
pub enum ParseMode {
    /// Numbers above the modulus are refused.
    Strict,
    /// Numbers above the modulus are reduced modulo the prime.
    Lenient,
}

/// Whether text parses as a field element in the given mode.
pub open spec fn parses_in(s: Seq<char>, mode: ParseMode) -> bool {
    match mode {
        ParseMode::Strict => hex_parses(s),
        ParseMode::Lenient => hex_shaped(s),
    }
}

/// `0x` followed by the given digits.
pub open spec fn prefixed(d: Seq<char>) -> Seq<char> {
    seq!['0', 'x'] + d
}

/// Relies on `Felt::from_hex`: it accepts exactly the text that `hex_parses`
/// describes and yields the value reduced modulo the prime, read back through
/// `Felt::to_bytes_be` as canonical big-endian bytes.
#[verifier::external_body]
fn felt_bytes_from_hex(s: &str) -> (r: Result<[u8; 32], starknet_types_core::felt::FromStrError>)
    ensures
        r is Ok <==> hex_parses(s@),
        r matches Ok(b) ==> be_value(b@) == hex_value(hex_body(s@)) % field_modulus(),
{
    match Felt::from_hex(s) {
        Ok(f) => Ok(f.to_bytes_be()),
        Err(e) => Err(e),
    }
}

/// Relies on `Felt::from_hex_unchecked`: on one to 64 hexadecimal digits after
/// an optional `0x` it gives their value reduced modulo the prime (it panics on
/// other characters), read back through `Felt::to_bytes_be`.
#[verifier::external_body]
fn felt_bytes_from_hex_unchecked(s: &str) -> (r: [u8; 32])
    requires
        hex_shaped(s@),
    ensures
        be_value(r@) == hex_value(hex_body(s@)) % field_modulus(),
{
    Felt::from_hex_unchecked(s).to_bytes_be()
}

/// Whether `c` is a hexadecimal digit.
fn is_hex_digit(c: char) -> (r: bool)
    ensures
        r == is_hex_char(c),
{
    ('0' <= c && c <= '9') || ('a' <= c && c <= 'f') || ('A' <= c && c <= 'F')
}

/// Whether text is one to 64 hexadecimal digits after an optional `0x`.
pub fn is_hex_shaped(text: &str) -> (r: bool)
    ensures
        r == hex_shaped(text@),
{
    let n = text.unicode_len();
    let start: usize = if n > 2 && text.get_char(0) == '0' && text.get_char(1) == 'x' {
        2
    } else {
        0
    };
    proof {
        if start == 2 {
            assert(hex_body(text@) =~= text@.skip(2));
        } else {
            assert(hex_body(text@) =~= text@);
        }
    }
    if n == start || n - start > 64 {
        return false;
    }
    let mut i: usize = start;
    while i < n
        invariant
            start <= i <= n,
            n == text@.len(),
            hex_body(text@) =~= text@.skip(start as int),
            forall|j: int| start <= j < i ==> #[trigger] is_hex_char(text@[j]),
        decreases n - i,
    {
        if !is_hex_digit(text.get_char(i)) {
            proof {
                assert(hex_body(text@)[i - start] == text@[i as int]);
            }
            return false;
        }
        i += 1;
    }
    proof {
        let d = hex_body(text@);
        assert forall|j: int| 0 <= j < d.len() implies #[trigger] is_hex_char(d[j]) by {
            assert(d[j] == text@[j + start]);
        }
    }
    true
}

/// Relies on `Felt::from_bytes_be` followed by `Felt::to_bytes_be`: the value of
/// the bytes reduced modulo the prime, as canonical big-endian bytes.
#[verifier::external_body]
fn felt_reduce_bytes(b: &[u8; 32]) -> (r: [u8; 32])
    ensures
        be_value(r@) == be_value(b@) % field_modulus(),
{
    Felt::from_bytes_be(b).to_bytes_be()
}

/// Relies on `Felt::to_fixed_hex_string` (`format!("{:#066x}")`): `0x` and 64
/// lowercase digits, zero-padded.
#[verifier::external_body]
fn felt_fixed_hex(b: &[u8; 32]) -> (r: String)
    requires
        be_value(b@) < field_modulus(),
    ensures
        r@ == prefixed(fixed_hex(be_value(b@), 64)),
{
    Felt::from_bytes_be(b).to_fixed_hex_string()
}

/// Relies on `Felt::to_hex_string` (`format!("{:#x}")`): `0x` and the lowercase
/// digits without leading zeros.
#[verifier::external_body]
fn felt_natural_hex(b: &[u8; 32]) -> (r: String)
    requires
        be_value(b@) < field_modulus(),
    ensures
        r@ == prefixed(natural_hex(be_value(b@))),
{
    Felt::from_bytes_be(b).to_hex_string()
}

/// An element of the Stark field, held as canonical big-endian bytes.
#[derive(Debug)]
pub struct FieldElement {
    bytes: [u8; 32],
}

impl View for FieldElement {
    type V = nat;

    closed spec fn view(&self) -> nat {
        be_value(self.bytes@)
    }
}

impl FieldElement {
    #[verifier::type_invariant]
    spec fn in_field(self) -> bool {
        be_value(self.bytes@) < field_modulus()
    }

    /// Parses hexadecimal text, with or without `0x`; text that denotes the
    /// modulus itself reads as zero.
    pub fn parse_hex(text: &str) -> (r: Result<FieldElement, CodecError>)
        ensures
            r is Ok <==> hex_parses(text@),
            r matches Ok(fe) ==> fe@ == hex_value(hex_body(text@)) % field_modulus(),
            r matches Err(e) ==> e == CodecError::MalformedHex,
    {
        match felt_bytes_from_hex(text) {
            Ok(bytes) => Ok(FieldElement { bytes }),
            Err(_) => Err(CodecError::MalformedHex),
        }
    }

    /// Parses hexadecimal text in the given mode; text of any other shape is
    /// refused in both.
    pub fn parse(text: &str, mode: ParseMode) -> (r: Result<FieldElement, CodecError>)
        ensures
            r is Ok <==> parses_in(text@, mode),
            r matches Ok(fe) ==> fe@ == hex_value(hex_body(text@)) % field_modulus(),
            r matches Err(e) ==> e == CodecError::MalformedHex,
    {
        match mode {
            ParseMode::Strict => FieldElement::parse_hex(text),
            ParseMode::Lenient => {
                if is_hex_shaped(text) {
                    Ok(FieldElement { bytes: felt_bytes_from_hex_unchecked(text) })
                } else {
                    Err(CodecError::MalformedHex)
                }
            },
        }
    }

    /// The element that big-endian bytes denote, reduced modulo the prime.
    pub fn from_be_bytes(bytes: [u8; 32]) -> (r: FieldElement)
        ensures
            r@ == be_value(bytes@) % field_modulus(),
    {
        FieldElement { bytes: felt_reduce_bytes(&bytes) }
    }

    /// The canonical big-endian bytes of the element.
    pub fn to_be_bytes(&self) -> (r: [u8; 32])
        ensures
            be_value(r@) == self@,
    {
        self.bytes
    }

    /// `0x` followed by 64 lowercase digits.
    pub fn to_fixed_hex_string(&self) -> (r: String)
        ensures
            r@ == prefixed(fixed_hex(self@, 64)),
            self@ < field_modulus(),
    {
        proof {
            use_type_invariant(self);
        }
        felt_fixed_hex(&self.bytes)
    }

    /// `0x` followed by the lowercase digits without leading zeros.
    pub fn to_hex_string(&self) -> (r: String)
        ensures
            r@ == prefixed(natural_hex(self@)),
            self@ < field_modulus(),
    {
        proof {
            use_type_invariant(self);
        }
        felt_natural_hex(&self.bytes)
    }

    /// Whether two elements are the same number.
    pub fn same_value(&self, other: &FieldElement) -> (r: bool)
        ensures
            r == (self@ == other@),
    {
        let mut i: usize = 0;
        while i < 32
            invariant
                i <= 32,
                forall|j: int| 0 <= j < i ==> self.bytes@[j] == other.bytes@[j],
            decreases 32 - i,
        {
            if self.bytes[i] != other.bytes[i] {
                proof {
                    lemma_be_value_injective(self.bytes@, other.bytes@);
                    assert(self.bytes@[i as int] != other.bytes@[i as int]);
                }
                return false;
            }
            i += 1;
        }
        assert(self.bytes@ =~= other.bytes@);
        true
    }
}

/// Byte strings of one length denote the same number only when they are equal.
proof fn lemma_be_value_injective(a: Seq<u8>, b: Seq<u8>)
    requires
        a.len() == b.len(),
    ensures
        be_value(a) == be_value(b) ==> a =~= b,
    decreases a.len(),
{
    if a.len() > 0 && be_value(a) == be_value(b) {
        let (a0, b0) = (a.drop_last(), b.drop_last());
        let (x, y) = (be_value(a0) as int, be_value(b0) as int);
        let (u, w) = (a.last() as int, b.last() as int);
        assert(x * 256 + u == y * 256 + w);
        assert(x == y && u == w) by (nonlinear_arith)
            requires
                x * 256 + u == y * 256 + w,
                0 <= u < 256,
                0 <= w < 256,
        ;
        lemma_be_value_injective(a0, b0);
        assert(a =~= a0.push(a.last()));
        assert(b =~= b0.push(b.last()));
    }
}

} // verus!
