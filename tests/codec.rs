use rust_lib::{
    is_hex_shaped, order_hash_reply, parse_signing_inputs, reply_text, sign_reply, CodecError,
    FieldElement, ParseMode, SignatureTriple,
};

const MODULUS_HEX: &str = "0800000000000011000000000000000000000000000000000000000000000001";

fn fe(text: &str) -> FieldElement {
    FieldElement::parse_hex(text).expect("valid field element")
}

fn triple(r: &str, s: &str, v: &str) -> SignatureTriple {
    SignatureTriple { r: fe(r), s: fe(s), v: fe(v) }
}

fn is_lower_hex(text: &str) -> bool {
    text.chars().all(|c| c.is_ascii_digit() || ('a'..='f').contains(&c))
}

fn below_modulus(x: &FieldElement) -> bool {
    let bytes = x.to_be_bytes();
    let mut m = [0u8; 32];
    for i in 0..32 {
        m[i] = u8::from_str_radix(&MODULUS_HEX[2 * i..2 * i + 2], 16).unwrap();
    }
    bytes < m
}

#[test]
fn parse_hex_accepts_prefix_and_both_cases() {
    assert_eq!(fe("0x1a").to_hex_string(), "0x1a");
    assert_eq!(fe("1A").to_hex_string(), "0x1a");
    assert_eq!(fe("0x0").to_hex_string(), "0x0");
    assert_eq!(fe("000000ff").to_hex_string(), "0xff");
}

#[test]
fn parse_hex_rejects_malformed_text() {
    for bad in ["", "0x", "0xg1", "12 34", "x12", "0X12"] {
        assert_eq!(FieldElement::parse_hex(bad).unwrap_err(), CodecError::MalformedHex, "{bad}");
    }
    let too_long = "1".repeat(65);
    assert_eq!(FieldElement::parse_hex(&too_long).unwrap_err(), CodecError::MalformedHex);
}

#[test]
fn parse_hex_range_edges() {
    // the modulus reads as zero, anything above it is refused
    assert_eq!(fe(MODULUS_HEX).to_hex_string(), "0x0");
    let above = "0800000000000011000000000000000000000000000000000000000000000002";
    assert_eq!(FieldElement::parse_hex(above).unwrap_err(), CodecError::MalformedHex);
    let max = "0x800000000000011000000000000000000000000000000000000000000000000";
    assert_eq!(fe(max).to_hex_string(), max);
}

#[test]
fn fixed_hex_string_is_padded() {
    let s = fe("0x2a").to_fixed_hex_string();
    assert_eq!(s.len(), 66);
    assert_eq!(s, format!("0x{}2a", "0".repeat(62)));
}

#[test]
fn byte_conversion_reduces_modulo_prime() {
    let mut bytes = [0u8; 32];
    bytes[31] = 7;
    assert_eq!(FieldElement::from_be_bytes(bytes).to_hex_string(), "0x7");
    let mut m = [0u8; 32];
    for i in 0..32 {
        m[i] = u8::from_str_radix(&MODULUS_HEX[2 * i..2 * i + 2], 16).unwrap();
    }
    assert_eq!(FieldElement::from_be_bytes(m).to_hex_string(), "0x0");
    m[31] = 9;
    assert_eq!(FieldElement::from_be_bytes(m).to_hex_string(), "0x8");
    let all = FieldElement::from_be_bytes([0xff; 32]);
    assert!(below_modulus(&all));
    assert_eq!(fe("0x1234").to_be_bytes()[30..], [0x12, 0x34]);
}

#[test]
fn same_value_compares_numbers() {
    assert!(fe("0x00ab").same_value(&fe("AB")));
    assert!(!fe("0xab").same_value(&fe("0xac")));
}

#[test]
fn pack_layout_and_width() {
    let text = triple("0x1", "0x2", "0x3").pack();
    assert_eq!(text.len(), 130);
    assert_eq!(text, format!("{}1{}2{}", "0".repeat(63), "0".repeat(63), "03"));
}

#[test]
fn pack_keeps_low_byte_of_indicator() {
    let text = triple("0x1", "0x2", "0x1ff").pack();
    assert_eq!(&text[128..], "ff");
    assert_eq!(text.len(), 130);
}

#[test]
fn unpack_of_pack_round_trips() {
    let max = "0x800000000000011000000000000000000000000000000000000000000000000";
    let t = triple(max, "0xdeadbeef", "0x1");
    let back = SignatureTriple::unpack(&t.pack()).unwrap();
    assert!(back.r.same_value(&t.r));
    assert!(back.s.same_value(&t.s));
    assert!(back.v.same_value(&t.v));
}

#[test]
fn pack_of_unpack_round_trips() {
    let text = format!("{}{}{}", "0123456789abcdef".repeat(3) + &"0".repeat(16), "07ff".to_string() + &"0".repeat(60), "1b");
    assert_eq!(text.len(), 130);
    assert_eq!(SignatureTriple::unpack(&text).unwrap().pack(), text);
}

#[test]
fn unpack_accepts_uppercase_and_packs_lowercase() {
    let text = format!("{}AB{}CD{}", "0".repeat(62), "0".repeat(62), "EF");
    let t = SignatureTriple::unpack(&text).unwrap();
    assert_eq!(t.pack(), text.to_lowercase());
}

#[test]
fn unpack_rejects_wrong_length() {
    let good = triple("0x1", "0x2", "0x3").pack();
    assert_eq!(SignatureTriple::unpack(&good[..129]).unwrap_err(), CodecError::InvalidLength);
    let long = format!("{good}0");
    assert_eq!(SignatureTriple::unpack(&long).unwrap_err(), CodecError::InvalidLength);
    assert_eq!(SignatureTriple::unpack("").unwrap_err(), CodecError::InvalidLength);
}

#[test]
fn unpack_rejects_non_hex_in_any_window() {
    let good = triple("0x1", "0x2", "0x3").pack();
    for i in [0usize, 63, 64, 127, 128, 129] {
        let mut chars: Vec<char> = good.chars().collect();
        chars[i] = 'g';
        let bad: String = chars.into_iter().collect();
        assert_eq!(SignatureTriple::unpack(&bad).unwrap_err(), CodecError::MalformedHex, "{i}");
    }
}

#[test]
fn unpack_rejects_window_above_modulus() {
    let text = format!("{}{}{}", "f".repeat(64), "0".repeat(64), "00");
    assert_eq!(SignatureTriple::unpack(&text).unwrap_err(), CodecError::MalformedHex);
}

#[test]
fn unpack_rejects_prefixed_window() {
    let text = format!("0x{}{}{}", "0".repeat(62), "0".repeat(64), "00");
    assert_eq!(SignatureTriple::unpack(&text).unwrap_err(), CodecError::MalformedHex);
}

#[test]
fn sign_reply_packs_signature() {
    let sig = triple("0x1", "0x2", "0x1");
    let text = sign_reply(Ok(sig)).unwrap();
    assert_eq!(text.len(), 130);
    assert!(is_lower_hex(&text));
    let back = SignatureTriple::unpack(&text).unwrap();
    assert!(below_modulus(&back.r) && below_modulus(&back.s) && below_modulus(&back.v));
}

#[test]
fn sign_reply_passes_diagnostic_through() {
    let r = sign_reply(Err("invalid key".to_string()));
    assert_eq!(r.unwrap_err(), "invalid key");
}

#[test]
fn order_hash_reply_formats_natural_hex() {
    let h = fe("0x0000000000000000000000000000000000000000000000000000000000abc123");
    let text = order_hash_reply(Ok(h)).unwrap();
    assert_eq!(text, "0xabc123");
    let max = "0x800000000000011000000000000000000000000000000000000000000000000";
    let text = order_hash_reply(Ok(fe(max))).unwrap();
    assert!(text.starts_with("0x") && text.len() >= 3 && text.len() <= 66);
    assert_eq!(order_hash_reply(Ok(fe("0x0"))).unwrap(), "0x0");
}

#[test]
fn order_hash_reply_is_deterministic() {
    let a = order_hash_reply(Ok(fe("0x5f3"))).unwrap();
    let b = order_hash_reply(Ok(fe("0x5f3"))).unwrap();
    assert_eq!(a, b);
}

#[test]
fn order_hash_reply_passes_diagnostic_through() {
    let r = order_hash_reply(Err("bad asset id".to_string()));
    assert_eq!(r.unwrap_err(), "bad asset id");
}

#[test]
fn reply_text_flattens_both_channels() {
    assert_eq!(reply_text(Ok("0x1".to_string())), "0x1");
    assert_eq!(reply_text(Err("oops".to_string())), "oops");
}

#[test]
fn signing_inputs_strict_mode() {
    let (m, k) = parse_signing_inputs("0x1", "0x2", ParseMode::Strict).unwrap();
    assert_eq!(m.to_hex_string(), "0x1");
    assert_eq!(k.to_hex_string(), "0x2");
    let above = "0x0800000000000011000000000000000000000000000000000000000000000002";
    let r = parse_signing_inputs("0x1", above, ParseMode::Strict);
    assert_eq!(r.unwrap_err(), CodecError::MalformedHex);
    let r = parse_signing_inputs("0xz", "0x2", ParseMode::Strict);
    assert_eq!(r.unwrap_err(), CodecError::MalformedHex);
}

#[test]
fn signing_inputs_lenient_mode_reduces() {
    let above = "0x0800000000000011000000000000000000000000000000000000000000000002";
    let (m, k) = parse_signing_inputs("0x1", above, ParseMode::Lenient).unwrap();
    assert_eq!(m.to_hex_string(), "0x1");
    assert_eq!(k.to_hex_string(), "0x1");
    let (m, _) = parse_signing_inputs(&"f".repeat(64), "2", ParseMode::Lenient).unwrap();
    assert_eq!(
        m.to_hex_string(),
        "0x7fffffffffffdf0ffffffffffffffffffffffffffffffffffffffffffffffe0"
    );
    for bad in ["", "0x", "0xq", "1 2"] {
        let r = parse_signing_inputs(bad, "0x2", ParseMode::Lenient);
        assert_eq!(r.unwrap_err(), CodecError::MalformedHex, "{bad}");
    }
    let r = parse_signing_inputs("0x1", &"1".repeat(65), ParseMode::Lenient);
    assert_eq!(r.unwrap_err(), CodecError::MalformedHex);
}

#[test]
fn hex_shape_check() {
    assert!(is_hex_shaped("0x1"));
    assert!(is_hex_shaped("abcDEF"));
    assert!(is_hex_shaped("0"));
    assert!(is_hex_shaped(&"f".repeat(64)));
    assert!(is_hex_shaped(&format!("0x{}", "f".repeat(64))));
    assert!(!is_hex_shaped(&"f".repeat(65)));
    assert!(!is_hex_shaped(""));
    assert!(!is_hex_shaped("0x"));
    assert!(!is_hex_shaped("0X1"));
    assert!(!is_hex_shaped("0x0x1"));
}
