use base64::engine::general_purpose::STANDARD;
use base64::Engine;
use soroban_event_indexer::scval::ScValDecoded;

#[test]
fn test_decode_u32() {
    // discriminant 4 (SCV_U32) = 0x00000004, value 42 = 0x0000002A
    let bytes = [0x00, 0x00, 0x00, 0x04, 0x00, 0x00, 0x00, 0x2A];
    let b64 = STANDARD.encode(bytes);
    assert_eq!(ScValDecoded::from_base64(&b64), ScValDecoded::U32(42));
}

#[test]
fn test_decode_bool_true() {
    let bytes = [0x00, 0x00, 0x00, 0x01];
    let b64 = STANDARD.encode(bytes);
    assert_eq!(ScValDecoded::from_base64(&b64), ScValDecoded::Bool(true));
}

#[test]
fn test_decode_void() {
    let bytes = [0x00, 0x00, 0x00, 0x02];
    let b64 = STANDARD.encode(bytes);
    assert_eq!(ScValDecoded::from_base64(&b64), ScValDecoded::Void);
}

#[test]
fn test_decode_symbol() {
    // discriminant 16 (SCV_SYMBOL), len=8, "transfer" padded to 8 bytes (already aligned)
    let mut bytes = vec![0x00, 0x00, 0x00, 0x10]; // discriminant 16
    bytes.extend_from_slice(&8u32.to_be_bytes()); // length = 8
    bytes.extend_from_slice(b"transfer"); // 8 bytes, already 4-byte aligned
    let b64 = STANDARD.encode(&bytes);
    assert_eq!(
        ScValDecoded::from_base64(&b64),
        ScValDecoded::Symbol("transfer".to_string())
    );
}

#[test]
fn test_garbage_returns_raw() {
    let decoded = ScValDecoded::from_base64("not valid base64 !!!");
    assert!(matches!(decoded, ScValDecoded::Raw(_)));
}

#[test]
fn test_display() {
    assert_eq!(ScValDecoded::U32(100).display(), "100");
    assert_eq!(ScValDecoded::Symbol("mint".to_string()).display(), ":mint");
    assert_eq!(ScValDecoded::Bool(true).display(), "true");
}

// ─── further cases ───────────────────────────────────────────────────────────

fn b64(bytes: &[u8]) -> String {
    STANDARD.encode(bytes)
}

#[test]
fn garbage_keeps_the_input_text() {
    let decoded = ScValDecoded::from_base64("not valid base64 !!!");
    assert_eq!(decoded, ScValDecoded::Raw("not valid base64 !!!".to_string()));
}

#[test]
fn too_short_xdr_returns_raw_input() {
    let text = b64(&[0x00, 0x00, 0x01]);
    assert_eq!(ScValDecoded::from_base64(&text), ScValDecoded::Raw(text.clone()));
    // u32 with a missing payload
    let text = b64(&[0x00, 0x00, 0x00, 0x04, 0x00, 0x01]);
    assert_eq!(ScValDecoded::from_base64(&text), ScValDecoded::Raw(text.clone()));
}

#[test]
fn decode_bool_false_and_signed() {
    assert_eq!(ScValDecoded::from_base64(&b64(&[0, 0, 0, 0])), ScValDecoded::Bool(false));
    assert_eq!(
        ScValDecoded::from_base64(&b64(&[0, 0, 0, 5, 0xff, 0xff, 0xff, 0xfe])),
        ScValDecoded::I32(-2)
    );
    assert_eq!(
        ScValDecoded::from_base64(&b64(&[0, 0, 0, 7, 0xff, 0xff, 0xff, 0xff, 0xff, 0xff, 0xff, 0xff])),
        ScValDecoded::I64(-1)
    );
    assert_eq!(
        ScValDecoded::from_base64(&b64(&[0, 0, 0, 6, 0, 0, 0, 1, 0, 0, 0, 0])),
        ScValDecoded::U64(4294967296)
    );
}

#[test]
fn decode_128_bit_as_decimal_text() {
    let mut u = vec![0, 0, 0, 10];
    u.extend_from_slice(&(u128::MAX).to_be_bytes());
    assert_eq!(
        ScValDecoded::from_base64(&b64(&u)),
        ScValDecoded::U128(u128::MAX.to_string())
    );
    let mut i = vec![0, 0, 0, 11];
    i.extend_from_slice(&(i128::MIN).to_be_bytes());
    assert_eq!(
        ScValDecoded::from_base64(&b64(&i)),
        ScValDecoded::I128(i128::MIN.to_string())
    );
    let mut z = vec![0, 0, 0, 10];
    z.extend_from_slice(&0u128.to_be_bytes());
    assert_eq!(ScValDecoded::from_base64(&b64(&z)), ScValDecoded::U128("0".to_string()));
}

#[test]
fn decode_bytes_and_string_with_padding() {
    let bytes = [0, 0, 0, 14, 0, 0, 0, 3, 0xde, 0xad, 0xbe, 0x00];
    assert_eq!(
        ScValDecoded::from_base64(&b64(&bytes)),
        ScValDecoded::Bytes(vec![0xde, 0xad, 0xbe])
    );
    let string = [0, 0, 0, 15, 0, 0, 0, 2, b'h', b'i', 0, 0];
    assert_eq!(
        ScValDecoded::from_base64(&b64(&string)),
        ScValDecoded::String("hi".to_string())
    );
    // declared length 3, but the padded body of 4 bytes is not all there
    let short = [0, 0, 0, 14, 0, 0, 0, 3, 1, 2, 3];
    let text = b64(&short);
    assert_eq!(ScValDecoded::from_base64(&text), ScValDecoded::Raw(text.clone()));
}

#[test]
fn decode_invalid_utf8_symbol_is_lossy() {
    let bytes = [0, 0, 0, 16, 0, 0, 0, 2, b'a', 0xff, 0, 0];
    assert_eq!(
        ScValDecoded::from_base64(&b64(&bytes)),
        ScValDecoded::Symbol("a\u{FFFD}".to_string())
    );
}

#[test]
fn decode_vec_reports_placeholders() {
    assert_eq!(
        ScValDecoded::from_base64(&b64(&[0, 0, 0, 17, 0, 0, 0, 0])),
        ScValDecoded::Vec(vec![])
    );
    assert_eq!(
        ScValDecoded::from_base64(&b64(&[0, 0, 0, 17, 0, 0, 0, 1, 0, 0, 0, 2])),
        ScValDecoded::Vec(vec![
            ScValDecoded::Symbol("item[0]".to_string()),
            ScValDecoded::Symbol("item[1]".to_string()),
        ])
    );
    // the count is capped at 256
    match ScValDecoded::from_base64(&b64(&[0, 0, 0, 17, 0, 0, 0, 1, 0, 0, 1, 0x2c])) {
        ScValDecoded::Vec(items) => {
            assert_eq!(items.len(), 256);
            assert_eq!(items[255], ScValDecoded::Symbol("item[255]".to_string()));
        }
        other => panic!("unexpected {other:?}"),
    }
    // present but no count
    let text = b64(&[0, 0, 0, 17, 0, 0, 0, 1]);
    assert_eq!(ScValDecoded::from_base64(&text), ScValDecoded::Raw(text.clone()));
}

#[test]
fn decode_map_reports_placeholders() {
    assert_eq!(
        ScValDecoded::from_base64(&b64(&[0, 0, 0, 18, 0, 0, 0, 0])),
        ScValDecoded::ScMap(vec![])
    );
    assert_eq!(
        ScValDecoded::from_base64(&b64(&[0, 0, 0, 18, 0, 0, 0, 1, 0, 0, 0, 1])),
        ScValDecoded::ScMap(vec![(
            ScValDecoded::Symbol("key[0]".to_string()),
            ScValDecoded::Symbol("val[0]".to_string()),
        )])
    );
    match ScValDecoded::from_base64(&b64(&[0, 0, 0, 18, 0, 0, 0, 1, 0, 0, 0, 200])) {
        ScValDecoded::ScMap(entries) => assert_eq!(entries.len(), 64),
        other => panic!("unexpected {other:?}"),
    }
}

#[test]
fn decode_addresses() {
    let mut account = vec![0, 0, 0, 19, 0, 0, 0, 0, 0, 0, 0, 0];
    account.extend_from_slice(&[0xab; 32]);
    assert_eq!(
        ScValDecoded::from_base64(&b64(&account)),
        ScValDecoded::Address(format!("G[{}]", "ab".repeat(32)))
    );
    let mut contract = vec![0, 0, 0, 19, 0, 0, 0, 1];
    contract.extend_from_slice(&[0x01; 32]);
    assert_eq!(
        ScValDecoded::from_base64(&b64(&contract)),
        ScValDecoded::Address(format!("C[{}]", "01".repeat(32)))
    );
    assert_eq!(
        ScValDecoded::from_base64(&b64(&[0, 0, 0, 19, 0, 0, 0, 7])),
        ScValDecoded::Address("Address(type=7)".to_string())
    );
}

#[test]
fn unknown_discriminant_is_raw_reencoded() {
    let bytes = [0, 0, 0, 99, 1, 2, 3];
    let text = b64(&bytes);
    assert_eq!(ScValDecoded::from_base64(&text), ScValDecoded::Raw(text.clone()));
    assert_eq!(ScValDecoded::from_xdr_bytes(&bytes), Some(ScValDecoded::Raw(text)));
}

#[test]
fn from_xdr_bytes_reports_short_input() {
    assert_eq!(ScValDecoded::from_xdr_bytes(&[0, 0]), None);
    assert_eq!(ScValDecoded::from_xdr_bytes(&[0, 0, 0, 6, 1]), None);
    assert_eq!(ScValDecoded::from_xdr_bytes(&[0, 0, 0, 2]), Some(ScValDecoded::Void));
}

#[test]
fn display_every_variant() {
    assert_eq!(ScValDecoded::Bool(false).display(), "false");
    assert_eq!(ScValDecoded::Void.display(), "void");
    assert_eq!(ScValDecoded::I32(-7).display(), "-7");
    assert_eq!(ScValDecoded::I64(i64::MIN).display(), i64::MIN.to_string());
    assert_eq!(ScValDecoded::U64(u64::MAX).display(), u64::MAX.to_string());
    assert_eq!(ScValDecoded::I128("-5".to_string()).display(), "i128:-5");
    assert_eq!(ScValDecoded::U128("5".to_string()).display(), "u128:5");
    assert_eq!(ScValDecoded::String("hi".to_string()).display(), "\"hi\"");
    assert_eq!(ScValDecoded::Bytes(vec![0x0a, 0xff]).display(), "0x0aff");
    assert_eq!(ScValDecoded::Address("C[00]".to_string()).display(), "C[00]");
    assert_eq!(
        ScValDecoded::Vec(vec![ScValDecoded::U32(1), ScValDecoded::Symbol("a".to_string())]).display(),
        "[1, :a]"
    );
    assert_eq!(ScValDecoded::Vec(vec![]).display(), "[]");
    assert_eq!(
        ScValDecoded::ScMap(vec![
            (ScValDecoded::Symbol("k".to_string()), ScValDecoded::U32(1)),
            (ScValDecoded::Symbol("j".to_string()), ScValDecoded::Void),
        ])
        .display(),
        "{:k=1, :j=void}"
    );
    assert_eq!(
        ScValDecoded::Error { code: 3, kind: "contract".to_string() }.display(),
        "error(contract:3)"
    );
    assert_eq!(ScValDecoded::Raw("AAAA".to_string()).display(), "raw:AAAA");
}

#[test]
fn clone_keeps_nested_values() {
    let v = ScValDecoded::Vec(vec![
        ScValDecoded::ScMap(vec![(ScValDecoded::U32(1), ScValDecoded::Bytes(vec![1, 2]))]),
        ScValDecoded::Raw("x".to_string()),
    ]);
    assert_eq!(v.clone(), v);
}
