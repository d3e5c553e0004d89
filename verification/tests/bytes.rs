use saori_module::codec::{decode_request, encode_response};
use saori_module::request;

// "konnichiwa" in hiragana, as text and as Shift_JIS bytes.
const GREETING: &str = "\u{3053}\u{3093}\u{306b}\u{3061}\u{306f}";
const GREETING_SJIS: [u8; 10] = [0x82, 0xb1, 0x82, 0xf1, 0x82, 0xc9, 0x82, 0xbf, 0x82, 0xcd];

fn with_zero(bytes: &[u8]) -> Vec<u8> {
    let mut all = bytes.to_vec();
    all.push(0);
    all
}

#[test]
fn version_probe_in_bytes() {
    assert_eq!(
        request(b"GET Version SAORI/1.0\r\n\r\n"),
        Some(with_zero(b"SAORI/1.0 200 OK\r\nCharset: Shift_JIS\r\n\r\n"))
    );
}

#[test]
fn malformed_request_in_bytes() {
    assert_eq!(
        request(b"FOO BAR\r\n\r\n"),
        Some(with_zero(b"SAORI/1.0 400 Bad Request\r\nCharset: Shift_JIS\r\n\r\n"))
    );
    assert_eq!(
        request(b""),
        Some(with_zero(b"SAORI/1.0 400 Bad Request\r\nCharset: Shift_JIS\r\n\r\n"))
    );
}

#[test]
fn call_in_bytes_echoes_the_argument() {
    assert_eq!(
        request(b"EXECUTE SAORI/1.0\r\nArgument0: hello\r\n\r\n"),
        Some(with_zero(
            b"SAORI/1.0 200 OK\r\nCharset: Shift_JIS\r\nResult: hello\r\nValue0: test1\r\nValue1: test2\r\n\r\n"
        ))
    );
}

#[test]
fn call_in_shift_jis_echoes_the_argument_in_shift_jis() {
    let mut input = b"EXECUTE SAORI/1.0\r\nCharset: Shift_JIS\r\nArgument0: ".to_vec();
    input.extend_from_slice(&GREETING_SJIS);
    input.extend_from_slice(b"\r\n\r\n");
    let mut expected = b"SAORI/1.0 200 OK\r\nCharset: Shift_JIS\r\nResult: ".to_vec();
    expected.extend_from_slice(&GREETING_SJIS);
    expected.extend_from_slice(b"\r\nValue0: test1\r\nValue1: test2\r\n\r\n\0");
    assert_eq!(request(&input), Some(expected));
}

#[test]
fn request_with_a_zero_byte_at_the_end_is_read_with_it() {
    assert_eq!(
        request(b"EXECUTE SAORI/1.0\r\nArgument0: a\0"),
        Some(with_zero(
            b"SAORI/1.0 200 OK\r\nCharset: Shift_JIS\r\nResult: a\0\r\nValue0: test1\r\nValue1: test2\r\n\r\n"
        ))
    );
}

#[test]
fn decode_request_reads_shift_jis() {
    assert_eq!(decode_request(&GREETING_SJIS), Some(GREETING.to_string()));
    assert_eq!(decode_request(b"plain"), Some("plain".to_string()));
    assert_eq!(decode_request(b""), Some(String::new()));
    // Half-width katakana take one byte each.
    assert_eq!(decode_request(&[0xb1, 0xb2]), Some("\u{ff71}\u{ff72}".to_string()));
}

#[test]
fn decode_request_replaces_what_is_not_shift_jis() {
    assert_eq!(decode_request(&[b'a', 0xff, b'b']), Some("a\u{fffd}b".to_string()));
}

#[test]
fn decode_request_honours_a_byte_order_mark() {
    let mut input = vec![0xef, 0xbb, 0xbf];
    input.extend_from_slice(GREETING.as_bytes());
    assert_eq!(decode_request(&input), Some(GREETING.to_string()));
}

#[test]
fn encode_response_writes_shift_jis_and_a_zero_byte() {
    assert_eq!(encode_response(GREETING), Some(with_zero(&GREETING_SJIS)));
    assert_eq!(encode_response("plain"), Some(with_zero(b"plain")));
    assert_eq!(encode_response(""), Some(vec![0]));
}

#[test]
fn encode_response_writes_a_character_reference_for_what_shift_jis_lacks() {
    assert_eq!(encode_response("\u{20ac}5"), Some(with_zero(b"&#8364;5")));
}

#[test]
fn ascii_passes_through_both_ways() {
    let every_ascii: Vec<u8> = (0u8..=0x7f).collect();
    let text: String = every_ascii.iter().map(|b| *b as char).collect();
    assert_eq!(decode_request(&every_ascii), Some(text.clone()));
    assert_eq!(encode_response(&text), Some(with_zero(&every_ascii)));
}

#[test]
fn decode_request_does_more_than_read_the_bytes_as_utf8() {
    let decoded = decode_request(&GREETING_SJIS).unwrap();
    assert_ne!(decoded.as_bytes(), &GREETING_SJIS[..]);
    assert_ne!(decoded, String::from_utf8_lossy(&GREETING_SJIS));
    assert_eq!(decoded.chars().count(), 5);
}

#[test]
fn encode_response_does_more_than_copy_the_utf8_bytes() {
    let encoded = encode_response(GREETING).unwrap();
    assert_ne!(&encoded[..encoded.len() - 1], GREETING.as_bytes());
    assert_eq!(encoded.len(), 11);
}

#[test]
fn request_is_decoding_answering_and_encoding() {
    let mut seed: u32 = 12345;
    let mut inputs: Vec<Vec<u8>> = vec![
        b"EXECUTE SAORI/1.0\r\nArgument0: \x83\x65\x83\x58\x83\x67\r\n\r\n".to_vec(),
        b"EXECUTE SAORI/1.0\r\nArgument0: \xff\xfe\x80\r\n\r\n".to_vec(),
        b"\xef\xbb\xbfEXECUTE SAORI/1.0\r\nArgument0: \xe2\x82\xac\r\n\r\n".to_vec(),
        b"\xff\xfeG\0E\0T\0".to_vec(),
    ];
    for _ in 0..200 {
        let mut input = b"EXECUTE SAORI/1.0\r\nArgument0: ".to_vec();
        for _ in 0..8 {
            seed = seed.wrapping_mul(1664525).wrapping_add(1013904223);
            input.push((seed >> 24) as u8);
        }
        inputs.push(input);
    }
    for input in inputs {
        let text = encoding_rs::SHIFT_JIS.decode(&input).0.into_owned();
        let answer = saori_module::saori::request(&text);
        let expected = with_zero(&encoding_rs::SHIFT_JIS.encode(&answer).0);
        assert_eq!(request(&input), Some(expected), "{:?}", input);
    }
}
