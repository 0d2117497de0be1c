use ppm::decoder::PPMDecoder;
use ppm::pixels::ColorType;
use ppm::pixels::DecodingResult;

/// Decodes `encoded`, expecting the simplistic one-pixel image whose single
/// pixel holds the byte values (49, 50, 51).
fn decode_minimal_image(encoded: &[u8]) {
    let content = vec![49 as u8, 50, 51];
    let mut decoder = PPMDecoder::new(encoded.to_vec()).unwrap();

    assert_eq!(decoder.dimensions().unwrap(), (1, 1));
    assert_eq!(decoder.colortype().unwrap(), ColorType::RGB(8));
    assert_eq!(decoder.row_len().unwrap(), 3);
    assert_eq!(decoder.bytewidth(), 1);

    match decoder.read_image().unwrap() {
        DecodingResult::U8(image) => assert_eq!(image, content),
        _ => assert!(false),
    }
}

#[test]
fn minimal_form() {
    decode_minimal_image(&b"P61 1 255 123"[..]);
    decode_minimal_image(&b"P6 1 1 255 123"[..]);
    decode_minimal_image(&b"P6 1 1 255 123\xFF"[..]);
}

#[test]
fn comment_in_token() {
    decode_minimal_image(&b"P6 1 1 2#comment\n55 123"[..]);
    decode_minimal_image(&b"P6 1 1 2#comment\r55 123"[..]);
    decode_minimal_image(&b"P6 1 1#comment\n 255 123"[..]);
    decode_minimal_image(&b"P6 1 1 #comment\n255 123"[..]);
    decode_minimal_image(&b"P6#comment\n 1 1 255 123"[..]);
    decode_minimal_image(&b"P6 1 1 255#comment\n 123"[..]);
}

#[test]
fn whitespace() {
    decode_minimal_image(&b"P6\x091\x091\x09255\x09123"[..]);
    decode_minimal_image(&b"P6\x0a1\x0a1\x0a255\x0a123"[..]);
    decode_minimal_image(&b"P6\x0b1\x0b1\x0b255\x0b123"[..]);
    decode_minimal_image(&b"P6\x0c1\x0c1\x0c255\x0c123"[..]);
    decode_minimal_image(&b"P6\x0d1\x0d1\x0d255\x0d123"[..]);
    decode_minimal_image(&b"P61\x09\x0a\x0b\x0c\x0d1 255 123"[..]);
}

#[test]
fn wrong_tag() {
    assert!(PPMDecoder::new(b"P5 1 1 255 1".to_vec()).is_err());
}

#[test]
fn invalid_characters() {
    assert!(PPMDecoder::new(b"P6 1chars1 255 1".to_vec()).is_err());
    assert!(PPMDecoder::new(b"P6 1\xFF1 255 1".to_vec()).is_err());
    assert!(PPMDecoder::new(b"P6 0x01 1 255 1".to_vec()).is_err());
}

#[test]
fn unsupported_extensions() {
    assert!(PPMDecoder::new(b"P6 1 1 65536 1".to_vec()).is_err());
}
