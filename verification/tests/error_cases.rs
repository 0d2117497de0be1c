use ppm::decoder::PPMDecoder;
use ppm::error::PpmError;
use ppm::pixels::ColorType;
use ppm::pixels::DecodingResult;

#[test]
fn p3_is_distinct_from_bad_magic() {
    assert_eq!(
        PPMDecoder::new(b"P3 1 1 255 1".to_vec()).err().unwrap(),
        PpmError::UnsupportedVariant
    );
    assert_eq!(PPMDecoder::new(b"P5 1 1 255 1".to_vec()).err().unwrap(), PpmError::BadMagic);
    assert_eq!(PPMDecoder::new(b"X6 1 1 255 1".to_vec()).err().unwrap(), PpmError::BadMagic);
}

#[test]
fn short_magic_is_io_error() {
    assert_eq!(PPMDecoder::new(b"".to_vec()).err().unwrap(), PpmError::Io);
    assert_eq!(PPMDecoder::new(b"P".to_vec()).err().unwrap(), PpmError::Io);
}

#[test]
fn missing_token_is_unexpected_eof() {
    assert_eq!(PPMDecoder::new(b"P6".to_vec()).err().unwrap(), PpmError::UnexpectedEof);
    assert_eq!(PPMDecoder::new(b"P6 1 1 ".to_vec()).err().unwrap(), PpmError::UnexpectedEof);
}

#[test]
fn token_errors_are_distinguished() {
    assert_eq!(
        PPMDecoder::new(b"P6 1chars1 255 1".to_vec()).err().unwrap(),
        PpmError::InvalidNumber
    );
    assert_eq!(
        PPMDecoder::new(b"P6 0x01 1 255 1".to_vec()).err().unwrap(),
        PpmError::InvalidNumber
    );
    assert_eq!(PPMDecoder::new(b"P6 +1 1 255 1".to_vec()).err().unwrap(), PpmError::InvalidNumber);
    assert_eq!(PPMDecoder::new(b"P6 -1 1 255 1".to_vec()).err().unwrap(), PpmError::InvalidNumber);
    assert_eq!(
        PPMDecoder::new(b"P6 4294967296 1 255 1".to_vec()).err().unwrap(),
        PpmError::InvalidNumber
    );
    assert_eq!(
        PPMDecoder::new(b"P6 1\xFF1 255 1".to_vec()).err().unwrap(),
        PpmError::NonAsciiHeader
    );
}

#[test]
fn maxval_bounds() {
    assert_eq!(
        PPMDecoder::new(b"P6 1 1 65536 1".to_vec()).err().unwrap(),
        PpmError::MaxvalOutOfRange
    );
    assert_eq!(
        PPMDecoder::new(b"P6 1 1 0 ".to_vec()).err().unwrap(),
        PpmError::MaxvalOutOfRange
    );
    let mut ok16 = PPMDecoder::new(b"P6 1 1 65535 \x12\x34\xAB\xCD\x00\xFF".to_vec()).unwrap();
    assert_eq!(ok16.bytewidth(), 2);
    assert_eq!(ok16.colortype().unwrap(), ColorType::RGB(16));
    assert_eq!(ok16.row_len().unwrap(), 6);
    match ok16.read_image().unwrap() {
        DecodingResult::U16(image) => assert_eq!(image, vec![0x1234u16, 0xABCD, 0x00FF]),
        _ => assert!(false),
    }
    let mut ok8 = PPMDecoder::new(b"P6 1 1 255 123".to_vec()).unwrap();
    assert_eq!(ok8.bytewidth(), 1);
    assert_eq!(ok8.colortype().unwrap(), ColorType::RGB(8));
}

#[test]
fn short_payload_is_io_error_and_trailing_is_ignored() {
    let mut short = PPMDecoder::new(b"P6 2 2 255 123".to_vec()).unwrap();
    assert_eq!(short.read_image().err().unwrap(), PpmError::Io);
    let mut long = PPMDecoder::new(b"P6 1 1 255 123 and then some trailing junk".to_vec()).unwrap();
    match long.read_image().unwrap() {
        DecodingResult::U8(image) => assert_eq!(image, vec![49u8, 50, 51]),
        _ => assert!(false),
    }
}

#[test]
fn dimension_overflow_is_detected() {
    let mut decoder = PPMDecoder::new(b"P6 65536 65536 255 ".to_vec()).unwrap();
    assert_eq!(decoder.read_image().err().unwrap(), PpmError::DimensionOverflow);
    assert_eq!(decoder.dimensions().unwrap(), (65536, 65536));
}

#[test]
fn empty_image_decodes() {
    let mut decoder = PPMDecoder::new(b"P6 0 0 255 ".to_vec()).unwrap();
    assert_eq!(decoder.dimensions().unwrap(), (0, 0));
    match decoder.read_image().unwrap() {
        DecodingResult::U8(image) => assert_eq!(image, Vec::<u8>::new()),
        _ => assert!(false),
    }
}

#[test]
fn scanline_reads_are_a_typed_unsupported_result() {
    let mut decoder = PPMDecoder::new(b"P6 1 1 255 123".to_vec()).unwrap();
    assert!(!decoder.supports_scanline());
    let mut buf: Vec<u8> = Vec::new();
    assert_eq!(decoder.read_scanline(&mut buf).err().unwrap(), PpmError::UnsupportedOperation);
    match decoder.read_image().unwrap() {
        DecodingResult::U8(image) => assert_eq!(image, vec![49u8, 50, 51]),
        _ => assert!(false),
    }
}

#[test]
fn messages_name_the_reason() {
    assert_eq!(PpmError::UnsupportedVariant.message(), "plain format is not yet supported");
    assert!(PpmError::BadMagic.message() != PpmError::UnsupportedVariant.message());
}
