use netbpm::ascii::decode_samples;
use netbpm::pnm::decoder::decode;
use netbpm::pnm::encoder::encode;
use netbpm::pnm::pbm::{load_ascii, load_binary};
use netbpm::tools::{get_header, is_number, is_whitespace};
use netbpm::{BitDepth, Image, ImageType, Mode, NetpbmError, WordSize};

fn bitmap(width: u32, height: u32, data: Vec<u8>) -> Image {
    Image { width, height, image_type: ImageType::BLACKANDWHITE, depth: 1, word_size: WordSize::EIGHT, data }
}

fn graymap(width: u32, height: u32, word_size: WordSize, data: Vec<u8>) -> Image {
    Image { width, height, image_type: ImageType::GRAYSCALE, depth: 2, word_size, data }
}

fn pixmap(width: u32, height: u32, word_size: WordSize, data: Vec<u8>) -> Image {
    Image { width, height, image_type: ImageType::RGB, depth: 3, word_size, data }
}

fn assert_same_image(a: &Image, b: &Image) {
    assert_eq!(a.width, b.width);
    assert_eq!(a.height, b.height);
    assert_eq!(a.image_type, b.image_type);
    assert_eq!(a.depth, b.depth);
    assert_eq!(a.word_size, b.word_size);
    assert_eq!(a.data, b.data);
}

#[test]
fn ascii_pbm_scenario() {
    // P1, 6 by 10, then sixty 0/1 tokens
    let mut file = b"P1\n6 10\n".to_vec();
    let mut samples: Vec<u8> = Vec::new();
    for i in 0..60u8 {
        samples.push(i % 2);
    }
    for (i, s) in samples.iter().enumerate() {
        file.push(48 + s);
        file.push(if i % 6 == 5 { b'\n' } else { b' ' });
    }
    let header = get_header(&file).unwrap();
    assert_eq!(header.width, 6);
    assert_eq!(header.height, 10);
    assert_eq!(header.dat_start, 8);
    assert_eq!(header.depth, BitDepth::EIGHT);
    assert_eq!(header.mode, Mode::ASCII);
    let image = decode(&file).unwrap();
    assert_eq!(image.width, 6);
    assert_eq!(image.height, 10);
    assert_eq!(image.image_type, ImageType::BLACKANDWHITE);
    assert_eq!(image.word_size, WordSize::EIGHT);
    assert_eq!(image.data, samples);
}

#[test]
fn sixteen_bit_pgm_header_scenario() {
    let file = b"P2\n6 10\n65535\n".to_vec();
    let header = get_header(&file).unwrap();
    assert_eq!(header.depth, BitDepth::SIXTEEN);
    assert_eq!(header.dat_start, 14);
}

#[test]
fn header_without_final_separator_ends_at_the_buffer() {
    // the height field is still open when the buffer runs out: the fields
    // hold what accumulated and pixel data starts at the buffer's end
    let file = b"P1\n6 10".to_vec();
    let header = get_header(&file).unwrap();
    assert_eq!(header.width, 6);
    assert_eq!(header.height, 10);
    assert_eq!(header.dat_start, 7);
}

#[test]
fn magic_digit_seven_is_unsupported() {
    let file = b"P7\n6 10\n".to_vec();
    match get_header(&file) {
        Ok(_) => assert!(false),
        Err(e) => {
            assert_eq!(e, NetpbmError::UnsupportedNetpbmType);
            assert_eq!(e.description(), "Input file is an unsupported netbpm type.");
        }
    }
    match decode(&file) {
        Ok(_) => assert!(false),
        Err(e) => assert_eq!(e, NetpbmError::UnsupportedNetpbmType),
    }
}

#[test]
fn header_overrun_on_early_digit() {
    // a digit right after the magic number lands before any field
    let file = b"P16 10\n".to_vec();
    match get_header(&file) {
        Ok(_) => assert!(false),
        Err(e) => {
            assert_eq!(e, NetpbmError::HeaderOverrun);
            assert_eq!(e.description(), "Loader reading past end of header.");
        }
    }
}

#[test]
fn width_too_wide_reported_before_encoding() {
    let image = bitmap(160, 14, vec![0; 160 * 14]);
    match encode(&image, Mode::ASCII) {
        Ok(_) => assert!(false),
        Err(e) => assert_eq!(e, NetpbmError::WidthTooWideForAscii),
    }
}

#[test]
fn line_too_wide_on_long_tokens() {
    // fifteen sixteen-bit tokens of five digits pass 70 characters
    let image = graymap(15, 1, WordSize::SIXTEEN, vec![255; 30]);
    match encode(&image, Mode::ASCII) {
        Ok(_) => assert!(false),
        Err(e) => assert_eq!(e, NetpbmError::LineTooWide),
    }
}

#[test]
fn round_trip_bitmap_narrow() {
    let image = bitmap(6, 10, vec![0, 1, 1, 0, 1, 0].repeat(10));
    for mode in [Mode::ASCII, Mode::BINARY] {
        let bytes = encode(&image, mode).unwrap();
        assert_same_image(&image, &decode(&bytes).unwrap());
    }
}

#[test]
fn round_trip_bitmap_unaligned() {
    let image = bitmap(10, 9, vec![1, 0, 0, 1, 1, 1, 0, 1, 0, 1].repeat(9));
    for mode in [Mode::ASCII, Mode::BINARY] {
        let bytes = encode(&image, mode).unwrap();
        assert_same_image(&image, &decode(&bytes).unwrap());
    }
}

#[test]
fn round_trip_bitmap_aligned() {
    let image = bitmap(16, 14, vec![1, 0].repeat(8 * 14));
    for mode in [Mode::ASCII, Mode::BINARY] {
        let bytes = encode(&image, mode).unwrap();
        assert_same_image(&image, &decode(&bytes).unwrap());
    }
}

#[test]
fn round_trip_graymap_eight() {
    for width in [6u32, 10, 16] {
        let data: Vec<u8> = (0..width * 9).map(|i| (i * 7 % 256) as u8).collect();
        let image = graymap(width, 9, WordSize::EIGHT, data);
        for mode in [Mode::ASCII, Mode::BINARY] {
            let bytes = encode(&image, mode).unwrap();
            assert_same_image(&image, &decode(&bytes).unwrap());
        }
    }
}

#[test]
fn round_trip_graymap_sixteen() {
    for width in [6u32, 10, 16] {
        let data: Vec<u8> = (0..width * 9 * 2).map(|i| (i * 13 % 256) as u8).collect();
        let image = graymap(width, 9, WordSize::SIXTEEN, data);
        let bytes = encode(&image, Mode::BINARY).unwrap();
        assert_same_image(&image, &decode(&bytes).unwrap());
    }
    // ascii sixteen-bit tokens are up to five characters, so keep rows short
    let data: Vec<u8> = (0..4 * 3 * 2).map(|i| (i * 31 % 256) as u8).collect();
    let image = graymap(4, 3, WordSize::SIXTEEN, data);
    let bytes = encode(&image, Mode::ASCII).unwrap();
    assert_same_image(&image, &decode(&bytes).unwrap());
}

#[test]
fn round_trip_pixmap_eight() {
    for width in [6u32, 10, 16] {
        let data: Vec<u8> = (0..width * 4 * 3).map(|i| (i * 3 % 256) as u8).collect();
        let image = pixmap(width, 4, WordSize::EIGHT, data);
        let bytes = encode(&image, Mode::BINARY).unwrap();
        assert_same_image(&image, &decode(&bytes).unwrap());
        // single-digit samples keep even the widest row within the
        // 70-character line budget (48 tokens of one digit each)
        let small: Vec<u8> = (0..width * 4 * 3).map(|i| (i % 10) as u8).collect();
        let image = pixmap(width, 4, WordSize::EIGHT, small);
        let bytes = encode(&image, Mode::ASCII).unwrap();
        assert_same_image(&image, &decode(&bytes).unwrap());
    }
}

#[test]
fn round_trip_pixmap_sixteen() {
    for width in [6u32, 10, 16] {
        let data: Vec<u8> = (0..width * 4 * 3 * 2).map(|i| (i * 5 % 256) as u8).collect();
        let image = pixmap(width, 4, WordSize::SIXTEEN, data);
        let bytes = encode(&image, Mode::BINARY).unwrap();
        assert_same_image(&image, &decode(&bytes).unwrap());
    }
    // two sixteen-bit pixels per row fit the line budget
    let data: Vec<u8> = (0..2 * 2 * 3 * 2).map(|i| (i * 11 % 256) as u8).collect();
    let image = pixmap(2, 2, WordSize::SIXTEEN, data);
    let bytes = encode(&image, Mode::ASCII).unwrap();
    assert_same_image(&image, &decode(&bytes).unwrap());
}

#[test]
fn re_encoding_a_decoded_image_is_byte_identical() {
    let image = pixmap(6, 10, WordSize::EIGHT, (0..180).map(|i| (i % 251) as u8).collect());
    for mode in [Mode::ASCII, Mode::BINARY] {
        let bytes = encode(&image, mode).unwrap();
        let decoded = decode(&bytes).unwrap();
        let again = encode(&decoded, mode).unwrap();
        assert_eq!(bytes, again);
    }
}

#[test]
fn comment_inside_header_changes_only_the_offset() {
    let plain = b"P2\n6 1\n255\n0 1 2 3 4 5\n".to_vec();
    let commented = b"P2\n6 #six\n1\n255\n0 1 2 3 4 5\n".to_vec();
    let h1 = get_header(&plain).unwrap();
    let h2 = get_header(&commented).unwrap();
    assert_eq!(h1.width, h2.width);
    assert_eq!(h1.height, h2.height);
    assert_eq!(h1.depth, h2.depth);
    assert_eq!(h1.mode, h2.mode);
    assert_eq!(h2.dat_start, h1.dat_start + 5);
    assert_eq!(decode(&plain).unwrap().data, decode(&commented).unwrap().data);
}

#[test]
fn trailing_token_is_flushed_at_end_of_input() {
    // no delimiter after the last token: it is flushed anyway
    assert_eq!(decode_samples(b"12 34", BitDepth::EIGHT), vec![12, 34]);
    assert_eq!(decode_samples(b"258", BitDepth::SIXTEEN), vec![1, 2]);
    // a delimited run is unchanged by the end-of-input flush
    assert_eq!(decode_samples(b"12 34\n", BitDepth::EIGHT), vec![12, 34]);
}

#[test]
fn every_separator_flushes_the_accumulator() {
    // two separators in a row flush a zero sample between the tokens
    assert_eq!(decode_samples(b"12  34\n", BitDepth::EIGHT), vec![12, 0, 34]);
}

#[test]
fn load_ascii_keeps_only_bit_tokens() {
    assert_eq!(load_ascii(b"1 0\n0 1"), vec![1, 0, 0, 1]);
    assert_eq!(load_ascii(b""), Vec::<u8>::new());
}

#[test]
fn load_binary_drops_row_padding() {
    // one row of width 6 packed into one byte: 000010 plus two padding bits
    assert_eq!(load_binary(&[8], 6), vec![0, 0, 0, 0, 1, 0]);
    // width 16 uses both bytes whole
    assert_eq!(load_binary(&[128, 1], 16), vec![
        1, 0, 0, 0, 0, 0, 0, 0, 0, 0, 0, 0, 0, 0, 0, 1,
    ]);
}

#[test]
fn nonzero_bitmap_samples_are_written_as_one() {
    let image = bitmap(2, 1, vec![0, 7]);
    let bytes = encode(&image, Mode::ASCII).unwrap();
    assert_eq!(&bytes[..], b"P1\n2 1\n0 1\n");
}

#[test]
fn alpha_layouts_are_not_encodable() {
    let image = Image {
        width: 1,
        height: 1,
        image_type: ImageType::RGB_ALPHA,
        depth: 3,
        word_size: WordSize::EIGHT,
        data: vec![0, 0, 0, 0],
    };
    match encode(&image, Mode::BINARY) {
        Ok(_) => assert!(false),
        Err(e) => assert_eq!(e, NetpbmError::UnsupportedNetpbmType),
    }
}

#[test]
fn wrong_format_errors_name_the_expected_format() {
    let pgm_file = b"P2\n1 1\n255\n7\n".to_vec();
    match netbpm::pbm::load(&pgm_file) {
        Ok(_) => assert!(false),
        Err(e) => assert_eq!(e.description(), "Input file is not a pbm file."),
    }
    let pbm_file = b"P1\n1 1\n1\n".to_vec();
    match netbpm::pgm::load(&pbm_file) {
        Ok(_) => assert!(false),
        Err(e) => assert_eq!(e.description(), "Input file is not a pgm file."),
    }
}

#[test]
fn round_trip_empty_image() {
    let image = bitmap(0, 0, vec![]);
    for mode in [Mode::ASCII, Mode::BINARY] {
        let bytes = encode(&image, mode).unwrap();
        assert_same_image(&image, &decode(&bytes).unwrap());
    }
}

#[test]
fn binary_bitmap_bytes_are_exact() {
    // row 000010 packs to 00001000, row 100010 to 10001000,
    // row 011100 to 01110000; two zero rows follow
    let data = vec![
        0, 0, 0, 0, 1, 0,
        1, 0, 0, 0, 1, 0,
        0, 1, 1, 1, 0, 0,
        0, 0, 0, 0, 0, 0,
        0, 0, 0, 0, 0, 0,
    ];
    let image = bitmap(6, 5, data);
    let bytes = encode(&image, Mode::BINARY).unwrap();
    let mut expected = b"P4\n6 5\n".to_vec();
    expected.extend_from_slice(&[8, 136, 112, 0, 0]);
    assert_eq!(bytes, expected);
}

#[test]
fn byte_classes() {
    for b in 0..=255u8 {
        assert_eq!(is_whitespace(b), b == 9 || b == 10 || b == 13 || b == 32);
        assert_eq!(is_number(b), (48..=57).contains(&b));
    }
}

#[test]
fn new_image_is_empty() {
    let image = Image::new();
    assert_eq!(image.width, 0);
    assert_eq!(image.height, 0);
    assert_eq!(image.image_type, ImageType::RGB);
    assert_eq!(image.depth, 0);
    assert_eq!(image.word_size, WordSize::EIGHT);
    assert!(image.data.is_empty());
}
