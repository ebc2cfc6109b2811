use netbpm::BitDepth;
use netbpm::pgm::{load, save_ascii, save_binary};

// 6 10
const J: [u8; 60] = [
    255, 255, 255, 255, 0, 255,
    255, 255, 255, 255, 0, 255,
    255, 255, 255, 255, 0, 255,
    255, 255, 255, 255, 0, 255,
    255, 255, 255, 255, 0, 255,
    255, 255, 255, 255, 0, 255,
    0, 255, 255, 255, 0, 255,
    255, 0, 0, 0, 255, 255,
    255, 255, 255, 255, 255, 255,
    255, 255, 255, 255, 255, 255,
];

// 6 10
const J_DOUBLE: [u8; 120] = [
    255, 255, 255, 255, 255, 255, 255, 255, 0, 0, 255, 255,
    255, 255, 255, 255, 255, 255, 255, 255, 0, 0, 255, 255,
    255, 255, 255, 255, 255, 255, 255, 255, 0, 0, 255, 255,
    255, 255, 255, 255, 255, 255, 255, 255, 0, 0, 255, 255,
    255, 255, 255, 255, 255, 255, 255, 255, 0, 0, 255, 255,
    255, 255, 255, 255, 255, 255, 255, 255, 0, 0, 255, 255,
    0, 0, 255, 255, 255, 255, 255, 255, 0, 0, 255, 255,
    255, 255, 0, 0, 0, 0, 0, 0, 255, 255, 255, 255,
    255, 255, 255, 255, 255, 255, 255, 255, 255, 255, 255, 255,
    255, 255, 255, 255, 255, 255, 255, 255, 255, 255, 255, 255,
];

#[test]
fn pgm_j_single_ascii() {
    let enc_result = save_ascii(&J, 6, 10, BitDepth::EIGHT);
    match enc_result {
        Ok(_) => assert!(true),
        Err(_) => assert!(false),
    }
}

#[test]
fn pgm_j_single_binary() {
    let bytes = save_binary(&J, 6, 10, BitDepth::EIGHT);
    assert!(bytes.len() > 60);
}

#[test]
fn pgm_j_double_ascii() {
    let enc_result = save_ascii(&J_DOUBLE, 6, 10, BitDepth::SIXTEEN);
    match enc_result {
        Ok(_) => assert!(true),
        Err(_) => assert!(false),
    }
}

#[test]
fn pgm_j_double_binary() {
    let bytes = save_binary(&J_DOUBLE, 6, 10, BitDepth::SIXTEEN);
    assert!(bytes.len() > 120);
}

#[test]
fn pgm_j_single_ascii_round_trip() {
    let bytes = save_ascii(&J, 6, 10, BitDepth::EIGHT).unwrap();
    let image = load(&bytes).unwrap();
    assert_eq!(6, image.width);
    assert_eq!(10, image.height);
    assert_eq!(netbpm::WordSize::EIGHT, image.word_size);
    assert_eq!(&J[..], &image.data[..]);
}

#[test]
fn pgm_j_single_binary_round_trip() {
    let bytes = save_binary(&J, 6, 10, BitDepth::EIGHT);
    let image = load(&bytes).unwrap();
    assert_eq!(6, image.width);
    assert_eq!(10, image.height);
    assert_eq!(netbpm::WordSize::EIGHT, image.word_size);
    assert_eq!(&J[..], &image.data[..]);
}

#[test]
fn pgm_j_double_ascii_round_trip() {
    let bytes = save_ascii(&J_DOUBLE, 6, 10, BitDepth::SIXTEEN).unwrap();
    let image = load(&bytes).unwrap();
    assert_eq!(6, image.width);
    assert_eq!(10, image.height);
    assert_eq!(netbpm::WordSize::SIXTEEN, image.word_size);
    assert_eq!(&J_DOUBLE[..], &image.data[..]);
}

#[test]
fn pgm_j_double_binary_round_trip() {
    let bytes = save_binary(&J_DOUBLE, 6, 10, BitDepth::SIXTEEN);
    let image = load(&bytes).unwrap();
    assert_eq!(6, image.width);
    assert_eq!(10, image.height);
    assert_eq!(netbpm::WordSize::SIXTEEN, image.word_size);
    assert_eq!(&J_DOUBLE[..], &image.data[..]);
}

#[test]
fn pgm_ascii_encoding_is_exact() {
    // 2 by 2 eight-bit samples: tokens, single spaces, one newline per row.
    let dat: [u8; 4] = [0, 255, 12, 3];
    let bytes = save_ascii(&dat, 2, 2, BitDepth::EIGHT).unwrap();
    assert_eq!(&bytes[..], b"P2\n2 2\n255\n0 255\n12 3\n");
}

#[test]
fn pgm_sixteen_bit_samples_are_big_endian() {
    // one sample, high byte 1 and low byte 2: the token is 258.
    let dat: [u8; 2] = [1, 2];
    let bytes = save_ascii(&dat, 1, 1, BitDepth::SIXTEEN).unwrap();
    assert_eq!(&bytes[..], b"P2\n1 1\n65535\n258\n");
    let image = load(&bytes).unwrap();
    assert_eq!(&image.data[..], &[1, 2]);
}
