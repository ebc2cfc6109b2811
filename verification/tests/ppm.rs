use netbpm::BitDepth;
use netbpm::NetpbmError;
use netbpm::ppm::{load, save_ascii, save_binary};

const J: [u8; 180] = [
    255, 255, 255, 255, 255, 255, 255, 255, 255, 255, 255, 255, 0, 0, 0, 255, 255, 255,
    255, 255, 255, 255, 255, 255, 255, 255, 255, 255, 255, 255, 0, 0, 0, 255, 255, 255,
    255, 255, 255, 255, 255, 255, 255, 255, 255, 255, 255, 255, 0, 0, 0, 255, 255, 255,
    255, 255, 255, 255, 255, 255, 255, 255, 255, 255, 255, 255, 0, 0, 0, 255, 255, 255,
    255, 255, 255, 255, 255, 255, 255, 255, 255, 255, 255, 255, 0, 0, 0, 255, 255, 255,
    255, 255, 255, 255, 255, 255, 255, 255, 255, 255, 255, 255, 0, 0, 0, 255, 255, 255,
    0, 0, 0, 255, 255, 255, 255, 255, 255, 255, 255, 255, 0, 0, 0, 255, 255, 255,
    255, 255, 255, 0, 0, 0, 0, 0, 0, 0, 0, 0, 255, 255, 255, 255, 255, 255,
    255, 255, 255, 255, 255, 255, 255, 255, 255, 255, 255, 255, 255, 255, 255, 255, 255, 255,
    255, 255, 255, 255, 255, 255, 255, 255, 255, 255, 255, 255, 255, 255, 255, 255, 255, 255,
];

const J_DOUBLE: [u8; 360] = [
    255, 255, 255, 255, 255, 255, 255, 255, 255, 255, 255, 255, 255, 255, 255, 255, 255, 255,
    255, 255, 255, 255, 255, 255, 0, 0, 0, 0, 0, 0, 255, 255, 255, 255, 255, 255,
    255, 255, 255, 255, 255, 255, 255, 255, 255, 255, 255, 255, 255, 255, 255, 255, 255, 255,
    255, 255, 255, 255, 255, 255, 0, 0, 0, 0, 0, 0, 255, 255, 255, 255, 255, 255,
    255, 255, 255, 255, 255, 255, 255, 255, 255, 255, 255, 255, 255, 255, 255, 255, 255, 255,
    255, 255, 255, 255, 255, 255, 0, 0, 0, 0, 0, 0, 255, 255, 255, 255, 255, 255,
    255, 255, 255, 255, 255, 255, 255, 255, 255, 255, 255, 255, 255, 255, 255, 255, 255, 255,
    255, 255, 255, 255, 255, 255, 0, 0, 0, 0, 0, 0, 255, 255, 255, 255, 255, 255,
    255, 255, 255, 255, 255, 255, 255, 255, 255, 255, 255, 255, 255, 255, 255, 255, 255, 255,
    255, 255, 255, 255, 255, 255, 0, 0, 0, 0, 0, 0, 255, 255, 255, 255, 255, 255,
    255, 255, 255, 255, 255, 255, 255, 255, 255, 255, 255, 255, 255, 255, 255, 255, 255, 255,
    255, 255, 255, 255, 255, 255, 0, 0, 0, 0, 0, 0, 255, 255, 255, 255, 255, 255,
    0, 0, 0, 0, 0, 0, 255, 255, 255, 255, 255, 255, 255, 255, 255, 255, 255, 255,
    255, 255, 255, 255, 255, 255, 0, 0, 0, 0, 0, 0, 255, 255, 255, 255, 255, 255,
    255, 255, 255, 255, 255, 255, 0, 0, 0, 0, 0, 0, 0, 0, 0, 0, 0, 0,
    0, 0, 0, 0, 0, 0, 255, 255, 255, 255, 255, 255, 255, 255, 255, 255, 255, 255,
    255, 255, 255, 255, 255, 255, 255, 255, 255, 255, 255, 255, 255, 255, 255, 255, 255, 255,
    255, 255, 255, 255, 255, 255, 255, 255, 255, 255, 255, 255, 255, 255, 255, 255, 255, 255,
    255, 255, 255, 255, 255, 255, 255, 255, 255, 255, 255, 255, 255, 255, 255, 255, 255, 255,
    255, 255, 255, 255, 255, 255, 255, 255, 255, 255, 255, 255, 255, 255, 255, 255, 255, 255,
];

fn test_arrs(size: u32, a: &[u8], b: &[u8]) -> bool {
    let mut ret = true;
    for i in 0..size {
        ret = ret && (a[i as usize] == b[i as usize]);
    }
    ret
}

#[test]
fn ppm_j_single_ascii() {
    let enc_result = save_ascii(&J, 6, 10, BitDepth::EIGHT);
    let bytes = match enc_result {
        Ok(v) => v,
        Err(_) => {
            assert!(false);
            return;
        }
    };
    let image = load(&bytes).unwrap();
    assert_eq!(6, image.width);
    assert_eq!(10, image.height);
    assert_eq!(netbpm::WordSize::EIGHT, image.word_size);
    assert!(test_arrs(180, &image.data, &J));
}

#[test]
fn ppm_j_single_binary() {
    let bytes = save_binary(&J, 6, 10, BitDepth::EIGHT);
    let image = load(&bytes).unwrap();
    assert_eq!(6, image.width);
    assert_eq!(10, image.height);
    assert_eq!(netbpm::WordSize::EIGHT, image.word_size);
    assert!(test_arrs(180, &image.data, &J));
}

#[test]
fn ppm_j_double_ascii_error() {
    let enc_result = save_ascii(&J_DOUBLE, 6, 10, BitDepth::SIXTEEN);
    match enc_result {
        Ok(_) => assert!(false),
        Err(e) => assert_eq!(e, NetpbmError::LineTooWide),
    }
}

#[test]
fn ppm_j_double_binary() {
    let bytes = save_binary(&J_DOUBLE, 6, 10, BitDepth::SIXTEEN);
    let image = load(&bytes).unwrap();
    assert_eq!(6, image.width);
    assert_eq!(10, image.height);
    assert_eq!(netbpm::WordSize::SIXTEEN, image.word_size);
    assert!(test_arrs(360, &image.data, &J_DOUBLE));
}

#[test]
fn ppm_wrong_filetype_error() {
    let file: &[u8] = b"P2\n2 2\n255\n0 255\n255 0";
    let dec_result = load(&file.to_vec());
    match dec_result {
        Ok(_) => assert!(false),
        Err(e) => assert_eq!(e.description(), "Input file is not a ppm file."),
    }
}

#[test]
fn ppm_double_ascii_round_trip() {
    // a 2 by 2 sixteen-bit pixmap is narrow enough for ascii lines
    let dat: [u8; 24] = [
        1, 2, 0, 0, 255, 255, 0, 1, 1, 0, 2, 2,
        9, 9, 3, 4, 0, 255, 255, 0, 7, 7, 1, 1,
    ];
    let bytes = save_ascii(&dat, 2, 2, BitDepth::SIXTEEN).unwrap();
    let image = load(&bytes).unwrap();
    assert_eq!(2, image.width);
    assert_eq!(2, image.height);
    assert_eq!(netbpm::WordSize::SIXTEEN, image.word_size);
    assert_eq!(&dat[..], &image.data[..]);
}
