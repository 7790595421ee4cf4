use math_lib::cryptography::classical::shift_cipher::{
    shift_decipher, shift_encipher, ShiftCipher,
};
use math_lib::general::errors::ClassicalCryptographyErr;

#[test]
fn shift_encipher_moves_each_byte_up() {
    for (key, expected) in [(0u8, "abcdef"), (1, "bcdefg"), (2, "cdefgh"), (252, "]^_`ab")] {
        assert_eq!(shift_encipher(&b"abcdef".to_vec(), key), expected.as_bytes().to_vec());
        assert_eq!("abcdef".to_string().encipher(key).unwrap(), expected);
    }
    assert_eq!(shift_encipher(&vec![0, 127, 128, 255], 1), vec![1, 128, 129, 0]);
    assert_eq!(shift_encipher(&Vec::new(), 9), Vec::<u8>::new());
}

#[test]
fn shift_decipher_moves_each_byte_down() {
    for (key, cipher) in [(0u8, "abcdef"), (1, "bcdefg"), (2, "cdefgh"), (252, "]^_`ab")] {
        assert_eq!(shift_decipher(&cipher.as_bytes().to_vec(), key), b"abcdef".to_vec());
        assert_eq!(cipher.to_string().decipher(key).unwrap(), "abcdef");
    }
    assert_eq!(shift_decipher(&vec![1, 128, 129, 0], 1), vec![0, 127, 128, 255]);
}

#[test]
fn shift_round_trip_for_every_key() {
    let bytes: Vec<u8> = (0..=255).collect();
    for key in 0..=255u8 {
        assert_eq!(shift_decipher(&shift_encipher(&bytes, key), key), bytes);
        assert_eq!(shift_encipher(&shift_decipher(&bytes, key), key), bytes);
    }
}

#[test]
fn a_text_whose_moved_bytes_are_no_text_is_an_error() {
    // 'a' is 97; moved up by 100 it is 197, the start of a sequence that never ends
    assert!(matches!(
        "a".to_string().encipher(100),
        Err(ClassicalCryptographyErr::FromUtf8Err(_))
    ));
    assert!(matches!(
        "a".to_string().decipher(156),
        Err(ClassicalCryptographyErr::FromUtf8Err(_))
    ));
    let cipher = "héllo wörld".to_string().encipher(0).unwrap();
    assert_eq!(cipher, "héllo wörld");
    let cipher = "hello world".to_string().encipher(5).unwrap();
    assert_eq!(cipher, "mjqqt%|twqi");
    assert_eq!(cipher.decipher(5).unwrap(), "hello world");
}
