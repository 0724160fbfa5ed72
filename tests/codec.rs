use backend::block::{decrypt_blocks, encrypt_blocks};
use backend::frame::{defined_output, length_width, read_length};
use backend::letter::{
    bind, compress, decompress, decrypt_message, encrypt_message, frame, unbind, unframe,
    CodecError,
};
use backend::slice::split_into_sections;

const KEY: [u8; 16] = [1u8; 16];

fn sixty_x() -> String {
    "x".repeat(60)
}

#[test]
fn scenario_a_round_trip() {
    let text = encrypt_message(&KEY, "alice", &sixty_x()).unwrap();
    assert_eq!(decrypt_message(&KEY, "alice", &text), Ok(sixty_x()));
}

#[test]
fn scenario_b_empty_message() {
    let text = encrypt_message(&KEY, "alice", "").unwrap();
    assert_eq!(decrypt_message(&KEY, "alice", &text), Ok(String::new()));
}

#[test]
fn scenario_c_deterministic() {
    let a = encrypt_message(&KEY, "alice", &sixty_x()).unwrap();
    let b = encrypt_message(&KEY, "alice", &sixty_x()).unwrap();
    assert_eq!(a, b);
}

#[test]
fn scenario_d_corrupted_tail_fails() {
    let text = encrypt_message(&KEY, "alice", &sixty_x()).unwrap();
    let mut chars: Vec<char> = text.chars().collect();
    chars[20] = if chars[20] == 'A' { 'B' } else { 'A' };
    let corrupted: String = chars.into_iter().collect();
    let r = decrypt_message(&KEY, "alice", &corrupted);
    assert!(r.is_err());
    assert_ne!(r, Ok(sixty_x()));
}

#[test]
fn flipped_bit_in_each_block_is_detected() {
    let message = "a letter that is long enough to span several cipher blocks, for sure";
    let text = encrypt_message(&KEY, "bob", message).unwrap();
    let (_, ciphertext) = unframe(&text).unwrap();
    let mut i = 0;
    while i < ciphertext.len() {
        let mut tampered = ciphertext.clone();
        tampered[i] ^= 0x01;
        let len = read_length(&text).unwrap();
        let reframed = frame(len, &tampered);
        let r = decrypt_message(&KEY, "bob", &reframed);
        assert!(matches!(
            r,
            Err(CodecError::Decompression) | Err(CodecError::AuthorMismatch)
        ));
        i += 16;
    }
}

#[test]
fn round_trip_with_unicode_and_long_message() {
    let author = "zoë";
    let message = "ünïcödé ✉ ".repeat(90);
    let text = encrypt_message(&KEY, author, &message).unwrap();
    assert_eq!(decrypt_message(&KEY, author, &text), Ok(message));
}

#[test]
fn length_prefix_is_twenty_digits_of_compressed_length() {
    let text = encrypt_message(&KEY, "alice", &sixty_x()).unwrap();
    let head = &text[..20];
    assert!(head.chars().all(|c| c.is_ascii_digit()));
    let compressed = compress(&bind("alice", &sixty_x())).unwrap();
    assert_eq!(head.parse::<usize>().unwrap(), compressed.len());
    assert_eq!(length_width(), 20);
}

#[test]
fn ciphertext_is_whole_blocks() {
    for message in ["", "x", "0123456789abcdef", &sixty_x()] {
        let text = encrypt_message(&KEY, "alice", message).unwrap();
        let ciphertext = base64::decode(&text[20..]).unwrap();
        assert!(!ciphertext.is_empty());
        assert_eq!(ciphertext.len() % 16, 0);
    }
}

#[test]
fn wrong_author_is_a_mismatch() {
    let text = encrypt_message(&KEY, "alice", &sixty_x()).unwrap();
    assert_eq!(
        decrypt_message(&KEY, "bob", &text),
        Err(CodecError::AuthorMismatch)
    );
}

#[test]
fn wrong_key_fails() {
    let text = encrypt_message(&KEY, "alice", &sixty_x()).unwrap();
    let other = [2u8; 16];
    let r = decrypt_message(&other, "alice", &text);
    assert!(matches!(
        r,
        Err(CodecError::Decompression) | Err(CodecError::AuthorMismatch)
    ));
}

#[test]
fn short_text_is_invalid() {
    assert_eq!(
        decrypt_message(&KEY, "alice", "0000012"),
        Err(CodecError::InvalidEncoding)
    );
    assert_eq!(
        decrypt_message(&KEY, "alice", ""),
        Err(CodecError::InvalidEncoding)
    );
}

#[test]
fn non_digit_prefix_is_invalid() {
    let text = encrypt_message(&KEY, "alice", &sixty_x()).unwrap();
    let bad = format!("0000000000000000000x{}", &text[20..]);
    assert_eq!(
        decrypt_message(&KEY, "alice", &bad),
        Err(CodecError::InvalidEncoding)
    );
}

#[test]
fn length_over_usize_is_invalid() {
    let bad = format!("99999999999999999999{}", base64::encode([0u8; 16]));
    assert_eq!(
        decrypt_message(&KEY, "alice", &bad),
        Err(CodecError::InvalidEncoding)
    );
}

#[test]
fn bad_base64_is_invalid() {
    assert_eq!(
        decrypt_message(&KEY, "alice", "00000000000000000016not*base64!"),
        Err(CodecError::InvalidEncoding)
    );
}

#[test]
fn length_beyond_body_is_invalid() {
    let bad = format!("00000000000000000017{}", base64::encode([0u8; 16]));
    assert_eq!(
        decrypt_message(&KEY, "alice", &bad),
        Err(CodecError::InvalidEncoding)
    );
}

#[test]
fn garbage_body_fails_to_inflate() {
    let bad = format!("00000000000000000016{}", base64::encode([0u8; 16]));
    let plain = decrypt_blocks(&KEY, &[0u8; 16]);
    let r = decrypt_message(&KEY, "alice", &bad);
    if plain[0] & 0x0f != 8 {
        assert_eq!(r, Err(CodecError::Decompression));
    } else {
        assert!(r.is_err());
    }
}

#[test]
fn defined_output_pads_to_twenty_digits() {
    assert_eq!(defined_output(0), "00000000000000000000");
    assert_eq!(defined_output(42), "00000000000000000042");
    assert_eq!(defined_output(usize::MAX), "18446744073709551615");
}

#[test]
fn read_length_reads_the_field() {
    assert_eq!(read_length("00000000000000000042YWJj"), Some(42));
    assert_eq!(read_length("18446744073709551615"), Some(usize::MAX));
    assert_eq!(read_length("18446744073709551616"), None);
    assert_eq!(read_length("0000000000000000004"), None);
    assert_eq!(read_length("000000000000000000-1"), None);
}

#[test]
fn frame_renders_length_and_base64() {
    assert_eq!(frame(3, b"abc"), "00000000000000000003YWJj");
    assert_eq!(unframe("00000000000000000003YWJj"), Ok((3, b"abc".to_vec())));
}

#[test]
fn aes_known_answer() {
    let key: [u8; 16] = [
        0x00, 0x01, 0x02, 0x03, 0x04, 0x05, 0x06, 0x07, 0x08, 0x09, 0x0a, 0x0b, 0x0c, 0x0d, 0x0e,
        0x0f,
    ];
    let plain: [u8; 16] = [
        0x00, 0x11, 0x22, 0x33, 0x44, 0x55, 0x66, 0x77, 0x88, 0x99, 0xaa, 0xbb, 0xcc, 0xdd, 0xee,
        0xff,
    ];
    let expected: [u8; 16] = [
        0x69, 0xc4, 0xe0, 0xd8, 0x6a, 0x7b, 0x04, 0x30, 0xd8, 0xcd, 0xb7, 0x80, 0x70, 0xb4, 0xc5,
        0x5a,
    ];
    assert_eq!(encrypt_blocks(&key, &plain), expected.to_vec());
    assert_eq!(decrypt_blocks(&key, &expected), plain.to_vec());
}

#[test]
fn cipher_stage_pads_short_input() {
    let c = encrypt_blocks(&KEY, b"abc");
    assert_eq!(c.len(), 16);
    let mut padded = b"abc".to_vec();
    padded.resize(16, 0);
    assert_eq!(decrypt_blocks(&KEY, &c), padded);
    let empty = encrypt_blocks(&KEY, b"");
    assert_eq!(empty, encrypt_blocks(&KEY, &[0u8; 16]));
    assert_eq!(encrypt_blocks(&KEY, &[7u8; 33]).len(), 48);
}

#[test]
fn equal_blocks_give_equal_ciphertext() {
    let c = encrypt_blocks(&KEY, &[9u8; 32]);
    assert_eq!(c[..16], c[16..]);
}

#[test]
fn compress_round_trips_and_changes_bytes() {
    let data = b"aaaaaaaaaaaaaaaaaaaaaaaaaaaaaaaaaaaaaaaaaaaaaaaaaaaaaaaaaaaaaaaa".to_vec();
    let z = compress(&data).unwrap();
    assert_ne!(z, data);
    assert_eq!(z[0], 0x78);
    assert_eq!(decompress(&z), Ok(data));
    assert_eq!(decompress(b"not zlib"), Err(CodecError::Decompression));
}

#[test]
fn bind_concatenates_without_separator() {
    assert_eq!(bind("alice", "hi"), b"alicehi".to_vec());
    assert_eq!(bind("", ""), Vec::<u8>::new());
}

#[test]
fn unbind_strips_the_author() {
    assert_eq!(unbind("alice", b"alicehi"), Ok("hi".to_string()));
    assert_eq!(unbind("alice", b"alic"), Err(CodecError::AuthorMismatch));
    assert_eq!(unbind("alice", b"bobhi"), Err(CodecError::AuthorMismatch));
    assert_eq!(unbind("a", b"a\xff"), Ok("\u{FFFD}".to_string()));
}

#[test]
fn sections_of_uneven_slice() {
    let data = [1, 2, 3, 4, 5];
    let s = split_into_sections(&data, 2);
    assert_eq!(s, vec![&[1, 2][..], &[3, 4][..], &[5][..]]);
}

#[test]
fn sections_of_even_slice() {
    let data = [1, 2, 3, 4];
    let s = split_into_sections(&data, 2);
    assert_eq!(s, vec![&[1, 2][..], &[3, 4][..]]);
}

#[test]
fn sections_of_short_and_empty_slice() {
    let data = [1, 2, 3];
    assert_eq!(split_into_sections(&data, 16), vec![&data[..]]);
    let empty: [u8; 0] = [];
    assert_eq!(split_into_sections(&empty, 16), vec![&empty[..]]);
}
