use arachnida::decimal::{to_decimal, to_zero_padded};
use arachnida::otp::hotp::{
    counter_to_bytes, format_code, generate_hotp, generate_new_key, generate_totp_code,
    time_counter, truncate_tag, validate_encryption_key, validate_hex_key, KeyFormatError,
    MAX_HEX_KEY_LENGTH, MIN_HEX_KEY_LENGTH, TOTP_DIGITS, TOTP_MODULUS, TOTP_PERIOD,
};
use arachnida::otp::key_storage::{hex_digit, KeyError, KeyStorage};

const RFC_SECRET: &[u8] = b"12345678901234567890";

fn hex_of(bytes: &[u8]) -> String {
    bytes.iter().map(|b| format!("{:02x}", b)).collect()
}

#[test]
fn constants_are_the_usual_ones() {
    assert_eq!(TOTP_PERIOD, 30);
    assert_eq!(TOTP_DIGITS, 6);
    assert_eq!(TOTP_MODULUS, 1_000_000);
    assert_eq!(MIN_HEX_KEY_LENGTH, 64);
    assert_eq!(MAX_HEX_KEY_LENGTH, 160);
}

#[test]
fn hex_digits_in_both_cases() {
    assert_eq!(hex_digit('0'), Some(0));
    assert_eq!(hex_digit('9'), Some(9));
    assert_eq!(hex_digit('a'), Some(10));
    assert_eq!(hex_digit('f'), Some(15));
    assert_eq!(hex_digit('A'), Some(10));
    assert_eq!(hex_digit('F'), Some(15));
    assert_eq!(hex_digit('g'), None);
    assert_eq!(hex_digit('G'), None);
    assert_eq!(hex_digit('/'), None);
    assert_eq!(hex_digit(':'), None);
    assert_eq!(hex_digit('@'), None);
    assert_eq!(hex_digit('`'), None);
    assert_eq!(hex_digit(' '), None);
}

#[test]
fn hex_text_becomes_bytes() {
    let storage = KeyStorage::new("k.key", "1234");
    assert_eq!(storage.hex_string_to_bytes(""), Ok(vec![]));
    assert_eq!(storage.hex_string_to_bytes("00"), Ok(vec![0]));
    assert_eq!(storage.hex_string_to_bytes("ff"), Ok(vec![255]));
    assert_eq!(storage.hex_string_to_bytes("DeadBEEF"), Ok(vec![0xde, 0xad, 0xbe, 0xef]));
    assert_eq!(storage.hex_string_to_bytes("0102030a"), Ok(vec![1, 2, 3, 10]));
}

#[test]
fn hex_text_of_odd_length_ends_in_a_single_digit() {
    let storage = KeyStorage::new("k.key", "1234");
    assert_eq!(storage.hex_string_to_bytes("a"), Ok(vec![10]));
    assert_eq!(storage.hex_string_to_bytes("abc"), Ok(vec![0xab, 0x0c]));
}

#[test]
fn hex_pair_may_be_a_plus_and_a_digit() {
    let storage = KeyStorage::new("k.key", "1234");
    assert_eq!(storage.hex_string_to_bytes("+f"), Ok(vec![15]));
    assert_eq!(storage.hex_string_to_bytes("10+a"), Ok(vec![16, 10]));
    assert_eq!(storage.hex_string_to_bytes("+"), Err(KeyError::InvalidData));
    assert_eq!(storage.hex_string_to_bytes("++"), Err(KeyError::InvalidData));
    assert_eq!(storage.hex_string_to_bytes("a+"), Err(KeyError::InvalidData));
    assert_eq!(storage.hex_string_to_bytes("1+2"), Err(KeyError::InvalidData));
}

#[test]
fn hex_text_with_anything_else_fails() {
    let storage = KeyStorage::new("k.key", "1234");
    assert_eq!(storage.hex_string_to_bytes("zz"), Err(KeyError::InvalidData));
    assert_eq!(storage.hex_string_to_bytes("0g"), Err(KeyError::InvalidData));
    assert_eq!(storage.hex_string_to_bytes("-1"), Err(KeyError::InvalidData));
    assert_eq!(storage.hex_string_to_bytes("12 4"), Err(KeyError::InvalidData));
    assert_eq!(storage.hex_string_to_bytes("abcd\n"), Err(KeyError::InvalidData));
    assert_eq!(storage.hex_string_to_bytes("é0"), Err(KeyError::InvalidData));
}

#[test]
fn hex_text_agrees_with_std() {
    for text in ["7f", "+7", "7", "g1", "+", "0x", "Ab", " 1", "١٢"] {
        let expected = u8::from_str_radix(text, 16).ok().map(|b| vec![b]);
        let storage = KeyStorage::new("k.key", "1234");
        assert_eq!(storage.hex_string_to_bytes(text).ok(), expected, "{text}");
    }
}

#[test]
fn xor_repeats_the_passphrase() {
    let storage = KeyStorage::new("k.key", "1234");
    let data = [0u8, 0, 0, 0, 0, 0xff, 0x31];
    assert_eq!(
        storage.xor_encrypt_decrypt(&data),
        vec![0x31, 0x32, 0x33, 0x34, 0x31, 0xff ^ 0x32, 0x31 ^ 0x33]
    );
    assert_eq!(storage.xor_encrypt_decrypt(&[]), Vec::<u8>::new());
}

#[test]
fn xor_twice_gives_the_data_back() {
    let storage = KeyStorage::new("k.key", "9075");
    let data: Vec<u8> = (0..=255).collect();
    let once = storage.xor_encrypt_decrypt(&data);
    assert_ne!(once, data);
    assert_eq!(storage.xor_encrypt_decrypt(&once), data);
}

#[test]
fn xor_with_an_empty_passphrase_gives_nothing() {
    let storage = KeyStorage::new("k.key", "");
    assert_eq!(storage.xor_encrypt_decrypt(&[1, 2, 3]), Vec::<u8>::new());
}

#[test]
fn storage_keeps_its_path() {
    let storage = KeyStorage::new("secrets/ft_otp.key", "1234");
    assert_eq!(storage.file_path(), "secrets/ft_otp.key");
}

#[test]
fn stored_key_reads_back() {
    let storage = KeyStorage::new("k.key", "4821");
    let hex = hex_of(RFC_SECRET);
    let written = storage.store_key(&hex).unwrap();
    assert_eq!(written.len(), RFC_SECRET.len());
    assert_ne!(written, RFC_SECRET);
    assert_eq!(storage.read_key(&written), RFC_SECRET);
    assert_eq!(storage.store_key("not hex"), Err(KeyError::InvalidData));
}

#[test]
fn counter_bytes_are_big_endian() {
    assert_eq!(counter_to_bytes(0), vec![0; 8]);
    assert_eq!(counter_to_bytes(1), vec![0, 0, 0, 0, 0, 0, 0, 1]);
    assert_eq!(counter_to_bytes(0x0102030405060708), vec![1, 2, 3, 4, 5, 6, 7, 8]);
    assert_eq!(counter_to_bytes(u64::MAX), vec![255; 8]);
    assert_eq!(counter_to_bytes(37037036), 37037036u64.to_be_bytes().to_vec());
}

#[test]
fn truncation_follows_the_worked_example() {
    let tag: [u8; 20] = [
        0x1f, 0x86, 0x98, 0x69, 0x0e, 0x02, 0xca, 0x16, 0x61, 0x85, 0x50, 0xef, 0x7f, 0x19, 0xda,
        0x8e, 0x94, 0x5b, 0x55, 0x5a,
    ];
    assert_eq!(truncate_tag(&tag), 0x50ef7f19);
    assert_eq!(format_code(0x50ef7f19, 1_000_000), "872921");
}

#[test]
fn truncation_drops_the_top_bit() {
    let mut tag = [0u8; 20];
    tag[19] = 0xf0;
    tag[0] = 0xff;
    tag[1] = 0xff;
    tag[2] = 0xff;
    tag[3] = 0xff;
    assert_eq!(truncate_tag(&tag), 0x7fff_ffff);
    tag[19] = 0x0f;
    tag[15] = 0x81;
    tag[16] = 0x02;
    tag[17] = 0x03;
    tag[18] = 0x04;
    assert_eq!(truncate_tag(&tag), 0x0102_0304);
}

#[test]
fn decimal_writing() {
    assert_eq!(to_decimal(0), "0");
    assert_eq!(to_decimal(7), "7");
    assert_eq!(to_decimal(10), "10");
    assert_eq!(to_decimal(1234567890), "1234567890");
    assert_eq!(to_decimal(u64::MAX), "18446744073709551615");
    assert_eq!(to_zero_padded(0, 6), "000000");
    assert_eq!(to_zero_padded(42, 6), "000042");
    assert_eq!(to_zero_padded(123456, 6), "123456");
    assert_eq!(to_zero_padded(1234567, 6), "1234567");
    assert_eq!(to_zero_padded(5, 0), "5");
    assert_eq!(to_zero_padded(5, 1), "5");
}

#[test]
fn code_ignores_the_sign_of_the_modulus() {
    assert_eq!(format_code(1_234_567, 1_000_000), "234567");
    assert_eq!(format_code(1_234_567, -1_000_000), "234567");
    assert_eq!(format_code(1_234_567, 1), "000000");
    assert_eq!(format_code(1_234_567, -1), "000000");
    assert_eq!(format_code(0x7fff_ffff, i32::MIN), "2147483647");
    assert_eq!(format_code(0x7fff_ffff, i32::MAX), "000000");
    assert_eq!(format_code(1_234_567, 100_000_000), "1234567");
}

#[test]
fn hotp_matches_the_published_values() {
    let expected = [
        "755224", "287082", "359152", "969429", "338314", "254676", "287922", "162583", "399871",
        "520489",
    ];
    for (counter, code) in expected.iter().enumerate() {
        assert_eq!(generate_hotp(RFC_SECRET.to_vec(), counter as u64, TOTP_MODULUS), *code);
    }
}

#[test]
fn hotp_depends_on_key_and_counter() {
    let a = generate_hotp(RFC_SECRET.to_vec(), 0, TOTP_MODULUS);
    let b = generate_hotp(b"12345678901234567891".to_vec(), 0, TOTP_MODULUS);
    assert_ne!(a, b);
    assert_eq!(generate_hotp(Vec::new(), 0, TOTP_MODULUS).len(), 6);
    assert_eq!(generate_hotp(vec![7u8; 200], 5, TOTP_MODULUS).len(), 6);
}

#[test]
fn time_counter_steps_every_thirty_seconds() {
    assert_eq!(time_counter(0), 0);
    assert_eq!(time_counter(29), 0);
    assert_eq!(time_counter(30), 1);
    assert_eq!(time_counter(59), 1);
    assert_eq!(time_counter(1111111109), 37037036);
    assert_eq!(time_counter(u64::MAX), u64::MAX / 30);
}

#[test]
fn totp_matches_the_published_values() {
    let storage = KeyStorage::new("k.key", "1234");
    let file = storage.store_key(&hex_of(RFC_SECRET)).unwrap();
    assert_eq!(generate_totp_code(&storage, &file, 59), "287082");
    assert_eq!(generate_totp_code(&storage, &file, 1111111109), "081804");
    assert_eq!(generate_totp_code(&storage, &file, 1111111111), "050471");
    assert_eq!(generate_totp_code(&storage, &file, 1234567890), "005924");
    assert_eq!(generate_totp_code(&storage, &file, 2000000000), "279037");
    assert_eq!(generate_totp_code(&storage, &file, 20000000000), "353130");
}

#[test]
fn totp_under_the_wrong_passphrase_differs() {
    let storage = KeyStorage::new("k.key", "1234");
    let file = storage.store_key(&hex_of(RFC_SECRET)).unwrap();
    let other = KeyStorage::new("k.key", "4321");
    assert_ne!(generate_totp_code(&other, &file, 59), "287082");
    assert_eq!(generate_totp_code(&storage, &file, 59), "287082");
}

#[test]
fn hex_key_length_is_tested_first() {
    assert_eq!(validate_hex_key(""), Err(KeyFormatError::Length));
    assert_eq!(validate_hex_key(&"a".repeat(63)), Err(KeyFormatError::Length));
    assert_eq!(validate_hex_key(&"z".repeat(63)), Err(KeyFormatError::Length));
    assert_eq!(validate_hex_key(&"a".repeat(161)), Err(KeyFormatError::Length));
    assert_eq!(validate_hex_key(&"a".repeat(64)), Ok(()));
    assert_eq!(validate_hex_key(&"F".repeat(160)), Ok(()));
    assert_eq!(validate_hex_key(&"0123456789abcdefABCDEF".repeat(3)), Ok(()));
}

#[test]
fn hex_key_must_be_all_digits() {
    assert_eq!(validate_hex_key(&"g".repeat(64)), Err(KeyFormatError::NotHex));
    let mut with_newline = "a".repeat(64);
    with_newline.push('\n');
    assert_eq!(validate_hex_key(&with_newline), Err(KeyFormatError::NotHex));
    let mut with_plus = "+".to_string();
    with_plus.push_str(&"a".repeat(63));
    assert_eq!(validate_hex_key(&with_plus), Err(KeyFormatError::NotHex));
}

#[test]
fn hex_key_length_is_counted_in_bytes() {
    let mut short_in_chars = "a".repeat(62);
    short_in_chars.push('é');
    assert_eq!(short_in_chars.chars().count(), 63);
    assert_eq!(validate_hex_key(&short_in_chars), Err(KeyFormatError::NotHex));
    let long_in_bytes = "é".repeat(81);
    assert_eq!(validate_hex_key(&long_in_bytes), Err(KeyFormatError::Length));
}

#[test]
fn key_format_messages() {
    assert_eq!(
        KeyFormatError::Length.message(),
        "Key length must be between 64 and 160 characters"
    );
    assert_eq!(KeyFormatError::NotHex.message(), "Key must contain only hexadecimal digits");
}

#[test]
fn passphrase_is_four_digits() {
    assert_eq!(validate_encryption_key("1234"), Ok("1234".to_string()));
    assert_eq!(validate_encryption_key("0000"), Ok("0000".to_string()));
    let refusal = Err("Encryption key must be exactly 4 digits".to_string());
    assert_eq!(validate_encryption_key(""), refusal);
    assert_eq!(validate_encryption_key("123"), refusal);
    assert_eq!(validate_encryption_key("12345"), refusal);
    assert_eq!(validate_encryption_key("12a4"), refusal);
    assert_eq!(validate_encryption_key("12 4"), refusal);
    assert_eq!(validate_encryption_key("+123"), refusal);
    assert_eq!(validate_encryption_key("１２３４"), refusal);
    assert_eq!(validate_encryption_key("١٢٣٤"), refusal);
    assert_eq!(validate_encryption_key("12é"), refusal);
}

#[test]
fn new_key_is_tested_then_encrypted() {
    let hex = "3132333435363738393031323334353637383930".repeat(2);
    let storage = KeyStorage::new("out.key", "1234");
    let file = generate_new_key(&storage, &hex).unwrap();
    assert_eq!(file.len(), 40);
    assert_eq!(file[0], 0x31 ^ b'1');
    assert_eq!(file[1], 0x32 ^ b'2');
    assert_eq!(storage.read_key(&file), storage.hex_string_to_bytes(&hex).unwrap());
    assert_eq!(generate_new_key(&storage, "abcd"), Err(KeyFormatError::Length));
    assert_eq!(generate_new_key(&storage, &"x".repeat(64)), Err(KeyFormatError::NotHex));
}
