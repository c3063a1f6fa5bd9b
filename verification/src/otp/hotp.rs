//! Counter-based and time-based one-time passwords.

use hmac::Mac;
use vstd::prelude::*;
use vstd::string::*;
use crate::otp::key_storage::{
    hex_bytes, hex_chunk, hex_chunk_count, hex_chunk_value, hex_digit, hex_digit_value,
    xor_with_key, KeyStorage,
};
use crate::decimal::{lemma_decimal_length, power_of_ten, to_zero_padded, zero_padded};
use crate::text::to_chars;

verus! {

/// Seconds that one time-based code stays valid.
pub const TOTP_PERIOD: u64 = 30;

/// Digits of a code.
pub const TOTP_DIGITS: usize = 6;

/// Ten to the power of [`TOTP_DIGITS`].
pub const TOTP_MODULUS: i32 = 1000000;

/// Fewest bytes of a hexadecimal key.
pub const MIN_HEX_KEY_LENGTH: usize = 64;

/// Most bytes of a hexadecimal key.
pub const MAX_HEX_KEY_LENGTH: usize = 160;

/// Why a hexadecimal key is refused.
#[derive(Clone, Copy, Debug, PartialEq, Eq)]
pub enum KeyFormatError {
    /// It is shorter than 64 or longer than 160 bytes.
    Length,
    /// It holds something that is no hexadecimal digit.
    NotHex,
}

impl KeyFormatError {
    /// What to tell the user.
    pub fn message(&self) -> (m: String)
        ensures
            m@ == match self {
                KeyFormatError::Length => "Key length must be between 64 and 160 characters"@,
                KeyFormatError::NotHex => "Key must contain only hexadecimal digits"@,
            },
    {
        match self {
            KeyFormatError::Length => String::from_str(
                "Key length must be between 64 and 160 characters",
            ),
            KeyFormatError::NotHex => String::from_str("Key must contain only hexadecimal digits"),
        }
    }
}

/// The HMAC-SHA1 tag of `message` under `key`, as the `hmac` and `sha1`
/// crates compute it.
pub uninterp spec fn hmac_sha1(key: Seq<u8>, message: Seq<u8>) -> Seq<u8>;

/// Computes HMAC-SHA1 with `hmac::Hmac<sha1::Sha1>`: `new_from_slice` on
/// `key`, `update` with `message`, `finalize` and `into_bytes`. Trusted: the
/// tag depends on the two byte strings alone. Its 20 bytes are the output
/// size of SHA-1, and `new_from_slice` takes a key of any length.
#[verifier::external_body]
pub(crate) fn hmac_sha1_tag(key: &[u8], message: &[u8]) -> (tag: [u8; 20])
    ensures
        tag@ == hmac_sha1(key@, message@),
{
    let mut mac = hmac::Hmac::<sha1::Sha1>::new_from_slice(key).expect(
        "HMAC can take key of any size",
    );
    mac.update(message);
    mac.finalize().into_bytes().into()
}

/// The eight bytes of `counter`, most significant first.
pub open spec fn counter_bytes(counter: u64) -> Seq<u8> {
    seq![
        ((counter / 0x100_0000_0000_0000) % 256) as u8,
        ((counter / 0x1_0000_0000_0000) % 256) as u8,
        ((counter / 0x100_0000_0000) % 256) as u8,
        ((counter / 0x1_0000_0000) % 256) as u8,
        ((counter / 0x100_0000) % 256) as u8,
        ((counter / 0x1_0000) % 256) as u8,
        ((counter / 0x100) % 256) as u8,
        (counter % 256) as u8,
    ]
}

/// The 31-bit number cut out of a 20-byte tag: the low four bits of the last
/// byte say where four bytes are read, most significant first, and the top
/// bit of the first of them is dropped.
pub open spec fn dynamic_truncation(tag: Seq<u8>) -> int {
    let offset = (tag[19] & 0x0f) as int;
    (tag[offset] & 0x7f) as int * 0x100_0000 + tag[offset + 1] as int * 0x1_0000 + tag[offset
        + 2] as int * 0x100 + tag[offset + 3] as int
}

/// The size of `modulus`, whatever its sign.
pub open spec fn magnitude(modulus: i32) -> int {
    if modulus < 0 {
        -(modulus as int)
    } else {
        modulus as int
    }
}

/// The number behind the code for `counter` under `secret_key`.
pub open spec fn hotp_value(secret_key: Seq<u8>, counter: u64, modulus: i32) -> int {
    dynamic_truncation(hmac_sha1(secret_key, counter_bytes(counter))) % magnitude(modulus)
}

/// Whether `key` is accepted as a hexadecimal key: 64 to 160 bytes, all of
/// them hexadecimal digits.
pub open spec fn hex_key_valid(key: &str) -> bool {
    &&& MIN_HEX_KEY_LENGTH <= key.spec_bytes().len() <= MAX_HEX_KEY_LENGTH
    &&& forall|i: int| 0 <= i < key@.len() ==> hex_digit_value(#[trigger] key@[i]) is Some
}

/// Whether `input` is accepted as a passphrase: exactly four decimal digits.
pub open spec fn encryption_key_valid(input: Seq<char>) -> bool {
    &&& input.len() == 4
    &&& forall|i: int| 0 <= i < input.len() ==> '0' <= #[trigger] input[i] <= '9'
}

/// The eight bytes of `counter`, most significant first.
pub fn counter_to_bytes(counter: u64) -> (bytes: Vec<u8>)
    ensures
        bytes@ == counter_bytes(counter),
{
    let mut bytes: Vec<u8> = Vec::new();
    bytes.push(((counter / 0x100_0000_0000_0000) % 256) as u8);
    bytes.push(((counter / 0x1_0000_0000_0000) % 256) as u8);
    bytes.push(((counter / 0x100_0000_0000) % 256) as u8);
    bytes.push(((counter / 0x1_0000_0000) % 256) as u8);
    bytes.push(((counter / 0x100_0000) % 256) as u8);
    bytes.push(((counter / 0x1_0000) % 256) as u8);
    bytes.push(((counter / 0x100) % 256) as u8);
    bytes.push((counter % 256) as u8);
    assert(bytes@ =~= counter_bytes(counter));
    bytes
}

/// Cuts the 31-bit number out of a 20-byte tag.
pub fn truncate_tag(tag: &[u8; 20]) -> (value: u32)
    ensures
        value == dynamic_truncation(tag@),
        value < 0x8000_0000,
{
    let last: u8 = tag[19];
    let offset: usize = (last & 0x0f) as usize;
    assert(last & 0x0f < 16) by (bit_vector);
    let first: u8 = tag[offset];
    let high: u32 = (first & 0x7f) as u32;
    assert(first & 0x7f < 128) by (bit_vector);
    high * 0x100_0000 + (tag[offset + 1] as u32) * 0x1_0000 + (tag[offset + 2] as u32) * 0x100
        + (tag[offset + 3] as u32)
}

/// The code for a truncated tag: `value` reduced by `modulus`, whose sign
/// does not count, written in decimal with zeros in front up to
/// [`TOTP_DIGITS`] digits.
pub fn format_code(value: u32, modulus: i32) -> (code: String)
    requires
        modulus != 0,
    ensures
        code@ == zero_padded((value as int % magnitude(modulus)) as nat, TOTP_DIGITS as nat),
{
    let size: u32 = if modulus < 0 {
        if modulus == i32::MIN {
            0x8000_0000
        } else {
            (-modulus) as u32
        }
    } else {
        modulus as u32
    };
    to_zero_padded((value % size) as u64, TOTP_DIGITS)
}

/// The one-time password for `counter` under `secret_key`: the HMAC-SHA1 tag
/// of the counter's eight bytes, truncated, reduced by `modulus` and written
/// with [`TOTP_DIGITS`] digits.
pub fn generate_hotp(secret_key: Vec<u8>, counter: u64, modulus: i32) -> (code: String)
    requires
        modulus != 0,
    ensures
        code@ == zero_padded(hotp_value(secret_key@, counter, modulus) as nat, TOTP_DIGITS as nat),
{
    let message = counter_to_bytes(counter);
    let tag = hmac_sha1_tag(secret_key.as_slice(), message.as_slice());
    format_code(truncate_tag(&tag), modulus)
}

/// The counter of the time step that holds the second `unix_seconds`.
pub fn time_counter(unix_seconds: u64) -> (counter: u64)
    ensures
        counter == unix_seconds / TOTP_PERIOD,
{
    unix_seconds / TOTP_PERIOD
}

/// Tests a hexadecimal key before it is stored: first its length, then its
/// characters.
pub fn validate_hex_key(key: &str) -> (r: Result<(), KeyFormatError>)
    ensures
        r is Ok <==> hex_key_valid(key),
        r == Err::<(), KeyFormatError>(KeyFormatError::Length) <==> !(MIN_HEX_KEY_LENGTH
            <= key.spec_bytes().len() <= MAX_HEX_KEY_LENGTH),
{
    let length: usize = key.as_bytes().len();
    if length < MIN_HEX_KEY_LENGTH || length > MAX_HEX_KEY_LENGTH {
        return Err(KeyFormatError::Length);
    }
    let chars = to_chars(key);
    let n: usize = chars.len();
    let mut i: usize = 0;
    while i < n
        invariant
            n == chars.len(),
            chars@ == key@,
            MIN_HEX_KEY_LENGTH <= key.spec_bytes().len() <= MAX_HEX_KEY_LENGTH,
            i <= n,
            forall|j: int| 0 <= j < i ==> hex_digit_value(#[trigger] key@[j]) is Some,
        decreases n - i,
    {
        if hex_digit(chars[i]).is_none() {
            return Err(KeyFormatError::NotHex);
        }
        i += 1;
    }
    Ok(())
}

/// Tests a passphrase: it is handed back where it is exactly four decimal
/// digits, and refused with a message where it is not.
pub fn validate_encryption_key(input: &str) -> (r: Result<String, String>)
    ensures
        match r {
            Ok(key) => encryption_key_valid(input@) && key@ == input@,
            Err(message) => !encryption_key_valid(input@) && message@
                == "Encryption key must be exactly 4 digits"@,
        },
{
    let chars = to_chars(input);
    let mut valid: bool = chars.len() == 4;
    let mut i: usize = 0;
    while valid && i < chars.len()
        invariant
            chars@ == input@,
            i <= chars.len(),
            valid ==> chars.len() == 4,
            valid ==> forall|j: int| 0 <= j < i ==> '0' <= #[trigger] input@[j] <= '9',
            !valid ==> !encryption_key_valid(input@),
        decreases chars.len() - i + if valid { 1int } else { 0int },
    {
        if !('0' <= chars[i] && chars[i] <= '9') {
            valid = false;
        } else {
            i += 1;
        }
    }
    if valid {
        Ok(String::from_str(input))
    } else {
        Err(String::from_str("Encryption key must be exactly 4 digits"))
    }
}

/// The bytes to write to the key file of `storage` for the hexadecimal key
/// `hex_key`.
///
/// The key is tested with [`validate_hex_key`] and then encrypted. A key
/// that passes is made of hexadecimal digits, so storing it cannot fail.
pub fn generate_new_key(storage: &KeyStorage, hex_key: &str) -> (r: Result<Vec<u8>, KeyFormatError>)
    ensures
        match r {
            Ok(bytes) => hex_key_valid(hex_key) && hex_bytes(hex_key@) is Some && bytes@
                == xor_with_key(hex_bytes(hex_key@)->0, storage.passphrase()),
            Err(e) => !hex_key_valid(hex_key) && (e == KeyFormatError::Length <==> !(
            MIN_HEX_KEY_LENGTH <= hex_key.spec_bytes().len() <= MAX_HEX_KEY_LENGTH)),
        },
{
    match validate_hex_key(hex_key) {
        Ok(()) => {},
        Err(e) => {
            return Err(e);
        },
    }
    match storage.store_key(hex_key) {
        Ok(bytes) => Ok(bytes),
        Err(_) => {
            proof {
                lemma_valid_key_is_hex(hex_key);
            }
            Err(KeyFormatError::NotHex)
        },
    }
}

/// The time-based code at the second `unix_seconds` for the key whose file,
/// kept by `storage`, holds `encrypted`.
pub fn generate_totp_code(storage: &KeyStorage, encrypted: &[u8], unix_seconds: u64) -> (code:
    String)
    ensures
        code@ == zero_padded(
            hotp_value(
                xor_with_key(encrypted@, storage.passphrase()),
                (unix_seconds / TOTP_PERIOD) as u64,
                TOTP_MODULUS,
            ) as nat,
            TOTP_DIGITS as nat,
        ),
{
    let key = storage.read_key(encrypted);
    generate_hotp(key, time_counter(unix_seconds), TOTP_MODULUS)
}

/// A key that passes [`validate_hex_key`] stands for bytes.
pub proof fn lemma_valid_key_is_hex(key: &str)
    requires
        hex_key_valid(key),
    ensures
        hex_bytes(key@) is Some,
{
    let s = key@;
    assert forall|i: int|
        0 <= i < hex_chunk_count(s) implies hex_chunk_value(
        #[trigger] hex_chunk(s, i),
    ) is Some by {
        let chunk = hex_chunk(s, i);
        assert(hex_digit_value(s[2 * i]) is Some);
        if 2 * i + 2 <= s.len() {
            assert(hex_digit_value(s[2 * i + 1]) is Some);
            assert(chunk =~= seq![s[2 * i], s[2 * i + 1]]);
        } else {
            assert(chunk =~= seq![s[2 * i]]);
        }
    }
}

/// A code has at least [`TOTP_DIGITS`] characters, and exactly that many
/// where the number behind it is below a million.
pub proof fn lemma_code_length(n: nat)
    ensures
        zero_padded(n, TOTP_DIGITS as nat).len() >= TOTP_DIGITS,
        n < 1000000 ==> zero_padded(n, TOTP_DIGITS as nat).len() == TOTP_DIGITS,
{
    if n < 1000000 {
        assert(power_of_ten(6) == 1000000) by {
            reveal_with_fuel(power_of_ten, 7);
        }
        lemma_decimal_length(n, 6);
    }
}

} // verus!
