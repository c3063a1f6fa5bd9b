//! A secret key kept on disk under a short passphrase.
//!
//! The key file holds the key's bytes, each combined by exclusive-or with
//! the passphrase's bytes taken round and round. This hides the key from a
//! glance and from nothing else. Reading and writing the file is the
//! caller's part.

use vstd::prelude::*;
use vstd::string::*;
use crate::text::to_chars;

verus! {

/// Why a key could not be stored.
#[derive(Clone, Copy, Debug, PartialEq, Eq)]
pub enum KeyError {
    /// The text is not made of hexadecimal digits.
    InvalidData,
}

/// Where a key is kept, and the passphrase it is kept under.
pub struct KeyStorage {
    file_path: String,
    encryption_key: Vec<u8>,
}

/// The value of one hexadecimal digit, in either case.
pub open spec fn hex_digit_value(c: char) -> Option<u8> {
    if '0' <= c && c <= '9' {
        Some((c as u8 - 48) as u8)
    } else if 'a' <= c && c <= 'f' {
        Some((c as u8 - 87) as u8)
    } else if 'A' <= c && c <= 'F' {
        Some((c as u8 - 55) as u8)
    } else {
        None
    }
}

/// The byte that a chunk of one or two characters stands for: one digit, two
/// digits with the high one first, or a `+` and one digit.
pub open spec fn hex_chunk_value(chunk: Seq<char>) -> Option<u8> {
    if chunk.len() == 1 {
        hex_digit_value(chunk[0])
    } else if chunk.len() == 2 {
        if chunk[0] == '+' {
            hex_digit_value(chunk[1])
        } else {
            match (hex_digit_value(chunk[0]), hex_digit_value(chunk[1])) {
                (Some(high), Some(low)) => Some((high * 16 + low) as u8),
                _ => None,
            }
        }
    } else {
        None
    }
}

/// The `i`-th chunk of `s` cut into pairs from the left; the last chunk of a
/// text of odd length holds one character.
pub open spec fn hex_chunk(s: Seq<char>, i: int) -> Seq<char> {
    s.subrange(
        2 * i,
        if 2 * i + 2 <= s.len() {
            2 * i + 2
        } else {
            s.len() as int
        },
    )
}

/// How many chunks `s` is cut into.
pub open spec fn hex_chunk_count(s: Seq<char>) -> nat {
    (s.len() + 1) / 2
}

/// The bytes that `s` stands for, one per chunk; `None` where a chunk
/// stands for none.
pub open spec fn hex_bytes(s: Seq<char>) -> Option<Seq<u8>> {
    if forall|i: int| 0 <= i < hex_chunk_count(s) ==> hex_chunk_value(#[trigger] hex_chunk(s, i)) is Some {
        Some(Seq::new(hex_chunk_count(s), |i: int| hex_chunk_value(hex_chunk(s, i))->0))
    } else {
        None
    }
}

/// `data` with each byte combined by exclusive-or with the byte of `key` at
/// the same place, `key` repeated as often as needed. With an empty key
/// nothing comes out.
pub open spec fn xor_with_key(data: Seq<u8>, key: Seq<u8>) -> Seq<u8> {
    if key.len() == 0 {
        Seq::empty()
    } else {
        Seq::new(data.len(), |i: int| data[i] ^ key[i % (key.len() as int)])
    }
}

/// Reads one hexadecimal digit.
pub fn hex_digit(c: char) -> (r: Option<u8>)
    ensures
        r == hex_digit_value(c),
{
    if '0' <= c && c <= '9' {
        Some(c as u8 - 48)
    } else if 'a' <= c && c <= 'f' {
        Some(c as u8 - 87)
    } else if 'A' <= c && c <= 'F' {
        Some(c as u8 - 55)
    } else {
        None
    }
}

impl KeyStorage {
    /// The path of the key file.
    pub closed spec fn path(&self) -> Seq<char> {
        self.file_path@
    }

    /// The passphrase's bytes.
    pub closed spec fn passphrase(&self) -> Seq<u8> {
        self.encryption_key@
    }

    /// A storage for the key file at `file_path` under the passphrase
    /// `encryption_key`, taken as the bytes of its UTF-8 form.
    pub fn new(file_path: &str, encryption_key: &str) -> (s: Self)
        ensures
            s.path() == file_path@,
            s.passphrase() == encryption_key.spec_bytes(),
    {
        KeyStorage {
            file_path: String::from_str(file_path),
            encryption_key: encryption_key.as_bytes_vec(),
        }
    }

    /// The path of the key file.
    pub fn file_path(&self) -> (p: &str)
        ensures
            p@ == self.path(),
    {
        self.file_path.as_str()
    }

    /// Encrypts or decrypts `data`: the same call does both.
    pub fn xor_encrypt_decrypt(&self, data: &[u8]) -> (out: Vec<u8>)
        ensures
            out@ == xor_with_key(data@, self.passphrase()),
    {
        let mut out: Vec<u8> = Vec::new();
        let k: usize = self.encryption_key.len();
        if k == 0 {
            assert(out@ =~= xor_with_key(data@, self.passphrase()));
            return out;
        }
        let n: usize = data.len();
        let mut i: usize = 0;
        while i < n
            invariant
                n == data@.len(),
                k == self.encryption_key.len(),
                k > 0,
                i <= n,
                out@.len() == i,
                forall|j: int| 0 <= j < i ==> out@[j] == data@[j] ^ self.encryption_key@[j % (k as int)],
            decreases n - i,
        {
            out.push(data[i] ^ self.encryption_key[i % k]);
            i += 1;
        }
        assert(out@ =~= xor_with_key(data@, self.passphrase()));
        out
    }

    /// The bytes that the hexadecimal text `hex_string` stands for.
    ///
    /// The text is cut into pairs from the left, each pair giving one byte,
    /// high digit first; a single character left at the end gives a byte of
    /// its own. A pair may also be a `+` and one digit. Anything else fails.
    pub fn hex_string_to_bytes(&self, hex_string: &str) -> (r: Result<Vec<u8>, KeyError>)
        ensures
            match r {
                Ok(bytes) => hex_bytes(hex_string@) == Some(bytes@),
                Err(e) => hex_bytes(hex_string@) is None && e == KeyError::InvalidData,
            },
    {
        let chars = to_chars(hex_string);
        let n: usize = chars.len();
        let count: usize = n / 2 + n % 2;
        let mut out: Vec<u8> = Vec::new();
        let mut j: usize = 0;
        while j < count
            invariant
                n == chars.len(),
                chars@ == hex_string@,
                count == hex_chunk_count(chars@),
                j <= count,
                out@.len() == j,
                forall|m: int|
                    0 <= m < j ==> hex_chunk_value(#[trigger] hex_chunk(chars@, m)) == Some(
                        out@[m],
                    ),
            decreases count - j,
        {
            let i: usize = 2 * j;
            let ghost chunk = hex_chunk(chars@, j as int);
            let value: Option<u8> = if n - i >= 2 {
                assert(chunk =~= seq![chars@[i as int], chars@[i + 1]]);
                if chars[i] == '+' {
                    hex_digit(chars[i + 1])
                } else {
                    match (hex_digit(chars[i]), hex_digit(chars[i + 1])) {
                        (Some(high), Some(low)) => Some(high * 16 + low),
                        _ => None,
                    }
                }
            } else {
                assert(chunk =~= seq![chars@[i as int]]);
                hex_digit(chars[i])
            };
            assert(value == hex_chunk_value(chunk));
            match value {
                Some(b) => {
                    out.push(b);
                },
                None => {
                    return Err(KeyError::InvalidData);
                },
            }
            j += 1;
        }
        assert(out@ =~= Seq::new(
            hex_chunk_count(chars@),
            |m: int| hex_chunk_value(hex_chunk(chars@, m))->0,
        ));
        Ok(out)
    }

    /// The bytes to write to the key file for the hexadecimal key `hex_key`:
    /// the key's bytes, encrypted. Fails where `hex_key` is no hexadecimal
    /// text, and then nothing is to be written.
    pub fn store_key(&self, hex_key: &str) -> (r: Result<Vec<u8>, KeyError>)
        ensures
            match r {
                Ok(bytes) => hex_bytes(hex_key@) is Some && bytes@ == xor_with_key(
                    hex_bytes(hex_key@)->0,
                    self.passphrase(),
                ),
                Err(e) => hex_bytes(hex_key@) is None && e == KeyError::InvalidData,
            },
    {
        match self.hex_string_to_bytes(hex_key) {
            Ok(key_bytes) => Ok(self.xor_encrypt_decrypt(key_bytes.as_slice())),
            Err(e) => Err(e),
        }
    }

    /// The key whose file holds `encrypted`.
    pub fn read_key(&self, encrypted: &[u8]) -> (key: Vec<u8>)
        ensures
            key@ == xor_with_key(encrypted@, self.passphrase()),
    {
        self.xor_encrypt_decrypt(encrypted)
    }
}

/// Under a passphrase that is not empty, decrypting what was encrypted gives
/// the data back.
pub proof fn lemma_xor_twice_is_identity(data: Seq<u8>, key: Seq<u8>)
    requires
        key.len() > 0,
    ensures
        xor_with_key(xor_with_key(data, key), key) == data,
{
    let once = xor_with_key(data, key);
    let twice = xor_with_key(once, key);
    assert forall|i: int| 0 <= i < data.len() implies twice[i] == data[i] by {
        let a = data[i];
        let b = key[i % (key.len() as int)];
        assert((a ^ b) ^ b == a) by (bit_vector);
    }
    assert(twice =~= data);
}

/// A key read back from what [`KeyStorage::store_key`] gave is the key that
/// was stored, byte for byte, where the passphrase is not empty.
pub proof fn lemma_stored_key_reads_back(hex_key: Seq<char>, passphrase: Seq<u8>)
    requires
        passphrase.len() > 0,
        hex_bytes(hex_key) is Some,
    ensures
        xor_with_key(xor_with_key(hex_bytes(hex_key)->0, passphrase), passphrase) == hex_bytes(
            hex_key,
        )->0,
{
    lemma_xor_twice_is_identity(hex_bytes(hex_key)->0, passphrase);
}

/// A text of `2 * n` hexadecimal digits stands for `n` bytes, the `i`-th
/// made of the digits at `2 * i` and `2 * i + 1`.
pub proof fn lemma_hex_bytes_of_digits(s: Seq<char>)
    requires
        s.len() % 2 == 0,
        forall|i: int| 0 <= i < s.len() ==> hex_digit_value(#[trigger] s[i]) is Some,
    ensures
        hex_bytes(s) is Some,
        hex_bytes(s)->0.len() == s.len() / 2,
        forall|i: int|
            0 <= i < s.len() / 2 ==> #[trigger] hex_bytes(s)->0[i] == hex_digit_value(s[2 * i])->0
                * 16 + hex_digit_value(s[2 * i + 1])->0,
{
    assert forall|i: int| 0 <= i < hex_chunk_count(s) implies hex_chunk_value(
        #[trigger] hex_chunk(s, i),
    ) == Some(
        (hex_digit_value(s[2 * i])->0 * 16 + hex_digit_value(s[2 * i + 1])->0) as u8,
    ) by {
        assert(hex_chunk(s, i) =~= seq![s[2 * i], s[2 * i + 1]]);
        assert(hex_digit_value(s[2 * i]) is Some);
        assert(hex_digit_value(s[2 * i + 1]) is Some);
    }
}

} // verus!
