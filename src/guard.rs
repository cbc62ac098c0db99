//! Input checks of the collaborators around the ledger: the encryption
//! layer, which refuses empty or oversized data and blank keys before any
//! cryptography runs, and block mining, which accepts a digest by its
//! leading zeros.

use vstd::prelude::*;
use vstd::string::StrSliceExecFns;

verus! {

/// The largest message the encryption layer accepts: 64 MiB.
pub const MAX_MESSAGE_SIZE: usize = 64 * 1024 * 1024;

/// A Unicode White_Space character: the characters that `char::is_whitespace`
/// and `str::trim` treat as white space.
pub open spec fn is_white_space(c: char) -> bool {
    let u = c as u32;
    (0x9 <= u <= 0xd) || u == 0x20 || u == 0x85 || u == 0xa0 || u == 0x1680 || (0x2000 <= u <= 0x200a)
        || u == 0x2028 || u == 0x2029 || u == 0x202f || u == 0x205f || u == 0x3000
}

/// Nothing but white space, so nothing is left once trimmed.
pub open spec fn is_blank(s: Seq<char>) -> bool {
    forall|i: int| 0 <= i < s.len() ==> is_white_space(#[trigger] s[i])
}

fn white_space(c: char) -> (r: bool)
    ensures
        r == is_white_space(c),
{
    let u = c as u32;
    (0x9 <= u && u <= 0xd) || u == 0x20 || u == 0x85 || u == 0xa0 || u == 0x1680 || (0x2000 <= u && u <= 0x200a)
        || u == 0x2028 || u == 0x2029 || u == 0x202f || u == 0x205f || u == 0x3000
}

/// Whether `s` holds nothing but white space.
pub fn blank(s: &str) -> (r: bool)
    ensures
        r == is_blank(s@),
{
    let n = s.unicode_len();
    let mut i: usize = 0;
    while i < n
        invariant
            i <= n,
            n == s@.len(),
            forall|j: int| 0 <= j < i ==> is_white_space(#[trigger] s@[j]),
        decreases n - i,
    {
        if !white_space(s.get_char(i)) {
            return false;
        }
        i += 1;
    }
    true
}

/// Why encrypting `data_len` bytes to the public key `key` is refused, if
/// it is.
pub open spec fn key_encrypt_refusal(data_len: nat, key: Seq<char>) -> Option<Seq<char>> {
    if data_len == 0 {
        Some("Data cannot be empty"@)
    } else if data_len > MAX_MESSAGE_SIZE {
        Some("Data too large (max 64MB)"@)
    } else if is_blank(key) {
        Some("Public key cannot be empty"@)
    } else {
        None
    }
}

/// Why encrypting `data_len` bytes with a passphrase is refused, if it is.
pub open spec fn passphrase_encrypt_refusal(data_len: nat, passphrase: Seq<char>) -> Option<Seq<char>> {
    if data_len == 0 {
        Some("Data cannot be empty"@)
    } else if data_len > MAX_MESSAGE_SIZE {
        Some("Data too large (max 64MB)"@)
    } else if passphrase.len() == 0 {
        Some("Passphrase cannot be empty"@)
    } else {
        None
    }
}

/// Why decrypting `data_len` bytes with the private key `key` is refused,
/// if it is.
pub open spec fn key_decrypt_refusal(data_len: nat, key: Seq<char>) -> Option<Seq<char>> {
    if data_len == 0 {
        Some("Encrypted data cannot be empty"@)
    } else if is_blank(key) {
        Some("Private key cannot be empty"@)
    } else {
        None
    }
}

/// Why decrypting `data_len` bytes with a passphrase is refused, if it is.
pub open spec fn passphrase_decrypt_refusal(data_len: nat, passphrase: Seq<char>) -> Option<Seq<char>> {
    if data_len == 0 {
        Some("Encrypted data cannot be empty"@)
    } else if passphrase.len() == 0 {
        Some("Passphrase cannot be empty"@)
    } else {
        None
    }
}

pub open spec fn refusal_of(r: Option<String>) -> Option<Seq<char>> {
    match r {
        Some(m) => Some(m@),
        None => None,
    }
}

/// Checks the inputs of encrypting to a public key.
pub fn check_key_encrypt(data_len: usize, key: &str) -> (r: Option<String>)
    ensures
        refusal_of(r) == key_encrypt_refusal(data_len as nat, key@),
{
    if data_len == 0 {
        Some("Data cannot be empty".to_owned())
    } else if data_len > MAX_MESSAGE_SIZE {
        Some("Data too large (max 64MB)".to_owned())
    } else if blank(key) {
        Some("Public key cannot be empty".to_owned())
    } else {
        None
    }
}

/// Checks the inputs of encrypting with a passphrase.
pub fn check_passphrase_encrypt(data_len: usize, passphrase: &str) -> (r: Option<String>)
    ensures
        refusal_of(r) == passphrase_encrypt_refusal(data_len as nat, passphrase@),
{
    if data_len == 0 {
        Some("Data cannot be empty".to_owned())
    } else if data_len > MAX_MESSAGE_SIZE {
        Some("Data too large (max 64MB)".to_owned())
    } else if passphrase.is_empty() {
        Some("Passphrase cannot be empty".to_owned())
    } else {
        None
    }
}

/// Checks the inputs of decrypting with a private key.
pub fn check_key_decrypt(data_len: usize, key: &str) -> (r: Option<String>)
    ensures
        refusal_of(r) == key_decrypt_refusal(data_len as nat, key@),
{
    if data_len == 0 {
        Some("Encrypted data cannot be empty".to_owned())
    } else if blank(key) {
        Some("Private key cannot be empty".to_owned())
    } else {
        None
    }
}

/// Checks the inputs of decrypting with a passphrase.
pub fn check_passphrase_decrypt(data_len: usize, passphrase: &str) -> (r: Option<String>)
    ensures
        refusal_of(r) == passphrase_decrypt_refusal(data_len as nat, passphrase@),
{
    if data_len == 0 {
        Some("Encrypted data cannot be empty".to_owned())
    } else if passphrase.is_empty() {
        Some("Passphrase cannot be empty".to_owned())
    } else {
        None
    }
}

/// A mined digest: its first `difficulty` characters are all `0`. A digest
/// shorter than `difficulty` never is.
pub open spec fn meets_difficulty(hash: Seq<char>, difficulty: nat) -> bool {
    hash.len() >= difficulty && forall|i: int| 0 <= i < difficulty ==> hash[i] == '0'
}

/// Whether `hash` starts with `difficulty` zeros.
pub fn has_leading_zeros(hash: &str, difficulty: usize) -> (r: bool)
    ensures
        r == meets_difficulty(hash@, difficulty as nat),
{
    let n = hash.unicode_len();
    if n < difficulty {
        return false;
    }
    let mut i: usize = 0;
    while i < difficulty
        invariant
            i <= difficulty,
            difficulty <= n,
            n == hash@.len(),
            forall|j: int| 0 <= j < i ==> hash@[j] == '0',
        decreases difficulty - i,
    {
        if hash.get_char(i) != '0' {
            return false;
        }
        i += 1;
    }
    true
}

} // verus!
