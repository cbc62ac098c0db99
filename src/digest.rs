//! SHA-256 content digests, written as lowercase hexadecimal.

use vstd::prelude::*;
use vstd::utf8::encode_utf8;
use crate::value::{Value, JVal};
use crate::canonical::canon;
use crate::text::{hex_digit, value_text, canonical_stringify};

verus! {

/// The SHA-256 digest of `data`.
pub uninterp spec fn sha256_digest(data: Seq<u8>) -> Seq<u8>;

/// Relies on sha2::Sha256 (through `Digest::digest`): the 32-byte SHA-256
/// digest of `data`.
#[verifier::external_body]
fn sha256(data: &[u8]) -> (r: Vec<u8>)
    ensures
        r@ == sha256_digest(data@),
        r@.len() == 32,
{
    <sha2::Sha256 as sha2::Digest>::digest(data).to_vec()
}

/// Two lowercase hex digits per byte, high nibble first.
pub open spec fn hex_text(bytes: Seq<u8>) -> Seq<char>
    decreases bytes.len(),
{
    if bytes.len() == 0 {
        Seq::empty()
    } else {
        let b = bytes.last();
        hex_text(bytes.drop_last()) + seq![hex_digit(b as int / 16), hex_digit(b as int % 16)]
    }
}

/// The digest of a text: SHA-256 over its UTF-8 bytes, in hex.
pub open spec fn text_digest(t: Seq<char>) -> Seq<char> {
    hex_text(sha256_digest(encode_utf8(t)))
}

/// The content hash of a value: the digest of its canonical JSON text.
pub open spec fn content_hash(v: JVal) -> Seq<char> {
    text_digest(value_text(canon(v)))
}

fn hex_digit_text(n: u8) -> (r: &'static str)
    requires
        n < 16,
    ensures
        r@ == seq![hex_digit(n as int)],
{
    proof {
        reveal_strlit("0");
        reveal_strlit("1");
        reveal_strlit("2");
        reveal_strlit("3");
        reveal_strlit("4");
        reveal_strlit("5");
        reveal_strlit("6");
        reveal_strlit("7");
        reveal_strlit("8");
        reveal_strlit("9");
        reveal_strlit("a");
        reveal_strlit("b");
        reveal_strlit("c");
        reveal_strlit("d");
        reveal_strlit("e");
        reveal_strlit("f");
    }
    let r = match n {
        0 => "0",
        1 => "1",
        2 => "2",
        3 => "3",
        4 => "4",
        5 => "5",
        6 => "6",
        7 => "7",
        8 => "8",
        9 => "9",
        10 => "a",
        11 => "b",
        12 => "c",
        13 => "d",
        14 => "e",
        _ => "f",
    };
    assert(r@ =~= seq![hex_digit(n as int)]);
    r
}

/// Lowercase hexadecimal of `bytes`.
pub fn to_hex(bytes: &[u8]) -> (r: String)
    ensures
        r@ == hex_text(bytes@),
{
    let mut out = String::new();
    let mut i: usize = 0;
    while i < bytes.len()
        invariant
            i <= bytes@.len(),
            out@ == hex_text(bytes@.subrange(0, i as int)),
        decreases bytes@.len() - i,
    {
        let b = bytes[i];
        out.append(hex_digit_text(b / 16));
        out.append(hex_digit_text(b % 16));
        proof {
            let next = bytes@.subrange(0, i + 1);
            assert(next.drop_last() =~= bytes@.subrange(0, i as int));
            assert(next.last() == b);
            assert(out@ =~= hex_text(next));
        }
        i += 1;
    }
    assert(bytes@.subrange(0, bytes@.len() as int) =~= bytes@);
    out
}

/// Lowercase hexadecimal digits only.
pub open spec fn is_lower_hex(s: Seq<char>) -> bool {
    forall|i: int| 0 <= i < s.len() ==> ('0' <= #[trigger] s[i] <= '9' || 'a' <= s[i] <= 'f')
}

/// SHA-256 of the UTF-8 bytes of `s`, as 64 lowercase hex digits.
pub fn hash_text(s: &str) -> (r: String)
    ensures
        r@ == text_digest(s@),
        r@.len() == 64,
        is_lower_hex(r@),
{
    let d = sha256(s.as_bytes());
    proof {
        lemma_hex_len(d@);
        lemma_hex_digits(d@);
    }
    to_hex(d.as_slice())
}

/// The content hash of `v`: SHA-256 of its canonical JSON text, as 64
/// lowercase hex digits. Equal values have equal hashes.
pub fn hash_data(v: &Value) -> (r: String)
    ensures
        r@ == content_hash(v@),
        r@.len() == 64,
        is_lower_hex(r@),
{
    let t = canonical_stringify(v);
    hash_text(t.as_str())
}

pub proof fn lemma_hex_digits(bytes: Seq<u8>)
    ensures
        is_lower_hex(hex_text(bytes)),
    decreases bytes.len(),
{
    if bytes.len() > 0 {
        lemma_hex_digits(bytes.drop_last());
        let b = bytes.last();
        let tail = seq![hex_digit(b as int / 16), hex_digit(b as int % 16)];
        assert(is_lower_hex(tail)) by {
            assert(0 <= b as int / 16 < 16);
            assert(0 <= b as int % 16 < 16);
        }
        let h = hex_text(bytes);
        let front = hex_text(bytes.drop_last());
        assert forall|i: int| 0 <= i < h.len() implies ('0' <= #[trigger] h[i] <= '9' || 'a' <= h[i] <= 'f') by {
            if i < front.len() {
                assert(h[i] == front[i]);
            } else {
                assert(h[i] == tail[i - front.len()]);
            }
        }
    }
}

/// A digest in hex has two digits per byte of the digest.
pub proof fn lemma_hex_len(bytes: Seq<u8>)
    ensures
        hex_text(bytes).len() == 2 * bytes.len(),
    decreases bytes.len(),
{
    if bytes.len() > 0 {
        lemma_hex_len(bytes.drop_last());
    }
}

} // verus!
