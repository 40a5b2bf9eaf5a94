//! Proof keys for the authorization-code flow.

use vstd::prelude::*;
use vstd::utf8::encode_utf8;

use crate::form::{
    is_plain, is_unreserved, lemma_plain_is_ascii, percent_encoded, plain_text_is_its_own_encoding,
};

verus! {

/// A byte of `bytes`, or zero past its end.
pub open spec fn byte_at(bytes: Seq<u8>, i: int) -> int {
    if i < bytes.len() {
        bytes[i] as int
    } else {
        0
    }
}

/// The `i`-th group of six bits, from the first bit on.
pub open spec fn six_bits(bytes: Seq<u8>, i: int) -> int {
    let q = i / 4 * 3;
    if i % 4 == 0 {
        byte_at(bytes, q) / 4
    } else if i % 4 == 1 {
        byte_at(bytes, q) % 4 * 16 + byte_at(bytes, q + 1) / 16
    } else if i % 4 == 2 {
        byte_at(bytes, q + 1) % 16 * 4 + byte_at(bytes, q + 2) / 64
    } else {
        byte_at(bytes, q + 2) % 64
    }
}

/// The character of six bits in the URL-safe base64 alphabet.
pub open spec fn base64_char(bits: int) -> char {
    if bits < 26 {
        ('A' as int + bits) as char
    } else if bits < 52 {
        ('a' as int + (bits - 26)) as char
    } else if bits < 62 {
        ('0' as int + (bits - 52)) as char
    } else if bits == 62 {
        '-'
    } else {
        '_'
    }
}

/// The URL-safe base64 encoding without padding.
pub open spec fn base64_url(bytes: Seq<u8>) -> Seq<char> {
    Seq::new((bytes.len() * 4 + 2) / 3, |i: int| base64_char(six_bits(bytes, i)))
}

/// The SHA-256 digest, as `sha2::Sha256::digest` computes it.
pub uninterp spec fn sha256(data: Seq<u8>) -> Seq<u8>;

/// The challenge of a verifier: the base64 encoding of the digest of its UTF-8 bytes.
pub open spec fn challenge_of(verifier: Seq<char>) -> Seq<char> {
    base64_url(sha256(encode_utf8(verifier)))
}

/// `URL_SAFE_NO_PAD.encode` of `base64`: groups of six bits, first bit first and zeros after the
/// last, each as its character of the URL-safe alphabet, and no padding. The bound keeps the
/// encoded text within what memory can hold.
#[verifier::external_body]
fn base64_encode(bytes: &[u8]) -> (text: String)
    requires
        bytes@.len() <= usize::MAX / 4,
    ensures
        text@ == base64_url(bytes@),
{
    base64::Engine::encode(&base64::engine::general_purpose::URL_SAFE_NO_PAD, bytes)
}

/// `sha2::Sha256::digest`: the digest, of 32 bytes. The bound keeps the length in bits within
/// 64 bits.
#[verifier::external_body]
fn sha256_digest(data: &[u8]) -> (digest: Vec<u8>)
    requires
        data@.len() < 0x2000_0000_0000_0000,
    ensures
        digest@ == sha256(data@),
        digest@.len() == 32,
{
    <sha2::Sha256 as sha2::Digest>::digest(data).to_vec()
}

/// `rand::fill`: that many bytes, of which nothing more is known.
#[verifier::external_body]
fn random_bytes(n: usize) -> (bytes: Vec<u8>)
    requires
        n <= usize::MAX / 4,
    ensures
        bytes@.len() == n,
{
    let mut bytes = vec![0u8; n];
    rand::fill(bytes.as_mut_slice());
    bytes
}

/// The base64 encoding of `n` random bytes.
pub fn random_url_safe(n: usize) -> (text: String)
    requires
        n <= usize::MAX / 4,
    ensures
        exists|bytes: Seq<u8>| bytes.len() == n && text@ == base64_url(bytes),
{
    let bytes = random_bytes(n);
    base64_encode(bytes.as_slice())
}

/// A verifier and the challenge that commits to it.
#[derive(Debug)]
pub struct Pkce {
    pub verifier: String,
    pub challenge: String,
}

impl Pkce {
    /// Whether the challenge is the verifier's.
    pub open spec fn wf(self) -> bool {
        self.challenge@ == challenge_of(self.verifier@)
    }

    /// The pair of a verifier and its challenge.
    pub fn from_verifier(verifier: String) -> (pkce: Self)
        requires
            encode_utf8(verifier@).len() < 0x2000_0000_0000_0000,
        ensures
            pkce.wf(),
            pkce.verifier@ == verifier@,
    {
        let digest = sha256_digest(verifier.as_str().as_bytes());
        let challenge = base64_encode(digest.as_slice());
        Pkce { verifier, challenge }
    }

    /// A pair whose verifier is the encoding of 32 random bytes.
    pub fn new_random() -> (pkce: Self)
        ensures
            pkce.wf(),
            exists|bytes: Seq<u8>| bytes.len() == 32 && pkce.verifier@ == base64_url(bytes),
    {
        let verifier = random_url_safe(32);
        proof {
            let bytes = choose|bytes: Seq<u8>|
                bytes.len() == 32 && verifier@ == base64_url(bytes);
            base64_is_plain(bytes);
            lemma_plain_is_ascii(verifier@);
        }
        Pkce::from_verifier(verifier)
    }
}

proof fn lemma_six_bits(bytes: Seq<u8>, i: int)
    requires
        0 <= i,
    ensures
        0 <= six_bits(bytes, i) < 64,
{
}

/// The encoding of `n` bytes has four characters for every three bytes, rounded up, and all of
/// them can stand in a query as they are.
pub proof fn base64_is_plain(bytes: Seq<u8>)
    ensures
        base64_url(bytes).len() == (bytes.len() * 4 + 2) / 3,
        is_plain(base64_url(bytes)),
        percent_encoded(base64_url(bytes)) == base64_url(bytes),
{
    let text = base64_url(bytes);
    assert forall|i: int| 0 <= i < text.len() implies #[trigger] text[i] <= '\u{7f}'
        && is_unreserved(text[i] as u8) by {
        lemma_six_bits(bytes, i);
        let c = base64_char(six_bits(bytes, i));
        assert(text[i] == c);
    }
    plain_text_is_its_own_encoding(text);
}

/// A challenge is the encoded digest of the verifier's UTF-8 bytes.
pub proof fn challenge_is_the_encoded_digest(verifier: Seq<char>, pkce: Pkce)
    ensures
        challenge_of(verifier) == base64_url(sha256(encode_utf8(verifier))),
        pkce.wf() <==> pkce.challenge@ == base64_url(sha256(encode_utf8(pkce.verifier@))),
{
}

/// The encoding can be read back: four characters at the places `a`, `b`, `c` and `d` of the
/// alphabet give their group of three bytes, and a shorter last group is followed by zeros only.
pub proof fn base64_can_be_read_back(bytes: Seq<u8>, group: int, a: int, b: int, c: int, d: int)
    requires
        0 <= group,
        group * 3 < bytes.len(),
        0 <= a < 64 && 0 <= b < 64 && 0 <= c < 64 && 0 <= d < 64,
        base64_url(bytes)[group * 4]
            == "ABCDEFGHIJKLMNOPQRSTUVWXYZabcdefghijklmnopqrstuvwxyz0123456789-_"@[a],
        base64_url(bytes)[group * 4 + 1]
            == "ABCDEFGHIJKLMNOPQRSTUVWXYZabcdefghijklmnopqrstuvwxyz0123456789-_"@[b],
        group * 3 + 1 < bytes.len() ==> base64_url(bytes)[group * 4 + 2]
            == "ABCDEFGHIJKLMNOPQRSTUVWXYZabcdefghijklmnopqrstuvwxyz0123456789-_"@[c],
        group * 3 + 2 < bytes.len() ==> base64_url(bytes)[group * 4 + 3]
            == "ABCDEFGHIJKLMNOPQRSTUVWXYZabcdefghijklmnopqrstuvwxyz0123456789-_"@[d],
    ensures
        bytes[group * 3] == a * 4 + b / 16,
        group * 3 + 1 < bytes.len() ==> bytes[group * 3 + 1] == b % 16 * 16 + c / 4,
        group * 3 + 1 >= bytes.len() ==> b % 16 == 0,
        group * 3 + 2 < bytes.len() ==> bytes[group * 3 + 2] == c % 4 * 64 + d,
        group * 3 + 1 < bytes.len() <= group * 3 + 2 ==> c % 4 == 0,
{
    let q = group * 4;
    lemma_six_bits(bytes, q);
    lemma_six_bits(bytes, q + 1);
    lemma_six_bits(bytes, q + 2);
    lemma_six_bits(bytes, q + 3);
    lemma_place_in_alphabet(six_bits(bytes, q), a);
    lemma_place_in_alphabet(six_bits(bytes, q + 1), b);
    lemma_place_in_alphabet(six_bits(bytes, q + 2), c);
    lemma_place_in_alphabet(six_bits(bytes, q + 3), d);
}

proof fn lemma_place_in_alphabet(bits: int, place: int)
    requires
        0 <= bits < 64,
        0 <= place < 64,
    ensures
        base64_char(bits)
            == "ABCDEFGHIJKLMNOPQRSTUVWXYZabcdefghijklmnopqrstuvwxyz0123456789-_"@[place] ==> bits
            == place,
{
    reveal_strlit("ABCDEFGHIJKLMNOPQRSTUVWXYZabcdefghijklmnopqrstuvwxyz0123456789-_");
    lemma_alphabet(place);
}

proof fn lemma_alphabet(place: int)
    requires
        0 <= place < 64,
    ensures
        "ABCDEFGHIJKLMNOPQRSTUVWXYZabcdefghijklmnopqrstuvwxyz0123456789-_"@[place] == base64_char(
            place,
        ),
{
    reveal_strlit("ABCDEFGHIJKLMNOPQRSTUVWXYZabcdefghijklmnopqrstuvwxyz0123456789-_");
}

} // verus!
