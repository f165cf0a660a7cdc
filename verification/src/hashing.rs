//! Stable wallpaper ids. A candidate's id and its cache filename both start
//! from the same deterministic digest of the source URL: the hexadecimal
//! SHA-256 digest of the URL, re-encoded in base32 and cut to seven
//! characters.

use vstd::prelude::*;
use vstd::string::*;
use vstd::utf8::encode_utf8;

verus! {

/// What `sha256::digest` returns for a given input; a function of the
/// input characters alone.
pub uninterp spec fn digest_hex_of(s: Seq<char>) -> Seq<char>;

/// What `data_encoding::BASE32.encode` returns for given input bytes; a
/// function of the bytes alone.
pub uninterp spec fn base32_of(bytes: Seq<u8>) -> Seq<char>;

/// Relies on `sha256::digest`: the SHA-256 digest of the input, written as
/// 64 lowercase hexadecimal (hence ASCII) characters.
#[verifier::external_body]
fn sha256_hex(s: &str) -> (r: String)
    ensures
        r@ == digest_hex_of(s@),
        r@.len() == 64,
        r.is_ascii(),
{
    sha256::digest(s)
}

/// Relies on `data_encoding::BASE32.encode`: RFC 4648 padded base32, eight
/// output characters for every five input bytes begun. The length bound
/// keeps the input below the limit under which `encode_len` is promised
/// not to panic on any word size.
#[verifier::external_body]
fn base32_encode(b: &[u8]) -> (r: String)
    requires
        b@.len() <= 0x40_0000,
    ensures
        r@ == base32_of(b@),
        r@.len() == 8 * ((b@.len() + 4) / 5),
{
    data_encoding::BASE32.encode(b)
}

/// The id every candidate fetched from `url` is filed under: base32 of the
/// hexadecimal SHA-256 digest, cut to seven characters.
pub open spec fn url_id_of(url: Seq<char>) -> Seq<char> {
    base32_of(encode_utf8(digest_hex_of(url))).subrange(0, 7)
}

/// Derives the stable id for a source URL.
pub fn hash_url(url: &str) -> (r: String)
    ensures
        r@ == url_id_of(url@),
        r@.len() == 7,
{
    let hex = sha256_hex(url);
    let hex_str = hex.as_str();
    proof {
        broadcast use vstd::string::is_ascii_spec_bytes;

        assert(is_ascii(hex_str));
        assert(hex_str.spec_bytes().len() == 64);
    }
    let b32 = base32_encode(hex_str.as_bytes());
    let prefix = b32.as_str().substring_char(0, 7);
    proof {
        assert(prefix@ =~= url_id_of(url@));
    }
    prefix.to_owned()
}

} // verus!
