use vstd::prelude::*;
use vstd::utf8::{decode_utf8, valid_utf8};

use aes::Aes128;
use base64::Engine;
use cbc::cipher::{BlockDecryptMut, KeyIvInit};
use std::io::Read;

verus! {

/// What `base64::engine::general_purpose::STANDARD.decode` gives for `input`:
/// the decoded bytes, or `None` where it reports a `DecodeError`.
pub uninterp spec fn base64_decoded(input: Seq<u8>) -> Option<Seq<u8>>;

/// What `base64::engine::general_purpose::STANDARD.encode` gives for `input`.
pub uninterp spec fn base64_encoded(input: Seq<u8>) -> Seq<char>;

/// What AES-128-CBC decryption (crates `aes` and `cbc`) with PKCS#7 unpadding
/// gives for `data` under `key` and `iv`, or `None` where it reports an
/// `UnpadError`.
pub uninterp spec fn aes128_cbc_pkcs7_decrypted(key: Seq<u8>, iv: Seq<u8>, data: Seq<u8>) -> Option<Seq<u8>>;

/// What reading a `flate2::read::ZlibDecoder` over `data` to its end gives,
/// or `None` where it reports an error.
pub uninterp spec fn zlib_inflated(data: Seq<u8>) -> Option<Seq<u8>>;

/// What reading a `flate2::read::GzDecoder` over `data` to its end gives,
/// or `None` where it reports an error.
pub uninterp spec fn gzip_inflated(data: Seq<u8>) -> Option<Seq<u8>>;

/// `std::str::from_utf8`: the text that `bytes` encode, if they are valid
/// UTF-8. Its documentation says that it fails exactly on invalid UTF-8; the
/// contract states that with vstd's UTF-8 model.
#[verifier::external_body]
pub(crate) fn utf8_text(bytes: &[u8]) -> (r: Option<String>)
    ensures
        match r {
            Some(s) => valid_utf8(bytes@) && s@ == decode_utf8(bytes@),
            None => !valid_utf8(bytes@),
        },
{
    std::str::from_utf8(bytes).ok().map(|s| s.to_string())
}

/// `base64::engine::general_purpose::STANDARD.decode`: the contract claims
/// that the result is the named decoding of the input; nothing more is stated.
#[verifier::external_body]
pub(crate) fn base64_decode(input: &[u8]) -> (r: Option<Vec<u8>>)
    ensures
        match r {
            Some(v) => base64_decoded(input@) == Some(v@),
            None => base64_decoded(input@) is None,
        },
{
    base64::engine::general_purpose::STANDARD.decode(input).ok()
}

/// `base64::engine::general_purpose::STANDARD.encode`: the contract claims
/// that the result is the named encoding of the input.
#[verifier::external_body]
pub(crate) fn base64_encode(input: &[u8]) -> (r: String)
    ensures
        r@ == base64_encoded(input@),
{
    base64::engine::general_purpose::STANDARD.encode(input)
}

/// `cbc::Decryptor::<aes::Aes128>::new(key, iv).decrypt_padded_mut::<Pkcs7>`:
/// the contract claims that the result is the named decryption, and, as the
/// documentation of `decrypt_padded_mut` says, that an input whose length is
/// not a multiple of the block size is refused.
#[verifier::external_body]
pub(crate) fn aes128_cbc_pkcs7_decrypt(key: &[u8; 16], iv: &[u8; 16], data: Vec<u8>) -> (r: Option<Vec<u8>>)
    ensures
        match r {
            Some(v) => aes128_cbc_pkcs7_decrypted(key@, iv@, data@) == Some(v@),
            None => aes128_cbc_pkcs7_decrypted(key@, iv@, data@) is None,
        },
        data@.len() % 16 != 0 ==> r is None,
{
    let mut buffer = data;
    cbc::Decryptor::<Aes128>::new(key.into(), iv.into())
        .decrypt_padded_mut::<cbc::cipher::block_padding::Pkcs7>(&mut buffer)
        .ok()
        .map(|plain| plain.to_vec())
}

/// `flate2::read::ZlibDecoder::new(data).read_to_end`: the contract claims
/// that the result is the named decompression of the input.
#[verifier::external_body]
pub(crate) fn zlib_decompress(data: &[u8]) -> (r: Option<Vec<u8>>)
    ensures
        match r {
            Some(v) => zlib_inflated(data@) == Some(v@),
            None => zlib_inflated(data@) is None,
        },
{
    let mut out = Vec::new();
    flate2::read::ZlibDecoder::new(data).read_to_end(&mut out).ok().map(|_| out)
}

/// `flate2::read::GzDecoder::new(data).read_to_end`: the contract claims
/// that the result is the named decompression of the input.
#[verifier::external_body]
pub(crate) fn gzip_decompress(data: &[u8]) -> (r: Option<Vec<u8>>)
    ensures
        match r {
            Some(v) => gzip_inflated(data@) == Some(v@),
            None => gzip_inflated(data@) is None,
        },
{
    let mut out = Vec::new();
    flate2::read::GzDecoder::new(data).read_to_end(&mut out).ok().map(|_| out)
}

} // verus!
