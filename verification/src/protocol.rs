use vstd::prelude::*;
use vstd::utf8::{decode_utf8, encode_utf8, valid_utf8};

use crate::codec::{
    aes128_cbc_pkcs7_decrypt, aes128_cbc_pkcs7_decrypted, base64_decode, base64_decoded, utf8_text,
    zlib_decompress, zlib_inflated,
};
use crate::json::{Json, JsonModel, get, has_key, key_index, lemma_object_model};
use crate::text::{chars_eq, chars_of, string_from_chars, trim, trim_chars};

verus! {

broadcast use vstd::std_specs::vec::group_vec_axioms;

/// The protocol key as the program stores it, each byte masked.
pub open spec fn masked_protocol_key() -> Seq<u8> {
    seq![224u8, 213u8, 147u8, 244u8, 149u8, 194u8, 206u8, 233u8, 203u8, 144u8, 221u8, 214u8, 146u8, 234u8, 213u8, 242u8]
}

/// The AES-128 key of the game's responses: the stored bytes unmasked with 0xA7.
pub open spec fn protocol_key_bytes() -> Seq<u8> {
    masked_protocol_key().map_values(|b: u8| b ^ 0xA7u8)
}

/// The all-zero initialisation vector of the game's responses.
pub open spec fn zero_iv() -> Seq<u8> {
    Seq::new(16, |i: int| 0u8)
}

/// The AES-128 key of the game's responses.
pub fn protocol_key() -> (key: [u8; 16])
    ensures
        key@ == protocol_key_bytes(),
{
    let m: [u8; 16] = [224, 213, 147, 244, 149, 194, 206, 233, 203, 144, 221, 214, 146, 234, 213, 242];
    let key: [u8; 16] = [
        m[0] ^ 0xA7,
        m[1] ^ 0xA7,
        m[2] ^ 0xA7,
        m[3] ^ 0xA7,
        m[4] ^ 0xA7,
        m[5] ^ 0xA7,
        m[6] ^ 0xA7,
        m[7] ^ 0xA7,
        m[8] ^ 0xA7,
        m[9] ^ 0xA7,
        m[10] ^ 0xA7,
        m[11] ^ 0xA7,
        m[12] ^ 0xA7,
        m[13] ^ 0xA7,
        m[14] ^ 0xA7,
        m[15] ^ 0xA7,
    ];
    assert(m@ =~= masked_protocol_key());
    assert(key@ =~= protocol_key_bytes());
    key
}

/// Why a response body is no profile.
#[derive(Debug, Clone, Copy, PartialEq, Eq)]
pub enum DecodeError {
    /// The body is not UTF-8 text.
    NotText,
    /// The trimmed text is not standard Base64.
    NotBase64,
    /// The bytes do not decrypt, or their padding is wrong.
    Undecryptable,
    /// The decrypted bytes are not a zlib stream.
    NotCompressed,
}

/// The JSON text that a response body carries: UTF-8 text, trimmed, Base64
/// decoded, AES-128-CBC decrypted with the protocol key and a zero IV, then
/// zlib inflated.
pub open spec fn profile_payload(body: Seq<u8>) -> Result<Seq<u8>, DecodeError> {
    if !valid_utf8(body) {
        Err(DecodeError::NotText)
    } else {
        match base64_decoded(encode_utf8(trim(decode_utf8(body)))) {
            None => Err(DecodeError::NotBase64),
            Some(encrypted) => match aes128_cbc_pkcs7_decrypted(protocol_key_bytes(), zero_iv(), encrypted) {
                None => Err(DecodeError::Undecryptable),
                Some(compressed) => match zlib_inflated(compressed) {
                    None => Err(DecodeError::NotCompressed),
                    Some(json) => Ok(json),
                },
            },
        }
    }
}

/// Decodes a response body of the game into the JSON text it carries.
pub fn decode_profile(encoded_body: &[u8]) -> (r: Result<Vec<u8>, DecodeError>)
    ensures
        match r {
            Ok(v) => profile_payload(encoded_body@) == Ok::<Seq<u8>, DecodeError>(v@),
            Err(e) => profile_payload(encoded_body@) == Err::<Seq<u8>, DecodeError>(e),
        },
{
    let text = match utf8_text(encoded_body) {
        Some(t) => t,
        None => return Err(DecodeError::NotText),
    };
    let chars = chars_of(text.as_str());
    let trimmed = string_from_chars(&trim_chars(&chars));
    let encrypted = match base64_decode(trimmed.as_str().as_bytes()) {
        Some(e) => e,
        None => return Err(DecodeError::NotBase64),
    };
    let key = protocol_key();
    let iv = [0u8; 16];
    assert(iv@ =~= zero_iv());
    let compressed = match aes128_cbc_pkcs7_decrypt(&key, &iv, encrypted) {
        Some(c) => c,
        None => return Err(DecodeError::Undecryptable),
    };
    match zlib_decompress(compressed.as_slice()) {
        Some(json) => Ok(json),
        None => Err(DecodeError::NotCompressed),
    }
}

/// Why a decoded response is not a login profile.
#[derive(Debug, Clone, Copy, PartialEq, Eq)]
pub enum ProfileError {
    NotAnObject,
    MissingCommand,
    NotALoginProfile,
    MissingBuildingList,
    MissingUnitList,
    MissingRunes,
}

impl ProfileError {
    /// The message shown for this error.
    pub fn message(&self) -> (m: &'static str)
        ensures
            m@ == match self {
                ProfileError::NotAnObject => "la réponse du profil n'est pas un objet JSON"@,
                ProfileError::MissingCommand => "commande de profil absente"@,
                ProfileError::NotALoginProfile => "la réponse reçue n'est pas un profil de connexion"@,
                ProfileError::MissingBuildingList => "profil incomplet : building_list est absent"@,
                ProfileError::MissingUnitList => "profil incomplet : unit_list est absent"@,
                ProfileError::MissingRunes => "profil incomplet : runes est absent"@,
            },
    {
        match self {
            ProfileError::NotAnObject => "la réponse du profil n'est pas un objet JSON",
            ProfileError::MissingCommand => "commande de profil absente",
            ProfileError::NotALoginProfile => "la réponse reçue n'est pas un profil de connexion",
            ProfileError::MissingBuildingList => "profil incomplet : building_list est absent",
            ProfileError::MissingUnitList => "profil incomplet : unit_list est absent",
            ProfileError::MissingRunes => "profil incomplet : runes est absent",
        }
    }
}

/// The commands whose response is a login profile.
pub open spec fn is_login_command(command: Seq<char>) -> bool {
    command == "HubUserLogin"@ || command == "GuestLogin"@
}

/// Whether `command` answers a login.
pub fn login_command(command: &str) -> (r: bool)
    ensures
        r == is_login_command(command@),
{
    let c = chars_of(command);
    let hub = chars_of("HubUserLogin");
    let guest = chars_of("GuestLogin");
    chars_eq(&c, &hub) || chars_eq(&c, &guest)
}

/// Member `key` holds an array.
pub open spec fn holds_array(profile: JsonModel, key: Seq<char>) -> bool {
    get(profile, key) matches Some(JsonModel::Array(_))
}

/// The verdict on a decoded response: a login profile is an object whose
/// `command` is a login command and that has the arrays `building_list` and
/// `unit_list` and a member `runes`.
pub open spec fn profile_verdict(profile: JsonModel) -> Result<(), ProfileError> {
    match profile {
        JsonModel::Object(entries) => match get(profile, "command"@) {
            Some(JsonModel::Str(command)) => if !is_login_command(command) {
                Err(ProfileError::NotALoginProfile)
            } else if !holds_array(profile, "building_list"@) {
                Err(ProfileError::MissingBuildingList)
            } else if !holds_array(profile, "unit_list"@) {
                Err(ProfileError::MissingUnitList)
            } else if !has_key(entries, "runes"@) {
                Err(ProfileError::MissingRunes)
            } else {
                Ok(())
            },
            _ => Err(ProfileError::MissingCommand),
        },
        _ => Err(ProfileError::NotAnObject),
    }
}

/// Checks that a decoded response is a login profile with what an export needs.
pub fn validate_profile(profile: &Json) -> (r: Result<(), ProfileError>)
    ensures
        r == profile_verdict(profile@),
{
    let entries = match profile {
        Json::Object(entries) => entries,
        _ => return Err(ProfileError::NotAnObject),
    };
    proof {
        lemma_object_model(*entries);
    }
    let command = match profile.get("command") {
        Some(v) => match v.as_str() {
            Some(c) => c,
            None => return Err(ProfileError::MissingCommand),
        },
        None => return Err(ProfileError::MissingCommand),
    };
    if !login_command(command) {
        return Err(ProfileError::NotALoginProfile);
    }
    let buildings_ok = match profile.get("building_list") {
        Some(v) => v.is_array(),
        None => false,
    };
    if !buildings_ok {
        return Err(ProfileError::MissingBuildingList);
    }
    let units_ok = match profile.get("unit_list") {
        Some(v) => v.is_array(),
        None => false,
    };
    if !units_ok {
        return Err(ProfileError::MissingUnitList);
    }
    if key_index(entries, "runes").is_none() {
        return Err(ProfileError::MissingRunes);
    }
    Ok(())
}

/// The bytes of the game's key `Gr4S2eiNl7zq5MrU`.
pub open spec fn game_key_text_bytes() -> Seq<u8> {
    seq![71u8, 114u8, 52u8, 83u8, 50u8, 101u8, 105u8, 78u8, 108u8, 55u8, 122u8, 113u8, 53u8, 77u8, 114u8, 85u8]
}

/// The stored key, once unmasked, is the game's key `Gr4S2eiNl7zq5MrU`.
pub proof fn lemma_protocol_key_is_the_game_key()
    ensures
        protocol_key_bytes() == game_key_text_bytes(),
{
    assert(224u8 ^ 0xA7u8 == 71u8) by (bit_vector);
    assert(213u8 ^ 0xA7u8 == 114u8) by (bit_vector);
    assert(147u8 ^ 0xA7u8 == 52u8) by (bit_vector);
    assert(244u8 ^ 0xA7u8 == 83u8) by (bit_vector);
    assert(149u8 ^ 0xA7u8 == 50u8) by (bit_vector);
    assert(194u8 ^ 0xA7u8 == 101u8) by (bit_vector);
    assert(206u8 ^ 0xA7u8 == 105u8) by (bit_vector);
    assert(233u8 ^ 0xA7u8 == 78u8) by (bit_vector);
    assert(203u8 ^ 0xA7u8 == 108u8) by (bit_vector);
    assert(144u8 ^ 0xA7u8 == 55u8) by (bit_vector);
    assert(221u8 ^ 0xA7u8 == 122u8) by (bit_vector);
    assert(214u8 ^ 0xA7u8 == 113u8) by (bit_vector);
    assert(146u8 ^ 0xA7u8 == 53u8) by (bit_vector);
    assert(234u8 ^ 0xA7u8 == 77u8) by (bit_vector);
    assert(213u8 ^ 0xA7u8 == 114u8) by (bit_vector);
    assert(242u8 ^ 0xA7u8 == 85u8) by (bit_vector);
    assert(protocol_key_bytes() =~= game_key_text_bytes());
}

/// A response body that is the Base64 text (possibly surrounded by white
/// space) of a zlib stream encrypted with AES-128-CBC and PKCS#7 padding
/// under the game's key `Gr4S2eiNl7zq5MrU` and an all-zero IV decodes to the
/// stream's content.
pub proof fn lemma_game_response_decodes(body: Seq<u8>, encrypted: Seq<u8>, compressed: Seq<u8>, json: Seq<u8>)
    requires
        valid_utf8(body),
        base64_decoded(encode_utf8(trim(decode_utf8(body)))) == Some(encrypted),
        aes128_cbc_pkcs7_decrypted(game_key_text_bytes(), Seq::new(16, |i: int| 0u8), encrypted) == Some(compressed),
        zlib_inflated(compressed) == Some(json),
    ensures
        profile_payload(body) == Ok::<Seq<u8>, DecodeError>(json),
{
    lemma_protocol_key_is_the_game_key();
    assert(zero_iv() =~= Seq::new(16, |i: int| 0u8));
}

/// Decoding refuses exactly the bodies whose decryption under the game's
/// key and a zero IV fails, once they are Base64 text.
pub proof fn lemma_game_response_undecryptable(body: Seq<u8>, encrypted: Seq<u8>)
    requires
        valid_utf8(body),
        base64_decoded(encode_utf8(trim(decode_utf8(body)))) == Some(encrypted),
    ensures
        (profile_payload(body) == Err::<Seq<u8>, DecodeError>(DecodeError::Undecryptable))
            <==> aes128_cbc_pkcs7_decrypted(game_key_text_bytes(), Seq::new(16, |i: int| 0u8), encrypted) is None,
{
    lemma_protocol_key_is_the_game_key();
    assert(zero_iv() =~= Seq::new(16, |i: int| 0u8));
}

} // verus!
