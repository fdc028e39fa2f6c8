use base64::engine::general_purpose::STANDARD;
use base64::Engine;
use cbc::cipher::{block_padding::Pkcs7, BlockEncryptMut, KeyIvInit};
use flate2::{write::ZlibEncoder, Compression};
use serde_json::Value;
use std::io::Write;
use swagex::json::{Json, JsonEntry, JsonNumber};
use swagex::protocol::{decode_profile, login_command, protocol_key, validate_profile, DecodeError, ProfileError};

type Aes128CbcEncryptor = cbc::Encryptor<aes::Aes128>;

fn to_json(value: &Value) -> Json {
    match value {
        Value::Null => Json::Null,
        Value::Bool(b) => Json::Bool(*b),
        Value::Number(n) => Json::Number(if let Some(i) = n.as_i64() {
            JsonNumber::Int(i)
        } else if let Some(u) = n.as_u64() {
            JsonNumber::BigUInt(u)
        } else {
            JsonNumber::Float(n.to_string())
        }),
        Value::String(s) => Json::Str(s.clone()),
        Value::Array(items) => Json::Array(items.iter().map(to_json).collect()),
        Value::Object(members) => Json::Object(
            members
                .iter()
                .map(|(key, value)| JsonEntry { key: key.clone(), value: to_json(value) })
                .collect(),
        ),
    }
}

fn encode_body(payload: &[u8]) -> String {
    let mut encoder = ZlibEncoder::new(Vec::new(), Compression::default());
    encoder.write_all(payload).unwrap();
    let compressed = encoder.finish().unwrap();

    let key = protocol_key();
    let iv = [0_u8; 16];
    let mut buffer = vec![0_u8; compressed.len() + 16];
    buffer[..compressed.len()].copy_from_slice(&compressed);
    let encrypted = Aes128CbcEncryptor::new(&key.into(), &iv.into())
        .encrypt_padded_mut::<Pkcs7>(&mut buffer, compressed.len())
        .unwrap();
    STANDARD.encode(encrypted)
}

#[test]
fn decodes_a_profile_response() {
    let expected: Value = serde_json::from_str(
        r#"{
            "command": "HubUserLogin",
            "wizard_info": { "wizard_id": 42, "wizard_name": "Test" },
            "building_list": [],
            "unit_list": [],
            "runes": []
        }"#,
    )
    .unwrap();
    let serialized = serde_json::to_vec(&expected).unwrap();
    let encoded = encode_body(&serialized);

    let decoded: Value = serde_json::from_slice(&decode_profile(encoded.as_bytes()).unwrap()).unwrap();
    assert_eq!(decoded, expected);
    validate_profile(&to_json(&decoded)).unwrap();
}

#[test]
fn decoding_trims_the_text_around_the_base64() {
    let encoded = format!("  \n{}\r\n", encode_body(b"{}"));
    assert_eq!(decode_profile(encoded.as_bytes()), Ok(b"{}".to_vec()));
}

#[test]
fn reports_each_decoding_failure() {
    assert_eq!(decode_profile(&[0xff, 0xfe]), Err(DecodeError::NotText));
    assert_eq!(decode_profile(b"not base64!"), Err(DecodeError::NotBase64));
    assert_eq!(decode_profile(STANDARD.encode([1u8, 2, 3]).as_bytes()), Err(DecodeError::Undecryptable));
    let key = protocol_key();
    let iv = [0_u8; 16];
    let mut buffer = vec![0_u8; 32];
    buffer[..5].copy_from_slice(b"plain");
    let encrypted = Aes128CbcEncryptor::new(&key.into(), &iv.into())
        .encrypt_padded_mut::<Pkcs7>(&mut buffer, 5)
        .unwrap();
    assert_eq!(decode_profile(STANDARD.encode(encrypted).as_bytes()), Err(DecodeError::NotCompressed));
}

#[test]
fn the_protocol_key_is_unmasked() {
    let key = protocol_key();
    assert_eq!(key.len(), 16);
    assert_ne!(key, [0u8; 16]);
}

#[test]
fn refuses_an_unrelated_response() {
    let value: Value = serde_json::from_str(
        r#"{ "command": "BattleStart", "building_list": [], "unit_list": [], "runes": [] }"#,
    )
    .unwrap();
    assert!(validate_profile(&to_json(&value)).is_err());
}

fn verdict(text: &str) -> Result<(), ProfileError> {
    let value: Value = serde_json::from_str(text).unwrap();
    validate_profile(&to_json(&value))
}

#[test]
fn names_what_a_profile_lacks() {
    assert_eq!(verdict("[]"), Err(ProfileError::NotAnObject));
    assert_eq!(verdict(r#"{ "command": 3 }"#), Err(ProfileError::MissingCommand));
    assert_eq!(verdict(r#"{ "command": "BattleStart" }"#), Err(ProfileError::NotALoginProfile));
    assert_eq!(verdict(r#"{ "command": "GuestLogin" }"#), Err(ProfileError::MissingBuildingList));
    assert_eq!(
        verdict(r#"{ "command": "GuestLogin", "building_list": {} }"#),
        Err(ProfileError::MissingBuildingList)
    );
    assert_eq!(
        verdict(r#"{ "command": "GuestLogin", "building_list": [] }"#),
        Err(ProfileError::MissingUnitList)
    );
    assert_eq!(
        verdict(r#"{ "command": "GuestLogin", "building_list": [], "unit_list": [] }"#),
        Err(ProfileError::MissingRunes)
    );
    assert_eq!(
        verdict(r#"{ "command": "GuestLogin", "building_list": [], "unit_list": [], "runes": null }"#),
        Ok(())
    );
    assert_eq!(ProfileError::MissingRunes.message(), "profil incomplet : runes est absent");
}

#[test]
fn recognises_login_commands() {
    assert!(login_command("HubUserLogin"));
    assert!(login_command("GuestLogin"));
    assert!(!login_command("hubuserlogin"));
}
