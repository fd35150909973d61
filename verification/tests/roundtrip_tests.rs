use aes::Aes256;
use base64::Engine;
use cipher::block_padding::Pkcs7;
use cipher::BlockEncryptMut;
use cipher::KeyInit;

use silksongtool::decrypt_save_file;
use silksongtool::json::JsonNumber;
use silksongtool::json::JsonValue;
use silksongtool::parser::ParseError;
use silksongtool::SaveFile;

const KEY: &[u8; 32] = b"UKu52ePUBwetZ9wNX88o54dnfKRu0T1l";

/// Frame a JSON text as a full save container: 25 header bytes, the
/// base64 of its AES-256-ECB/PKCS#7 encryption, one trailer byte.
fn make_container(json: &str) -> Vec<u8> {
    let msg = json.as_bytes();
    let padded_len = (msg.len() / 16 + 1) * 16;
    let mut buf = vec![0u8; padded_len];
    buf[..msg.len()].copy_from_slice(msg);
    let ct = ecb::Encryptor::<Aes256>::new(KEY.into())
        .encrypt_padded_mut::<Pkcs7>(&mut buf, msg.len())
        .unwrap()
        .to_vec();
    let b64 = base64::engine::general_purpose::STANDARD.encode(&ct);
    let mut out = vec![0x2au8; 25];
    out.extend_from_slice(b64.as_bytes());
    out.push(0x2a);
    out
}

#[test]
fn decrypt_recovers_the_plaintext() {
    let json = r#"{"playerData":{"health":5,"version":"1.0"}}"#;
    let container = make_container(json);
    let plain = decrypt_save_file(&container).unwrap();
    assert_eq!(plain, json.as_bytes());
}

#[test]
fn round_trip_document_matches() {
    // serde_json keeps object members in sorted key order.
    let json = r#"{"playerData":{"geo":12,"version":"1.0"}}"#;
    let container = make_container(json);
    let plain = decrypt_save_file(&container).unwrap();
    let sf = SaveFile::from_bytes(&plain).unwrap();
    let expected = JsonValue::Obj(vec![(
        "playerData".to_string(),
        JsonValue::Obj(vec![
            ("geo".to_string(), JsonValue::Num(JsonNumber { text: "12".to_string() })),
            ("version".to_string(), JsonValue::Str("1.0".to_string())),
        ]),
    )]);
    assert_eq!(sf.raw_json, expected);
    assert_eq!(sf.player_data.geo, 12);
    assert_eq!(sf.player_data.version, "1.0");
}

#[test]
fn round_trip_fields_match_the_source_document() {
    let json = r#"{"playerData":{"version":"1.0.2","permadeathMode":false,"completionPercentage":3.5,"playTime":61.0,"health":5,"maxHealth":5,"silk":3,"silkMax":3,"silkRegenMax":0,"geo":77,"ShellShards":2,"currentArea":"Moss Grotto","mapZone":2,"atBench":false,"CurrentCrestID":"Reaper","respawnScene":"Tut_01","respawnType":0,"respawnMarkerName":"Death Respawn Marker Init","Tools":{"savedData":[{"Name":"Straight Pin","Data":{"AmountLeft":9,"HasBeenSeen":true,"HasBeenSelected":true,"IsHidden":false,"IsUnlocked":true}}]}}}"#;
    let container = make_container(json);
    let plain = decrypt_save_file(&container).unwrap();
    let sf = SaveFile::from_bytes(&plain).unwrap();
    let p = &sf.player_data;
    assert_eq!(p.version, "1.0.2");
    assert!(!p.permadeath_mode);
    assert_eq!(p.completion_percentage.text, "3.5");
    assert_eq!(p.play_time_seconds.text, "61.0");
    assert_eq!(p.play_time_formatted(), "00h 01m 01s");
    assert_eq!(p.health, 5);
    assert_eq!(p.max_health, 5);
    assert_eq!(p.silk, 3);
    assert_eq!(p.max_silk, 3);
    assert_eq!(p.silk_regen_max, 0);
    assert_eq!(p.geo, 77);
    assert_eq!(p.shell_shards, 2);
    assert_eq!(p.current_area, "Moss Grotto");
    assert_eq!(p.map_zone, 2);
    assert!(!p.at_bench);
    assert_eq!(p.current_crest_id, "Reaper");
    assert_eq!(p.respawn_scene, "Tut_01");
    assert_eq!(p.respawn_type, 0);
    assert_eq!(p.respawn_marker_name, "Death Respawn Marker Init");
    assert_eq!(p.tools.len(), 1);
    assert_eq!(p.tools[0].name, "Straight Pin");
    assert_eq!(p.tools[0].data.amount_left, 9);
}

#[test]
fn pipeline_is_idempotent() {
    let json = r#"{"playerData":{"playTime":3661.0,"version":"1.0"}}"#;
    let container = make_container(json);
    let p1 = decrypt_save_file(&container).unwrap();
    let p2 = decrypt_save_file(&container).unwrap();
    assert_eq!(p1, p2);
    let s1 = SaveFile::from_bytes(&p1).unwrap();
    let s2 = SaveFile::from_bytes(&p2).unwrap();
    assert_eq!(s1, s2);
}

#[test]
fn decrypted_non_player_document_is_all_defaults() {
    let container = make_container(r#"{"not":"playerData"}"#);
    let plain = decrypt_save_file(&container).unwrap();
    let sf = SaveFile::from_bytes(&plain).unwrap();
    assert_eq!(sf.player_data.version, "");
    assert_eq!(sf.player_data.health, 0);
    assert_eq!(sf.player_data.tools.len(), 0);
}

#[test]
fn decrypted_garbage_text_is_malformed_document() {
    let container = make_container("this is not json");
    let plain = decrypt_save_file(&container).unwrap();
    let result = SaveFile::from_bytes(&plain);
    assert!(matches!(result, Err(ParseError::MalformedDocument)));
}

#[test]
fn corrupted_ciphertext_fails_decryption() {
    let json = r#"{"playerData":{}}"#;
    let mut container = make_container(json);
    // Flip bits inside the base64 region, keeping it valid base64 of a
    // block-aligned buffer, so only the padding check can catch it.
    let idx = container.len() - 3;
    container[idx] = if container[idx] == b'B' { b'C' } else { b'B' };
    let result = decrypt_save_file(&container);
    assert!(result.is_err());
}
