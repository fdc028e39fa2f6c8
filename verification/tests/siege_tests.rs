use serde_json::Value;
use std::path::Path;
use swagex::json::{Json, JsonEntry, JsonNumber};
use swagex::siege::{siege_display_name, SiegeCapture, SiegeProgress};

fn to_json(value: &Value) -> Json {
    match value {
        Value::Null => Json::Null,
        Value::Bool(b) => Json::Bool(*b),
        Value::Number(n) => Json::Number(if let Some(i) = n.as_i64() {
            JsonNumber::Int(i)
        } else if let Some(u) = n.as_u64() {
            JsonNumber::BigUInt(u)
        } else {
            JsonNumber::Float(n.to_string())
        }),
        Value::String(s) => Json::Str(s.clone()),
        Value::Array(items) => Json::Array(items.iter().map(to_json).collect()),
        Value::Object(members) => Json::Object(
            members
                .iter()
                .map(|(key, value)| JsonEntry { key: key.clone(), value: to_json(value) })
                .collect(),
        ),
    }
}

fn json(text: &str) -> Json {
    to_json(&serde_json::from_str::<Value>(text).unwrap())
}

#[test]
fn ignores_a_defense_list_that_is_not_part_of_the_three_step_export() {
    let mut capture = SiegeCapture::default();
    let progress = capture.observe(&json(r#"{ "command": "GetGuildSiegeBaseDefenseUnitListPreset" }"#));

    assert_eq!(progress, SiegeProgress::default());
}

#[test]
fn formats_the_siege_filename_with_the_local_capture_date() {
    assert_eq!(siege_display_name(2026, 8, 6), "siege-060826");
}

#[test]
fn formats_years_before_the_common_era_on_two_digits() {
    assert_eq!(siege_display_name(-1, 12, 31), "siege-311299");
    assert_eq!(siege_display_name(2000, 2, 29), "siege-290200");
}

#[test]
fn plans_one_export_of_the_three_siege_steps() {
    let mut capture = SiegeCapture::default();
    let matchup = json(r#"{ "command": "GetGuildSiegeMatchupInfo", "ret_code": 0, "match_info": { "match_id": 123456 } }"#);
    capture.observe(&matchup);
    assert!(capture.plan_export(2026, 8, 6, "/tmp/sieges").is_none());
    capture.observe(&json(r#"{ "command": "GetGuildSiegeBattleLog", "log_type": 1, "log_list": [] }"#));
    let progress =
        capture.observe(&json(r#"{ "command": "GetGuildSiegeBattleLog", "log_type": 2, "log_list": [] }"#));
    assert!(progress.is_complete());

    let plan = capture.plan_export(2026, 8, 6, "/tmp/sieges").unwrap();
    let file_name = Path::new(&plan.exported.path).file_name().unwrap().to_string_lossy().into_owned();
    assert_eq!(file_name, "siege-060826.json");
    assert_eq!(plan.exported.display_name, "siege-060826");
    assert_eq!(
        Path::new(&plan.temporary_path).file_name().unwrap(),
        ".swagex-siege-060826.tmp"
    );
    let document = plan.document;
    let matchup_info = document.get("matchup_info").unwrap();
    assert_eq!(matchup_info.get("match_info").unwrap().number_field("match_id"), Some(123456));
    assert!(document.get("attack_log").unwrap().is_object());
    assert!(document.get("defense_log").unwrap().is_object());
    assert!(document.get("defense_list").is_none());

    capture.mark_exported();
    assert!(capture.plan_export(2026, 8, 6, "/tmp/sieges").is_none());
}

#[test]
fn a_failed_matchup_is_not_kept() {
    let mut capture = SiegeCapture::new();
    let progress = capture.observe(&json(r#"{ "command": "GetGuildSiegeMatchupInfo", "ret_code": 3 }"#));
    assert!(!progress.matchup_captured);
    let progress = capture.observe(&json(r#"{ "command": "GetGuildSiegeBattleLog", "log_type": 3 }"#));
    assert_eq!(progress, SiegeProgress::default());
    let progress = capture.observe(&json(r#"{ "command": "GetGuildSiegeMatchupInfo" }"#));
    assert!(progress.matchup_captured);
    assert_eq!(capture.progress(), progress);
}
