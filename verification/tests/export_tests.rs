use serde_json::Value;
use std::collections::BTreeSet;
use std::path::Path;
use swagex::canonical::canonicalize_profile;
use swagex::export::{export_path_to_reveal, plan_profile_export, sanitize_filename};
use swagex::json::{Json, JsonEntry, JsonNumber};
use swagex::paths::exports_directory;

fn to_json(value: &Value) -> Json {
    match value {
        Value::Null => Json::Null,
        Value::Bool(b) => Json::Bool(*b),
        Value::Number(n) => Json::Number(if let Some(i) = n.as_i64() {
            JsonNumber::Int(i)
        } else if let Some(u) = n.as_u64() {
            JsonNumber::BigUInt(u)
        } else {
            JsonNumber::Float(n.to_string())
        }),
        Value::String(s) => Json::Str(s.clone()),
        Value::Array(items) => Json::Array(items.iter().map(to_json).collect()),
        Value::Object(members) => Json::Object(
            members
                .iter()
                .map(|(key, value)| JsonEntry { key: key.clone(), value: to_json(value) })
                .collect(),
        ),
    }
}

fn parse(text: &str) -> Value {
    serde_json::from_str(text).unwrap()
}

fn profile_value(reverse: bool) -> Value {
    let mut units = vec![
        parse(
            r#"{
                "unit_id": 30, "class": 5, "unit_level": 40, "attribute": 2, "building_id": 1,
                "runes": [{ "rune_id": 302, "slot_no": 2 }, { "rune_id": 301, "slot_no": 1 }],
                "artifacts": [{ "rid": 302, "slot": 1 }, { "rid": 301, "slot": 0 }],
                "relics": [{ "rid": 402 }, { "rid": 401 }],
                "skills": [[30, 2], [30, 1]]
            }"#,
        ),
        parse(
            r#"{
                "unit_id": 10, "class": 6, "unit_level": 40, "attribute": 1, "building_id": 900,
                "runes": [{ "rune_id": 102, "slot_no": 2 }, { "rune_id": 101, "slot_no": 1 }],
                "artifacts": [], "relics": []
            }"#,
        ),
        parse(
            r#"{
                "unit_id": 20, "class": 6, "unit_level": 35, "attribute": 1, "building_id": 1,
                "runes": [], "artifacts": [], "relics": []
            }"#,
        ),
        parse(
            r#"{
                "unit_id": 11, "class": 6, "unit_level": 40, "attribute": 1, "building_id": 1,
                "runes": [], "artifacts": [], "relics": []
            }"#,
        ),
    ];
    let mut runes = vec![
        parse(r#"{ "rune_id": 3, "set_id": 2, "slot_no": 1 }"#),
        parse(r#"{ "rune_id": 1, "set_id": 1, "slot_no": 2 }"#),
        parse(r#"{ "rune_id": 2, "set_id": 1, "slot_no": 1 }"#),
    ];
    let mut crafts = vec![
        parse(r#"{ "craft_item_id": 2, "craft_type": 1 }"#),
        parse(r#"{ "craft_item_id": 1, "craft_type": 1 }"#),
    ];
    let mut artifacts = vec![parse(r#"{ "rid": 5 }"#), parse(r#"{ "rid": 3 }"#)];
    let mut relics = vec![parse(r#"{ "rid": 8 }"#), parse(r#"{ "rid": 6 }"#)];

    if reverse {
        units.reverse();
        runes.reverse();
        crafts.reverse();
        artifacts.reverse();
        relics.reverse();
    }

    let mut profile = parse(
        r#"{
            "command": "HubUserLogin",
            "wizard_info": { "wizard_id": 42, "wizard_name": "Test" },
            "building_list": [{ "building_master_id": 25, "building_id": 900 }],
            "deck_list": [{ "unit_id": 2 }, { "unit_id": 1 }],
            "guildsiege_defense_deck_list": [{ "unit_id": 4 }, { "unit_id": 3 }],
            "sec_eff": [[2, 20], [1, 10]],
            "sec_effects": [{ "id": 2 }, { "id": 1 }]
        }"#,
    );
    let members = profile.as_object_mut().unwrap();
    members.insert("unit_list".to_string(), Value::Array(units));
    members.insert("runes".to_string(), Value::Array(runes));
    members.insert("rune_craft_item_list".to_string(), Value::Array(crafts));
    members.insert("artifacts".to_string(), Value::Array(artifacts));
    members.insert("relics".to_string(), Value::Array(relics));
    profile
}

fn profile_with_resources(reverse: bool) -> Json {
    to_json(&profile_value(reverse))
}

fn items(value: &Json) -> &Vec<Json> {
    match value {
        Json::Array(items) => items,
        _ => panic!("not an array"),
    }
}

fn member<'a>(value: &'a Json, key: &str) -> &'a Json {
    value.get(key).unwrap()
}

fn ids_in_order(value: &Json, key: &str) -> Vec<i64> {
    items(value).iter().map(|item| item.number_field(key).unwrap()).collect()
}

fn ids(value: &Json, key: &str) -> BTreeSet<i64> {
    items(value).iter().filter_map(|item| item.number_field(key)).collect()
}

fn unit<'a>(profile: &'a Json, id: i64) -> &'a Json {
    items(member(profile, "unit_list"))
        .iter()
        .find(|unit| unit.number_field("unit_id") == Some(id))
        .unwrap()
}

fn canonical(profile: &Json) -> Json {
    let mut copy = profile.duplicate();
    canonicalize_profile(&mut copy);
    copy
}

fn exported_file_name(profile_text: &str) -> String {
    let profile = to_json(&parse(profile_text));
    let plan = plan_profile_export(&profile, "/tmp/swagex-exports").unwrap();
    Path::new(&plan.exported.path).file_name().unwrap().to_string_lossy().into_owned()
}

#[test]
fn preserves_the_account_name_when_it_ends_with_a_tilde() {
    let name = exported_file_name(
        r#"{
            "command": "HubUserLogin",
            "wizard_info": { "wizard_id": 65581, "wizard_name": "Berserk~" },
            "building_list": [],
            "unit_list": [],
            "runes": []
        }"#,
    );
    assert_eq!(name, "Berserk~-65581.json");
}

#[test]
fn does_not_add_a_tilde_to_an_account_name_that_has_none() {
    let name = exported_file_name(
        r#"{
            "command": "HubUserLogin",
            "wizard_info": { "wizard_id": 42, "wizard_name": "Berserk" },
            "building_list": [],
            "unit_list": [],
            "runes": []
        }"#,
    );
    assert_eq!(name, "Berserk-42.json");
}

#[test]
fn export_names_replace_path_separators_and_keep_unknown_members() {
    let profile = to_json(&parse(
        r#"{
            "command": "HubUserLogin",
            "wizard_info": { "wizard_id": 42, "wizard_name": "A/B" },
            "building_list": [],
            "unit_list": [],
            "runes": [],
            "unknown_future_field": { "kept": true }
        }"#,
    ));
    let original = profile.duplicate();
    let plan = plan_profile_export(&profile, "/tmp/swagex-exports").unwrap();
    assert_eq!(Path::new(&plan.exported.path).file_name().unwrap(), "A-B-42.json");
    assert_eq!(plan.exported.display_name, "A/B-42");
    assert_eq!(
        Path::new(&plan.temporary_path).file_name().unwrap(),
        ".swagex-42.tmp"
    );
    assert_eq!(plan.document, original);
    assert_eq!(profile, original);
}

#[test]
fn export_plan_holds_the_canonical_copy() {
    let profile = profile_with_resources(false);
    let original = profile.duplicate();
    let plan = plan_profile_export(&profile, "/tmp/swagex-exports").unwrap();
    assert_eq!(profile, original);
    assert_eq!(plan.document, canonical(&original));
}

#[test]
fn export_without_a_wizard_id_uses_the_fallback_names() {
    let profile = to_json(&parse(
        r#"{
            "command": "HubUserLogin",
            "wizard_info": { "wizard_name": "   " },
            "building_list": [],
            "unit_list": [],
            "runes": []
        }"#,
    ));
    let plan = plan_profile_export(&profile, "/tmp/swagex-exports").unwrap();
    assert_eq!(plan.exported.display_name, "Compte-profil");
    assert_eq!(Path::new(&plan.exported.path).file_name().unwrap(), "Compte-profil.json");
    assert_eq!(
        Path::new(&plan.temporary_path).file_name().unwrap(),
        ".swagex-profil.tmp"
    );
}

#[test]
fn export_refuses_a_profile_that_is_not_a_login() {
    let profile = to_json(&parse(
        r#"{ "command": "BattleStart", "building_list": [], "unit_list": [], "runes": [] }"#,
    ));
    assert!(plan_profile_export(&profile, "/tmp/swagex-exports").is_err());
}

#[test]
fn sanitizes_file_names() {
    assert_eq!(sanitize_filename("a:b*c?d\"e<f>g|h\\i/j"), "a-b-c-d-e-f-g-h-i-j");
    assert_eq!(sanitize_filename("  . name . "), "name");
    assert_eq!(sanitize_filename(" ... "), "Compte-profil");
    assert_eq!(sanitize_filename("tab\there"), "tab-here");
}

#[test]
fn preserves_resource_sets_and_applies_all_deterministic_orders() {
    let profile = profile_with_resources(false);
    let canonical = canonical(&profile);

    assert_eq!(ids(member(&profile, "runes"), "rune_id"), ids(member(&canonical, "runes"), "rune_id"));
    assert_eq!(ids(member(&profile, "artifacts"), "rid"), ids(member(&canonical, "artifacts"), "rid"));
    assert_eq!(ids(member(&profile, "relics"), "rid"), ids(member(&canonical, "relics"), "rid"));
    assert_eq!(
        ids(member(&profile, "rune_craft_item_list"), "craft_item_id"),
        ids(member(&canonical, "rune_craft_item_list"), "craft_item_id")
    );
    assert_eq!(ids_in_order(member(&canonical, "unit_list"), "unit_id"), vec![11, 20, 30, 10]);
    assert_eq!(ids_in_order(member(&canonical, "runes"), "rune_id"), vec![2, 1, 3]);
    assert_eq!(
        ids_in_order(member(&canonical, "rune_craft_item_list"), "craft_item_id"),
        vec![1, 2]
    );
    assert_eq!(ids_in_order(member(&canonical, "artifacts"), "rid"), vec![3, 5]);
    assert_eq!(ids_in_order(member(&canonical, "relics"), "rid"), vec![6, 8]);
    let canonical_unit_30 = unit(&canonical, 30);
    assert_eq!(ids_in_order(member(canonical_unit_30, "runes"), "rune_id"), vec![301, 302]);
    assert_eq!(ids_in_order(member(canonical_unit_30, "artifacts"), "rid"), vec![301, 302]);
    assert_eq!(ids_in_order(member(canonical_unit_30, "relics"), "rid"), vec![401, 402]);
    assert_eq!(
        ids(member(&items(member(&profile, "unit_list"))[0], "runes"), "rune_id"),
        ids(member(canonical_unit_30, "runes"), "rune_id")
    );
    assert_eq!(member(unit(&canonical, 30), "skills"), member(unit(&profile, 30), "skills"));
}

#[test]
fn equivalent_resource_permutations_have_identical_exports() {
    let first = canonical(&profile_with_resources(false));
    let second = canonical(&profile_with_resources(true));
    assert_eq!(first, second);
}

#[test]
fn canonicalization_is_idempotent_and_keeps_business_ordered_lists() {
    let once = canonical(&profile_with_resources(false));
    let original = profile_with_resources(false);
    let twice = canonical(&once);
    assert_eq!(once, twice);
    for key in ["deck_list", "guildsiege_defense_deck_list", "sec_eff", "sec_effects"] {
        assert_eq!(member(&twice, key), member(&once, key));
        assert_eq!(member(&once, key), member(&original, key));
    }
}

#[test]
fn converts_object_form_runes_to_arrays_on_the_export_copy() {
    let mut value = profile_value(false);
    value["runes"] = parse(
        r#"{
            "first": { "rune_id": 2, "set_id": 1, "slot_no": 1 },
            "second": { "rune_id": 1, "set_id": 1, "slot_no": 2 }
        }"#,
    );
    value["unit_list"][0]["runes"] = parse(
        r#"{
            "first": { "rune_id": 302, "slot_no": 2 },
            "second": { "rune_id": 301, "slot_no": 1 }
        }"#,
    );
    let profile = to_json(&value);
    let original = profile.duplicate();
    let export_copy = canonical(&profile);

    assert!(member(&original, "runes").is_object());
    assert_eq!(profile, original);
    assert!(member(&export_copy, "runes").is_array());
    let unit_with_object_runes = unit(&export_copy, 30);
    assert!(member(unit_with_object_runes, "runes").is_array());
    assert_eq!(items(member(&export_copy, "runes"))[0].number_field("rune_id"), Some(2));
    assert_eq!(items(member(unit_with_object_runes, "runes"))[0].number_field("rune_id"), Some(301));
}

#[test]
fn storage_units_come_last_whatever_their_grade() {
    let profile = to_json(&parse(
        r#"{
            "building_list": [
                { "building_master_id": 25, "building_id": 7 },
                { "building_master_id": 3, "building_id": 8 }
            ],
            "unit_list": [
                { "unit_id": 1, "class": 6, "unit_level": 40, "attribute": 1, "building_id": 7 },
                { "unit_id": 2, "class": 1, "unit_level": 1, "attribute": 1, "building_id": 8 },
                { "unit_id": 3, "class": 6 }
            ]
        }"#,
    ));
    let canonical = canonical(&profile);
    assert_eq!(ids_in_order(member(&canonical, "unit_list"), "unit_id"), vec![3, 2, 1]);
}

#[test]
fn rejects_an_empty_export_path_without_launching_the_file_manager() {
    assert!(export_path_to_reveal(String::new()).is_err());
}

#[test]
fn reveals_a_given_export_path_and_names_the_empty_one() {
    assert_eq!(export_path_to_reveal("/tmp/a.json".to_string()), Ok("/tmp/a.json".to_string()));
    assert_eq!(
        export_path_to_reveal(String::new()),
        Err("Le chemin de l’export est introuvable".to_string())
    );
}

#[test]
fn exports_stay_in_the_app_private_directory() {
    let app_data = "/tmp/swagex-app-data";
    assert_eq!(
        Path::new(&exports_directory(app_data)),
        Path::new(app_data).join("exports")
    );
}
