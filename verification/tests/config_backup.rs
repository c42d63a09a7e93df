use codex_plus_core::config_backup::{
    automatic_backup_name, backup_fits, check_backup, collect_backup, default_script_config,
    default_settings, list_script, object_error_message, read_json_object_or_default, validate_backup,
    validate_script_name, BackupError, ConfigBackup, ObjectError, UserScriptBackup, BACKUP_FORMAT,
    MAX_BACKUP_BYTES, SCHEMA_VERSION,
};
use codex_plus_core::config_import::{
    import_result, plan_import, removes_script, staging_extension,
};
use codex_plus_core::json::{compact_json, parse_json, Json};
use codex_plus_core::platform::Platform;

fn script(name: &str, contents: &str) -> UserScriptBackup {
    UserScriptBackup {
        name: name.to_string(),
        contents: contents.to_string(),
    }
}

fn backup(files: Vec<UserScriptBackup>) -> ConfigBackup {
    collect_backup(
        "1.0.0",
        1,
        default_settings(),
        None,
        None,
        default_settings(),
        files,
    )
}

fn compact(json: &Json) -> String {
    String::from_utf8(compact_json(json)).unwrap()
}

#[test]
fn full_config_round_trip_restores_all_files() {
    let settings =
        read_json_object_or_default(Some(r#"{"providerSyncEnabled":false,"unknown":7}"#), default_settings())
            .unwrap();
    let script_config =
        read_json_object_or_default(Some(r#"{"enabled":true}"#), default_script_config()).unwrap();
    let backup = collect_backup(
        "1.2.49",
        1,
        settings,
        Some("model = \"test\"\n".to_string()),
        Some(r#"{"OPENAI_API_KEY":"secret"}"#.to_string()),
        script_config,
        vec![script("example.js", "console.log('before');")],
    );
    assert_eq!(backup.user_scripts.files.len(), 1);

    validate_backup(&backup, true, Platform::Other).unwrap();
    let plan = plan_import(backup);
    let settings = parse_json(&String::from_utf8(plan.settings).unwrap()).unwrap();
    assert_eq!(settings.get("unknown").unwrap().unsigned(), Some(7));
    assert_eq!(settings.boolean_at("providerSyncEnabled"), Some(false));
    assert_eq!(plan.config_toml.as_deref(), Some("model = \"test\"\n"));
    assert_eq!(plan.auth_json.as_deref(), Some(r#"{"OPENAI_API_KEY":"secret"}"#));
    assert_eq!(plan.script_config, b"{\n  \"enabled\": true\n}".to_vec());
    assert!(!removes_script(Some("js"), Some("example.js"), &plan.scripts));
    assert!(removes_script(Some("js"), Some("extra.js"), &plan.scripts));
    assert_eq!(plan.scripts[0].contents, "console.log('before');");
}

#[test]
fn import_rejects_script_path_traversal_before_writing() {
    let backup = backup(vec![script("../bad.js", "bad")]);
    let error = validate_backup(&backup, true, Platform::Other).unwrap_err();
    assert!(matches!(error, BackupError::InvalidScriptName(_)));
    assert_eq!(error.message(), "invalid user script filename: ../bad.js");
}

#[test]
fn backups_are_refused_for_the_first_reason() {
    let message = |backup: &ConfigBackup, settings_valid: bool| {
        validate_backup(backup, settings_valid, Platform::Other).unwrap_err().message()
    };
    let mut bad = backup(vec![script("A.js", ""), script("a.js", "")]);
    assert_eq!(message(&bad, true), "duplicate user script in backup: a.js");
    bad.codex_live.auth_json = Some("{".to_string());
    assert_eq!(message(&bad, true), "backup auth.json is invalid");
    bad.codex_live.config_toml = Some("a = = 1".to_string());
    assert_eq!(message(&bad, true), "backup config.toml is invalid");
    bad.user_scripts.config = parse_json("[]").unwrap();
    assert_eq!(message(&bad, true), "backup user script config must be a JSON object");
    assert_eq!(message(&bad, false), "backup settings are invalid");
    bad.settings = Json::Null;
    assert_eq!(message(&bad, false), "backup settings must be a JSON object");
    bad.schema_version = 2;
    assert_eq!(message(&bad, true), "unsupported backup schema version: 2");
    bad.format = "other".to_string();
    assert_eq!(message(&bad, true), "unsupported backup format: other");
    assert!(check_backup(&backup(vec![]), true, true, true, Platform::Other).is_ok());
    assert!(check_backup(&backup(vec![]), true, false, true, Platform::Other).is_err());
}

#[test]
fn valid_parts_are_accepted() {
    let mut good = backup(vec![script("b.js", "2"), script("a.js", "1")]);
    good.codex_live.config_toml = Some("[a]\nb = 1\n".to_string());
    good.codex_live.auth_json = Some("null".to_string());
    validate_backup(&good, true, Platform::Windows).unwrap();
    assert_eq!(good.format, BACKUP_FORMAT);
    assert_eq!(good.schema_version, SCHEMA_VERSION);
    assert_eq!(good.app_version, "1.0.0");
    assert_eq!(good.exported_at_unix, 1);
    let names = good.user_scripts.files.iter().map(|f| f.name.as_str()).collect::<Vec<_>>();
    assert_eq!(names, vec!["a.js", "b.js"]);
}

#[test]
fn scripts_are_sorted_as_texts_are() {
    let names = ["b.js", "B.js", "a.js", "ab.js", "é.js", "z.js", "\u{10000}.js", "\u{ffff}.js"];
    let files = names.iter().map(|name| script(name, "")).collect::<Vec<_>>();
    let mut expected = names.to_vec();
    expected.sort();
    let sorted = backup(files)
        .user_scripts
        .files
        .into_iter()
        .map(|file| file.name)
        .collect::<Vec<_>>();
    assert_eq!(sorted, expected);
}

#[test]
fn script_names_are_those_of_the_standard_library() {
    let parts = ["", ".", "..", "a", "b.js", "/", "//", ".js", "c.", "d.e.js", "JS"];
    for first in parts {
        for second in parts {
            for third in parts {
                let name = format!("{first}{second}{third}");
                let path = std::path::Path::new(&name);
                let expected = !(name.is_empty()
                    || name == "."
                    || name == ".."
                    || path.components().count() != 1
                    || path.extension().and_then(|value| value.to_str()) != Some("js"));
                assert_eq!(validate_script_name(&name, Platform::Other), expected, "{name:?}");
            }
        }
    }
    assert!(!validate_script_name("a\\b.js", Platform::Windows));
    assert!(!validate_script_name("C:b.js", Platform::Windows));
}

#[test]
fn objects_in_files_are_read() {
    let read = |text: &str| read_json_object_or_default(Some(text), default_settings());
    assert_eq!(read("{").unwrap_err(), ObjectError::InvalidJson);
    assert_eq!(read("1").unwrap_err(), ObjectError::NotObject);
    assert_eq!(compact(&read(r#"{"a":1}"#).unwrap()), r#"{"a":1}"#);
    assert_eq!(
        compact(&read_json_object_or_default(None, default_script_config()).unwrap()),
        r#"{"enabled":true,"scripts":{}}"#
    );
    assert_eq!(object_error_message(ObjectError::InvalidJson, "p"), "invalid JSON in p");
    assert_eq!(
        object_error_message(ObjectError::NotObject, "p"),
        "expected a JSON object in p"
    );
}

#[test]
fn an_import_brings_back_what_was_exported() {
    let settings_text = r#"{"z":{"b":[1,-2],"a":null},"list":["x\n"],"count":18446744073709551615}"#;
    let mut directory: Vec<(String, String)> = vec![
        ("b.js".to_string(), "1".to_string()),
        ("A.js".to_string(), "2".to_string()),
        ("notes.txt".to_string(), "3".to_string()),
    ];
    let export = |directory: &Vec<(String, String)>, settings: Option<&str>| {
        let mut files = Vec::new();
        for (name, contents) in directory {
            let extension = name.rsplit('.').next();
            if let Some(listed) = list_script(extension, Some(name), Platform::Other).unwrap() {
                files.push(script(&listed, contents));
            }
        }
        collect_backup(
            "1.0.0",
            1,
            read_json_object_or_default(settings, default_settings()).unwrap(),
            None,
            Some("{}".to_string()),
            read_json_object_or_default(None, default_script_config()).unwrap(),
            files,
        )
    };
    let before = directory.clone();
    let backup = export(&directory, Some(settings_text));
    validate_backup(&backup, true, Platform::Other).unwrap();
    let plan = plan_import(backup);

    directory[0].1 = "changed".to_string();
    directory.remove(1);
    directory.push(("new.js".to_string(), "4".to_string()));
    directory[1].1 = "other".to_string();
    directory.retain(|(name, _)| {
        !removes_script(name.rsplit('.').next(), Some(name), &plan.scripts)
    });
    for script in &plan.scripts {
        directory.retain(|(name, _)| *name != script.name);
        directory.push((script.name.clone(), script.contents.clone()));
    }
    directory.sort();
    let mut expected = before;
    expected[2].1 = "other".to_string();
    expected.sort();
    assert_eq!(directory, expected);

    let result = import_result("from".to_string(), "auto".to_string(), &plan);
    assert_eq!(result.user_script_count, 2);
    assert_eq!(result.imported_from, "from");
    assert_eq!(result.automatic_backup_path, "auto");
    assert_eq!(plan.config_toml, None);
    assert_eq!(plan.auth_json.as_deref(), Some("{}"));
    assert_eq!(
        parse_json(&String::from_utf8(plan.settings).unwrap()).unwrap(),
        parse_json(settings_text).unwrap()
    );
    assert_eq!(
        compact(&parse_json(&String::from_utf8(plan.script_config).unwrap()).unwrap()),
        r#"{"enabled":true,"scripts":{}}"#
    );
    let empty = plan_import(export(&Vec::new(), None));
    assert_eq!(empty.settings, b"{}".to_vec());
}

#[test]
fn files_are_listed_as_scripts_by_their_extension() {
    let listed = |extension, name| list_script(extension, name, Platform::Other);
    assert_eq!(listed(Some("js"), Some("a.js")).unwrap().as_deref(), Some("a.js"));
    assert_eq!(listed(Some("txt"), Some("a.txt")).unwrap(), None);
    assert_eq!(listed(None, Some("js")).unwrap(), None);
    assert_eq!(listed(Some("js"), None).unwrap(), None);
    assert_eq!(
        listed(Some("js"), Some("x/a.js")).unwrap_err().message(),
        "invalid user script filename: x/a.js"
    );
}

#[test]
fn scripts_that_the_backup_lacks_are_removed() {
    let files = vec![script("Keep.js", "")];
    assert!(!removes_script(Some("js"), Some("kEEP.js"), &files));
    assert!(removes_script(Some("js"), Some("other.js"), &files));
    assert!(removes_script(Some("js"), None, &files));
    assert!(!removes_script(Some("txt"), Some("other.txt"), &files));
    assert!(!removes_script(None, Some("other"), &files));
}

#[test]
fn names_of_other_files_are_made() {
    assert_eq!(automatic_backup_name(1234), "codex-plus-before-import-1234.json");
    assert_eq!(staging_extension(Some("json"), false), "json.import.tmp");
    assert_eq!(staging_extension(None, true), "file.import.old");
    assert!(backup_fits(MAX_BACKUP_BYTES) && !backup_fits(MAX_BACKUP_BYTES + 1));
    assert_eq!(MAX_BACKUP_BYTES, 32 * 1024 * 1024);
}
