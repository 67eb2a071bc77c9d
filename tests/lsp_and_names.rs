use session_runtime::lsp::{choose_language, require_enabled, LspSessionTable};
use session_runtime::models::{PluginLocation, PluginLocationRepr};
use session_runtime::names::{
    default_enabled, is_cross_device_error, normalize_entry_name, sanitize_archive_path,
};

#[test]
fn lsp_session_lifecycle() {
    let mut table: LspSessionTable<u8, &'static str> = LspSessionTable::new();
    let id = table.new_session_id().unwrap();
    assert_eq!(id.len(), 36);
    assert!(table.insert(id.clone(), "ts".into(), "typescript".into(), "/ws".into(), 1, "kill").is_ok());
    assert!(table.insert(id.clone(), "ts".into(), "typescript".into(), "/ws".into(), 2, "k2").is_err());
    assert_eq!(table.writer(&id), Ok(&1));
    assert_eq!(table.stop(&id), Some("kill"));
    assert_eq!(table.stop(&id), None);
    assert_eq!(table.writer(&id), Err("session is closing; the message was not sent".to_string()));
    let names = table.finish(&id).unwrap();
    assert_eq!(names.plugin_id, "ts");
    assert_eq!(names.language_id, "typescript");
    assert!(names.killer.is_none());
    assert!(table.finish(&id).is_none());
    assert_eq!(table.writer(&id), Err(format!("session {} not found", id)));
    assert_eq!(table.stop("unknown"), None);
}

#[test]
fn natural_exit_hands_out_the_kill_signal() {
    let mut table: LspSessionTable<u8, u8> = LspSessionTable::new();
    table.insert("a".into(), "p".into(), "l".into(), "/w".into(), 0, 9).ok().unwrap();
    let names = table.finish("a").unwrap();
    assert_eq!(names.killer, Some(9));
    assert!(!table.contains("a"));
}

#[test]
fn fresh_ids_differ() {
    let table: LspSessionTable<u8, u8> = LspSessionTable::new();
    assert_ne!(table.new_session_id(), table.new_session_id());
}

#[test]
fn language_choice() {
    let declared = vec!["rust".to_string(), "toml".to_string()];
    assert_eq!(choose_language(Some("md".into()), &declared), Ok("md".to_string()));
    assert_eq!(choose_language(None, &declared), Ok("rust".to_string()));
    assert_eq!(
        choose_language(None, &vec![]),
        Err("the plugin declares no language identifier".to_string())
    );
}

#[test]
fn entry_names_are_checked() {
    assert_eq!(normalize_entry_name("  main.rs \n"), Ok("main.rs".to_string()));
    assert_eq!(normalize_entry_name("   "), Err("the name must not be empty".to_string()));
    assert_eq!(normalize_entry_name(" .. "), Err("the name must not be . or ..".to_string()));
    assert_eq!(normalize_entry_name("."), Err("the name must not be . or ..".to_string()));
    assert_eq!(
        normalize_entry_name("a/b"),
        Err("the name holds a character that is not allowed".to_string())
    );
    assert_eq!(
        normalize_entry_name("what?"),
        Err("the name holds a character that is not allowed".to_string())
    );
    assert_eq!(normalize_entry_name("...")
        , Ok("...".to_string()));
}

#[test]
fn cross_device_codes() {
    assert!(is_cross_device_error(Some(18)));
    assert!(is_cross_device_error(Some(17)));
    assert!(!is_cross_device_error(Some(2)));
    assert!(!is_cross_device_error(None));
}

#[test]
fn plugin_defaults_and_location() {
    assert!(default_enabled());
    assert_eq!(PluginLocationRepr::from(PluginLocation::User), PluginLocationRepr::User);
    assert_eq!(PluginLocationRepr::from(PluginLocation::BuiltIn), PluginLocationRepr::BuiltIn);
}

#[test]
fn archive_paths_are_normalized() {
    assert_eq!(sanitize_archive_path("a/./b//c"), Ok("a/b/c".to_string()));
    assert_eq!(sanitize_archive_path("dir/"), Ok("dir".to_string()));
    assert_eq!(sanitize_archive_path("./"), Ok(String::new()));
    assert_eq!(sanitize_archive_path(""), Ok(String::new()));
    assert_eq!(
        sanitize_archive_path("/etc/passwd"),
        Err("the package holds an absolute path".to_string())
    );
    assert_eq!(
        sanitize_archive_path("a/../../b"),
        Err("the package holds a path that leaves its root".to_string())
    );
    assert_eq!(sanitize_archive_path("..a/b.."), Ok("..a/b..".to_string()));
}

#[test]
fn session_ids_have_uuid_shape_and_claims_refuse_taken_ids() {
    let mut table: LspSessionTable<u8, u8> = LspSessionTable::new();
    let id = table.new_session_id().unwrap();
    let chars: Vec<char> = id.chars().collect();
    assert_eq!(chars.len(), 36);
    for (i, c) in chars.iter().enumerate() {
        if i == 8 || i == 13 || i == 18 || i == 23 {
            assert_eq!(*c, '-');
        } else {
            assert!(c.is_ascii_digit() || ('a'..='f').contains(c));
        }
    }
    assert_eq!(chars[14], '4');
    assert_eq!(table.claim_session_id("x".to_string()), Some("x".to_string()));
    table.insert("x".into(), "p".into(), "l".into(), "/w".into(), 0, 0).ok().unwrap();
    assert_eq!(table.claim_session_id("x".to_string()), None);
}

#[test]
fn disabled_plugins_cannot_start() {
    assert_eq!(require_enabled("ts", true), Ok(()));
    assert_eq!(require_enabled("ts", false), Err("plugin ts is disabled".to_string()));
}
