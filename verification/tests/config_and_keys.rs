use openclaw_shell::api_keys::{
    delete_key_config, list_keys_checked, list_keys_from, preview_key, set_key_config,
    validate_key_format,
};
use openclaw_shell::channels::{get_channel_guides, save_channel_config};
use openclaw_shell::config::{deep_merge, merge_config};
use openclaw_shell::json::{keys, Json, JsonNumber};
use openclaw_shell::safety::{apply_safety_settings, settings_from_config, SafetySettings};
use openclaw_shell::skills::{review_skill, set_skill_enabled};

fn obj(members: Vec<(&str, Json)>) -> Json {
    Json::Object(members.into_iter().map(|(k, v)| (k.to_string(), v)).collect())
}

fn s(v: &str) -> Json {
    Json::String(v.to_string())
}

/// A made-up key: `prefix` and the letters from `a` to `last`.
fn fake_key(prefix: &str, last: char) -> String {
    let body: String = ('a'..=last).collect();
    format!("{prefix}{body}")
}

fn get<'a>(j: &'a Json, path: &[&str]) -> Option<&'a Json> {
    j.get_path(&keys(path))
}

#[test]
fn key_formats_follow_the_provider_rules() {
    assert!(validate_key_format("openai", &fake_key("sk-", 'u')));
    assert!(!validate_key_format("openai", "sk-short"));
    assert!(!validate_key_format("openai", &fake_key("xx-", 'u')));
    assert!(validate_key_format("anthropic", &fake_key("sk-ant-", 'p')));
    assert!(!validate_key_format("anthropic", &fake_key("sk-", 'u')));
    assert!(validate_key_format("openrouter", &fake_key("sk-or-", 'q')));
    assert!(validate_key_format("gemini", "abcdefghijk"));
    assert!(!validate_key_format("gemini", "abcdefghij"));
    assert!(validate_key_format("unknown", "abcdef"));
    assert!(!validate_key_format("unknown", "abcde"));
    // the length counts bytes: seven two-byte characters are fourteen bytes,
    // five of them exactly ten, which is not enough
    assert!(validate_key_format("elevenlabs", "\u{e9}\u{e9}\u{e9}\u{e9}\u{e9}\u{e9}\u{e9}"));
    assert!(!validate_key_format("elevenlabs", "\u{e9}\u{e9}\u{e9}\u{e9}\u{e9}"));
}

#[test]
fn previews_mask_the_middle_of_long_keys() {
    assert_eq!(preview_key(&fake_key("sk-", 'l')).as_deref(), Some("sk-a...ijkl"));
    assert_eq!(preview_key("12345678").as_deref(), Some("****"));
    assert_eq!(preview_key("").as_deref(), Some("****"));
    // byte 4 falls inside the two-byte 'é': slicing there would panic
    assert_eq!(preview_key("abcé12345"), None);
}

#[test]
fn key_list_reads_the_provider_table() {
    let cfg = obj(vec![(
        "models",
        obj(vec![(
            "providers",
            obj(vec![
                ("openai", obj(vec![("apiKey", s(&fake_key("sk-", 'u')))])),
                ("gemini", obj(vec![("apiKey", Json::Number(JsonNumber::PosInt(5)))])),
            ]),
        )]),
    )]);
    let list = list_keys_from(&cfg);
    assert_eq!(list.len(), 8);
    assert_eq!(list[0].provider, "openai");
    assert_eq!(list[0].name, "OpenAI");
    assert!(list[0].has_key);
    assert_eq!(list[0].key_preview.as_deref(), Some("sk-a...rstu"));
    assert!(list[0].valid_format);
    assert_eq!(list[1].provider, "anthropic");
    assert!(!list[1].has_key);
    assert_eq!(list[1].key_preview, None);
    assert!(!list[1].valid_format);
    // a key that is not a string reads as empty
    assert_eq!(list[4].name, "Google Gemini");
    assert!(list[4].has_key);
    assert_eq!(list[4].key_preview.as_deref(), Some("****"));
    assert!(!list[4].valid_format);
    assert_eq!(list[7].provider, "elevenlabs");
}

#[test]
fn key_list_refuses_keys_that_cannot_be_masked() {
    let cfg = obj(vec![(
        "models",
        obj(vec![("providers", obj(vec![("openai", obj(vec![("apiKey", s("abcé12345"))]))]))]),
    )]);
    assert!(list_keys_checked(&cfg).is_none());
    assert!(list_keys_checked(&Json::Null).is_some());
}

#[test]
fn set_key_creates_the_path() {
    let cfg = set_key_config(obj(vec![]), "openai", "sk-x").unwrap();
    assert_eq!(
        get(&cfg, &["models", "providers", "openai", "apiKey"]).and_then(|v| v.as_str()),
        Some("sk-x")
    );
    // a string in the way cannot be indexed into
    assert!(set_key_config(obj(vec![("models", s("oops"))]), "openai", "sk-x").is_none());
    // null on the way becomes an object
    let cfg2 = set_key_config(obj(vec![("models", Json::Null)]), "openai", "sk-y").unwrap();
    assert_eq!(
        get(&cfg2, &["models", "providers", "openai", "apiKey"]).and_then(|v| v.as_str()),
        Some("sk-y")
    );
}

#[test]
fn delete_key_removes_the_key_and_keeps_the_rest() {
    let cfg = obj(vec![(
        "models",
        obj(vec![(
            "providers",
            obj(vec![("openai", obj(vec![("apiKey", s("k")), ("baseUrl", s("u"))]))]),
        )]),
    )]);
    let out = delete_key_config(cfg, "openai").unwrap();
    assert!(get(&out, &["models", "providers", "openai", "apiKey"]).is_none());
    assert_eq!(
        get(&out, &["models", "providers", "openai", "baseUrl"]).and_then(|v| v.as_str()),
        Some("u")
    );
    // on an empty configuration the provider table is created as null
    let out2 = delete_key_config(obj(vec![]), "openai").unwrap();
    assert!(matches!(get(&out2, &["models", "providers"]), Some(Json::Null)));
}

#[test]
fn deep_merge_keeps_untouched_members() {
    let mut dst = obj(vec![
        ("a", obj(vec![("x", s("1")), ("y", s("2"))])),
        ("keep", s("k")),
    ]);
    let src = obj(vec![("a", obj(vec![("y", s("3")), ("z", s("4"))])), ("new", s("n"))]);
    deep_merge(&mut dst, src);
    assert_eq!(get(&dst, &["a", "x"]).and_then(|v| v.as_str()), Some("1"));
    assert_eq!(get(&dst, &["a", "y"]).and_then(|v| v.as_str()), Some("3"));
    assert_eq!(get(&dst, &["a", "z"]).and_then(|v| v.as_str()), Some("4"));
    assert_eq!(get(&dst, &["keep"]).and_then(|v| v.as_str()), Some("k"));
    assert_eq!(get(&dst, &["new"]).and_then(|v| v.as_str()), Some("n"));
}

#[test]
fn deep_merge_replaces_arrays_and_scalars() {
    let mut dst = obj(vec![("list", Json::Array(vec![s("a"), s("b")]))]);
    deep_merge(&mut dst, obj(vec![("list", Json::Array(vec![s("c")]))]));
    match get(&dst, &["list"]) {
        Some(Json::Array(v)) => {
            assert_eq!(v.len(), 1);
            assert_eq!(v[0].as_str(), Some("c"));
        }
        _ => panic!("expected an array"),
    }
    let mut d2 = obj(vec![("a", s("x"))]);
    deep_merge(&mut d2, s("whole"));
    assert_eq!(d2.as_str(), Some("whole"));
}

#[test]
fn merge_config_treats_unreadable_as_empty() {
    let out = merge_config(None, obj(vec![("a", Json::Bool(true))]));
    assert_eq!(get(&out, &["a"]).and_then(|v| v.as_bool()), Some(true));
}

#[test]
fn deleting_through_merge_keeps_the_old_key() {
    // what the shell writes is merged over the file, so a member that the
    // new configuration lacks survives from the old one
    let file = obj(vec![(
        "models",
        obj(vec![("providers", obj(vec![("openai", obj(vec![("apiKey", s("k"))]))]))]),
    )]);
    let fresh = obj(vec![(
        "models",
        obj(vec![("providers", obj(vec![("openai", obj(vec![("apiKey", s("k"))]))]))]),
    )]);
    let incoming = delete_key_config(fresh, "openai").unwrap();
    let stored = merge_config(Some(file), incoming);
    assert_eq!(
        get(&stored, &["models", "providers", "openai", "apiKey"]).and_then(|v| v.as_str()),
        Some("k")
    );
}

#[test]
fn channel_guides_hold_three_channels() {
    let g = get_channel_guides();
    assert_eq!(g.len(), 3);
    assert_eq!(g[0].id, "telegram");
    assert_eq!(g[0].difficulty, "easy");
    assert_eq!(g[0].steps.len(), 2);
    assert_eq!(g[0].steps[0].url.as_deref(), Some("https://t.me/botfather"));
    assert_eq!(g[0].steps[1].field_label.as_deref(), Some("Bot Token"));
    assert_eq!(g[1].id, "discord");
    assert_eq!(g[1].steps.len(), 3);
    assert_eq!(g[1].steps[2].action_type, "none");
    assert_eq!(g[2].config_keys, vec!["SLACK_BOT_TOKEN".to_string()]);
    assert_eq!(g[2].steps[1].placeholder.as_deref(), Some("xoxb-..."));
}

#[test]
fn channel_tokens_go_to_their_field() {
    let out = save_channel_config(obj(vec![]), "discord", "T").unwrap();
    assert_eq!(get(&out, &["channels", "discord", "token"]).and_then(|v| v.as_str()), Some("T"));
    let out = save_channel_config(obj(vec![]), "telegram", "B").unwrap();
    assert_eq!(get(&out, &["channels", "telegram", "botToken"]).and_then(|v| v.as_str()), Some("B"));
    // an unknown channel still gets an empty channels object
    let out = save_channel_config(obj(vec![]), "irc", "x").unwrap();
    assert!(matches!(get(&out, &["channels"]), Some(Json::Object(v)) if v.is_empty()));
    assert!(save_channel_config(Json::Array(vec![]), "slack", "x").is_none());
}

#[test]
fn safety_settings_read_defaults() {
    let st = settings_from_config(&obj(vec![]));
    assert_eq!(st.approval_mode, "smart");
    assert_eq!(st.exec_timeout_seconds, 60);
    assert!(st.family_mode && st.disable_dangerous_tools && st.auto_backup_before_changes);
    assert!(st.redact_secrets_in_logs);
    let d = SafetySettings::default();
    assert_eq!(d.approval_mode, "smart");
    assert_eq!(d.exec_timeout_seconds, 60);
}

#[test]
fn safety_settings_round_trip() {
    let cfg = obj(vec![
        ("approvals", obj(vec![("other", s("o"))])),
        (
            "skills",
            obj(vec![(
                "entries",
                obj(vec![
                    ("github", obj(vec![("enabled", Json::Bool(true))])),
                    ("weather", obj(vec![("enabled", Json::Bool(true))])),
                    ("slack", Json::Null),
                ]),
            )]),
        ),
    ]);
    let st = SafetySettings {
        approval_mode: "always".to_string(),
        exec_timeout_seconds: 120,
        disable_dangerous_tools: true,
        redact_secrets_in_logs: true,
        auto_backup_before_changes: false,
        family_mode: true,
    };
    let out = apply_safety_settings(cfg, &st).unwrap();
    let back = settings_from_config(&out);
    assert_eq!(back.approval_mode, "always");
    assert_eq!(back.exec_timeout_seconds, 120);
    assert!(back.family_mode);
    assert_eq!(get(&out, &["approvals", "other"]).and_then(|v| v.as_str()), Some("o"));
    assert_eq!(get(&out, &["_shell", "auto_backup"]).and_then(|v| v.as_bool()), Some(false));
    assert_eq!(get(&out, &["skills", "entries", "github", "enabled"]).and_then(|v| v.as_bool()), Some(false));
    assert_eq!(get(&out, &["skills", "entries", "weather", "enabled"]).and_then(|v| v.as_bool()), Some(true));
    assert_eq!(get(&out, &["skills", "entries", "slack", "enabled"]).and_then(|v| v.as_bool()), Some(false));
    assert!(get(&out, &["skills", "entries", "discord"]).is_none());
}

#[test]
fn safety_settings_refuse_a_broken_risky_entry() {
    let cfg = obj(vec![("skills", obj(vec![("entries", obj(vec![("xurl", s("bad"))]))]))]);
    assert!(apply_safety_settings(cfg, &SafetySettings::default()).is_none());
}

#[test]
fn skills_can_be_switched() {
    let out = set_skill_enabled(obj(vec![]), "weather", false).unwrap();
    assert_eq!(get(&out, &["skills", "entries", "weather", "enabled"]).and_then(|v| v.as_bool()), Some(false));
}

#[test]
fn a_stored_key_is_listed_and_a_deleted_one_is_not() {
    let cfg = obj(vec![("gateway", obj(vec![("port", Json::Number(JsonNumber::PosInt(19000)))]))]);
    let key_text = format!("sk-ant-{}XYZ", fake_key("0123456789", 'f'));
    let key = key_text.as_str();
    let stored = set_key_config(cfg, "anthropic", key).unwrap();
    let listed = list_keys_checked(&stored).unwrap();
    let e = &listed[1];
    assert_eq!(e.provider, "anthropic");
    assert!(e.has_key);
    assert!(e.valid_format);
    assert_eq!(e.key_preview.as_deref(), Some("sk-a...fXYZ"));
    assert!(!listed[0].has_key);
    let deleted = delete_key_config(stored, "anthropic").unwrap();
    let listed = list_keys_checked(&deleted).unwrap();
    assert!(!listed[1].has_key);
    assert!(listed[1].key_preview.is_none());
    assert!(!listed[1].valid_format);
    assert!(get(&deleted, &["gateway", "port"]).is_some());
}

#[test]
fn a_switched_skill_is_reviewed_as_switched() {
    let off = set_skill_enabled(obj(vec![]), "weather", false).unwrap();
    assert!(!review_skill("weather", None, Some(&off)).enabled);
    let on = set_skill_enabled(off, "weather", true).unwrap();
    assert!(review_skill("weather", None, Some(&on)).enabled);
    assert!(review_skill("other", None, Some(&on)).enabled);
}
