use openclaw_shell::backup::{backup_file_name, sanitize_zip_path, zip_entry_target};
use openclaw_shell::debug::parse_doctor;
use openclaw_shell::installer::{
    checksum_mismatch, checksum_url, escape_ps_path, node_bin, node_nested_dir, node_zip_url,
    npm_bin, openclaw_bin,
};
use openclaw_shell::openclaw::{
    gateway_port_from_config, listing_shows_gateway, no_free_port_message, parse_pid,
    port_candidates, port_config_update, process_looks_like_openclaw, spawned_pid,
    start_precheck, tail_lines, tasklist_has_pid, GatewayStatus, GatewayWait, ShellGateway,
    StartDecision,
};
use openclaw_shell::json::{keys, Json, JsonNumber};
use openclaw_shell::self_improve::{
    action_preferences, capture_lesson, capture_lesson_checked, capture_outcome_error,
    capture_outcome_error_checked, classify_error, record_error_checked,
    extract_md_field, is_learnings_file, learnings_date, learnings_file_name, lesson_entry,
    parse_learnings, record_error, ErrorPattern, Lesson, LessonStore,
};
use openclaw_shell::skills::review_skill;

fn lesson(id: &str, ts: &str, cat: &str, trigger: &str, obs: &str) -> Lesson {
    Lesson {
        id: id.to_string(),
        timestamp: ts.to_string(),
        category: cat.to_string(),
        trigger: trigger.to_string(),
        observation: obs.to_string(),
        correction: "fix".to_string(),
        source: "test".to_string(),
        applied_count: 0,
        success_count: 0,
        auto_solved: false,
    }
}

fn pattern(p: &str, freq: u32, lesson_id: &str) -> ErrorPattern {
    ErrorPattern {
        pattern: p.to_string(),
        category: "gateway".to_string(),
        frequency: freq,
        last_seen: "old".to_string(),
        suggested_fix: "do it".to_string(),
        lesson_id: lesson_id.to_string(),
    }
}

#[test]
fn errors_are_classified_by_their_words() {
    assert_eq!(classify_error("Port 18789 is already IN USE").0, "gateway");
    assert_eq!(classify_error("EACCES: permission denied").0, "system");
    assert_eq!(classify_error("node: command not found").0, "install");
    assert_eq!(
        classify_error("openclaw: not found").1,
        "OpenClaw CLI is not installed."
    );
    assert_eq!(classify_error("config is malformed").0, "config");
    assert_eq!(classify_error("401 Unauthorized").0, "api");
    assert_eq!(classify_error("request timed out").0, "network");
    let g = classify_error("Something odd");
    assert_eq!(g.0, "general");
    assert_eq!(g.1, "Something odd");
    assert_eq!(g.2, "Review the error details and try again.");
}

#[test]
fn a_third_occurrence_marks_the_lesson_auto_solved() {
    let mut store = LessonStore::new();
    store.lessons.push(lesson("L1", "2024-01-01T00:00:00+00:00", "gateway", "t", "o"));
    store.patterns.push(pattern("address in use", 2, "L1"));
    store.patterns.push(pattern("never seen", 5, "L1"));
    let l = capture_lesson(&mut store, "gateway", "Address IN USE", "again", "fix", "test");
    assert_eq!(l.category, "gateway");
    assert_eq!(l.trigger, "Address IN USE");
    assert_eq!(l.applied_count, 0);
    assert!(!l.auto_solved);
    assert_eq!(store.patterns[0].frequency, 3);
    assert_eq!(store.patterns[0].last_seen, l.timestamp);
    assert_eq!(store.patterns[1].frequency, 5);
    assert!(store.lessons[0].auto_solved);
    assert_eq!(store.lessons.len(), 2);
    assert_eq!(store.lessons[1].id, l.id);
}

#[test]
fn the_store_keeps_the_newest_lessons() {
    let mut store = LessonStore::new();
    for i in 0..500 {
        store.lessons.push(lesson(&format!("L{}", i), &format!("2024-01-01T00:{:02}:{:02}", i / 60, i % 60), "x", "t", "o"));
    }
    let _ = record_error(&mut store, "something else", "test");
    assert_eq!(store.lessons.len(), 500);
    // the oldest lesson went, the new one (stamped now) is first
    assert!(store.lessons.iter().all(|l| l.id != "L0"));
    assert_eq!(store.lessons[0].category, "general");
    assert_eq!(store.lessons[1].id, "L499");
}

#[test]
fn success_and_failure_update_counts() {
    let mut store = LessonStore::new();
    store.lessons.push(lesson("A", "1", "x", "t", "o"));
    store.lessons[0].auto_solved = true;
    store.record_success("A");
    assert_eq!(store.lessons[0].applied_count, 1);
    assert_eq!(store.lessons[0].success_count, 1);
    store.record_failure("A");
    assert_eq!(store.lessons[0].applied_count, 2);
    assert_eq!(store.lessons[0].success_count, 1);
    assert!(!store.lessons[0].auto_solved);
    store.record_success("missing");
    assert_eq!(store.lessons[0].applied_count, 2);
}

#[test]
fn lessons_are_listed_newest_first() {
    let mut store = LessonStore::new();
    store.lessons.push(lesson("a", "2024-01-02", "api", "t", "o"));
    store.lessons.push(lesson("b", "2024-01-03", "gateway", "t", "o"));
    store.lessons.push(lesson("c", "2024-01-01", "api", "t", "o"));
    store.lessons.push(lesson("d", "2024-01-03", "api", "t", "o"));
    let all = store.get_lessons(None, 10);
    let ids: Vec<&str> = all.iter().map(|l| l.id.as_str()).collect();
    assert_eq!(ids, vec!["b", "d", "a", "c"]);
    let api = store.get_lessons(Some("api".to_string()), 2);
    let ids: Vec<&str> = api.iter().map(|l| l.id.as_str()).collect();
    assert_eq!(ids, vec!["d", "a"]);
}

#[test]
fn recurring_issues_are_most_frequent_first() {
    let mut store = LessonStore::new();
    store.patterns.push(pattern("a", 2, "x"));
    store.patterns.push(pattern("b", 1, "x"));
    store.patterns.push(pattern("c", 7, "x"));
    let r = store.get_recurring_issues();
    let names: Vec<&str> = r.iter().map(|p| p.pattern.as_str()).collect();
    assert_eq!(names, vec!["c", "a"]);
}

#[test]
fn matching_recalls_lessons_once_each() {
    let mut store = LessonStore::new();
    store.lessons.push(lesson("L1", "1", "x", "port busy", "o1"));
    store.lessons.push(lesson("L2", "2", "x", "disk full", "no space"));
    store.lessons.push(lesson("L3", "3", "x", "zzz", "yyy"));
    store.patterns.push(pattern("EADDRINUSE", 4, "L1"));
    let m = store.match_pattern("error: eaddrinuse, port busy; no space left");
    assert_eq!(m.len(), 2);
    assert_eq!(m[0].0.id, "L1");
    assert_eq!(m[0].1, 4);
    assert_eq!(m[1].0.id, "L2");
    assert_eq!(m[1].1, 1);
}

#[test]
fn observed_outcomes_update_patterns() {
    let mut store = LessonStore::new();
    store.lessons.push(lesson("L9", "1", "x", "t", "o"));
    store.observe_outcome("gateway_start", "error: boom");
    assert_eq!(store.patterns.len(), 1);
    assert_eq!(store.patterns[0].pattern, "gateway_start");
    assert_eq!(store.patterns[0].frequency, 1);
    assert_eq!(store.patterns[0].lesson_id, "L9");
    assert_eq!(store.patterns[0].category, "behavior");
    store.observe_outcome("gateway_start", "error: again");
    assert_eq!(store.patterns.len(), 1);
    assert_eq!(store.patterns[0].frequency, 2);
    store.observe_outcome("other", "success");
    assert_eq!(store.patterns.len(), 1);
}

#[test]
fn actions_teach_preferences() {
    let p = action_preferences("set_api_key", "openai:extra", "success");
    assert_eq!(p, vec![("preferred_provider".to_string(), "openai".to_string(), "behavior".to_string())]);
    let p = action_preferences("set_safety", "x family_mode=false y", "ok");
    assert_eq!(p[0].0, "family_mode_override");
    let p = action_preferences("gateway_start", "port=19000", "success");
    assert_eq!(p[0].1, "19000");
    assert!(action_preferences("gateway_start", "port=19000", "error: x").is_empty());
}

#[test]
fn outcome_errors_become_lessons() {
    let mut store = LessonStore::new();
    let l = capture_outcome_error(&mut store, "install", "error: permission denied").unwrap();
    assert_eq!(l.category, "system");
    assert_eq!(l.trigger, "install");
    assert_eq!(l.source, "observe_user_action");
    assert!(capture_outcome_error(&mut store, "install", "fine").is_none());
    assert_eq!(store.lessons.len(), 1);
}

#[test]
fn learnings_round_trip_through_markdown() {
    let mut l = lesson("x", "2024-05-06T07:08:09.123+02:00", "api", "bad key", "401");
    l.correction = "re-enter".to_string();
    let entry = lesson_entry(&l);
    assert!(entry.starts_with("\n## [2024-05-06T07:08:09] api (from shell)"));
    assert!(entry.contains("**Auto-solved:** No"));
    assert_eq!(learnings_date(&l.timestamp), "2024-05-06");
    assert_eq!(learnings_file_name("2024-05-06"), "shell-2024-05-06.md");
    let found = parse_learnings(&entry);
    assert_eq!(found, vec![("bad key".to_string(), "401".to_string(), "re-enter".to_string())]);
}

#[test]
fn an_entry_with_no_correction_reads_back() {
    let mut l = lesson("y", "2025-01-02T03:04:05Z", "gateway", "port in use", "EADDRINUSE");
    l.correction = String::new();
    l.auto_solved = true;
    let entry = lesson_entry(&l);
    assert!(entry.contains("**Auto-solved:** Yes"));
    let found = parse_learnings(&entry);
    assert_eq!(found, vec![("port in use".to_string(), "EADDRINUSE".to_string(), String::new())]);
}

#[test]
fn outcome_room_is_checked_before_counting() {
    let mut store = LessonStore::new();
    assert!(store.has_room_for_outcome("gateway_start", "error: boom"));
    store.patterns.push(pattern("gateway_start", u32::MAX, "L1"));
    assert!(!store.has_room_for_outcome("gateway_start", "error: boom"));
    assert!(store.has_room_for_outcome("install", "error: boom"));
    store.patterns[0].frequency = 7;
    assert!(store.has_room_for_outcome("GATEWAY_START", "error: boom"));
    store.observe_outcome("GATEWAY_START", "error: boom");
    assert_eq!(store.patterns[0].frequency, 8);
}

#[test]
fn checked_recording_refuses_a_full_count() {
    let mut store = LessonStore::new();
    store.patterns.push(pattern("disk full", u32::MAX, "L1"));
    assert!(capture_lesson_checked(&mut store, "system", "Disk full now", "x", "y", "t").is_none());
    assert!(store.lessons.is_empty());
    assert!(record_error_checked(&mut store, "disk full", "src").is_none());
    assert!(matches!(capture_outcome_error_checked(&mut store, "disk full", "error: boom"), Err(())));
    assert!(!store.observe_outcome_checked("disk", "full error"));
    assert_eq!(store.patterns[0].frequency, u32::MAX);
    let l = record_error_checked(&mut store, "request timed out", "src").unwrap();
    assert_eq!(l.category, "network");
    assert_eq!(store.lessons.len(), 1);
    assert!(capture_lesson_checked(&mut store, "c", "other", "thing", "fix", "t").is_some());
    assert!(matches!(capture_outcome_error_checked(&mut store, "a", "fine"), Ok(None)));
    assert!(store.observe_outcome_checked("deploy", "error: x"));
    assert_eq!(store.patterns.len(), 2);
}

#[test]
fn fields_are_cut_after_the_marker() {
    let block = "intro\n  **Trigger:** it broke \n**Observation:**x";
    // the cut counts from the start of the untrimmed line
    assert_eq!(extract_md_field(block, "Trigger").as_deref(), Some("** it broke"));
    assert_eq!(extract_md_field("**Trigger:** it broke", "Trigger").as_deref(), Some("it broke"));
    assert_eq!(extract_md_field(block, "Observation").as_deref(), Some("x"));
    assert_eq!(extract_md_field(block, "Correction"), None);
    assert!(parse_learnings("**Trigger:** \n**Observation:** o\n---\nnothing").is_empty());
    assert!(is_learnings_file("notes.md"));
    assert!(!is_learnings_file("shell-2024.md"));
    assert!(!is_learnings_file("notes.txt"));
}

#[test]
fn archive_names_stay_inside() {
    assert_eq!(sanitize_zip_path("a/./b//c.txt"), Some(vec!["a".to_string(), "b".to_string(), "c.txt".to_string()]));
    assert_eq!(sanitize_zip_path("./x"), Some(vec!["x".to_string()]));
    assert_eq!(sanitize_zip_path("../etc/passwd"), None);
    assert_eq!(sanitize_zip_path("a/../../b"), None);
    assert_eq!(sanitize_zip_path("/etc/passwd"), None);
    assert_eq!(sanitize_zip_path("..."), Some(vec!["...".to_string()]));
    assert_eq!(zip_entry_target(".openclaw/logs/"), Some((vec![".openclaw".to_string(), "logs".to_string()], true)));
    assert_eq!(backup_file_name("20240101_120000"), "openclaw_backup_20240101_120000.zip");
}

#[test]
fn doctor_output_becomes_issues() {
    let r = parse_doctor("Node.js v18 found, v22 IS REQUIRED\nGateway not running".to_string());
    assert_eq!(r.issues.len(), 2);
    assert_eq!(r.issues[0].severity, "error");
    assert_eq!(r.issues[0].message, "Node.js version is too old.");
    assert_eq!(r.issues[1].severity, "info");
    assert!(!r.healthy);
    let ok = parse_doctor("all fine".to_string());
    assert_eq!(ok.issues.len(), 1);
    assert_eq!(ok.issues[0].severity, "success");
    assert!(ok.healthy);
    assert_eq!(ok.raw_output, "all fine");
    let warn = parse_doctor("API key missing".to_string());
    assert_eq!(warn.issues[0].auto_fixable, false);
    assert!(warn.healthy);
}

#[test]
fn installer_paths_and_quoting() {
    assert_eq!(node_bin(false), vec!["bin".to_string(), "node".to_string()]);
    assert_eq!(node_bin(true), vec!["node.exe".to_string()]);
    assert_eq!(npm_bin(true), vec!["npm.cmd".to_string()]);
    assert_eq!(openclaw_bin(false).join("/"), "node_modules/.bin/openclaw");
    assert_eq!(escape_ps_path("C:\\Users\\O'Neil"), "'C:\\Users\\O''Neil'");
    assert_eq!(escape_ps_path(""), "''");
    let url = node_zip_url("v22.11.0");
    assert_eq!(url, "https://nodejs.org/dist/v22.11.0/node-v22.11.0-win-x64.zip");
    assert_eq!(checksum_url(&url), format!("{}.sha256", url));
    assert_eq!(node_nested_dir("v22.11.0"), "node-v22.11.0-win-x64");
}

#[test]
fn checksums_compare_the_first_word() {
    let digest = "ba7816bf8f01cfea414140de5dae2223b00361a396177a9cb410ff61f20015ad";
    assert_eq!(checksum_mismatch(b"abc", &format!("  {}  node.zip\n", digest)), None);
    assert_eq!(checksum_mismatch(b"abc", "   "), None);
    let m = checksum_mismatch(b"abd", digest).unwrap();
    assert!(m.starts_with("Node.js download checksum mismatch! Expected ba7816"));
    assert!(m.ends_with(". Possible MITM attack."));
}

#[test]
fn pids_and_ports() {
    assert_eq!(parse_pid(" 1234\n"), Some(1234));
    assert_eq!(parse_pid("+7"), Some(7));
    assert_eq!(parse_pid("-7"), None);
    assert_eq!(parse_pid(""), None);
    assert_eq!(parse_pid("4294967296"), None);
    assert_eq!(parse_pid("4294967295"), Some(4294967295));
    let cfg = Json::Object(vec![(
        "gateway".to_string(),
        Json::Object(vec![("port".to_string(), Json::Number(JsonNumber::PosInt(65537)))]),
    )]);
    assert_eq!(gateway_port_from_config(&cfg), Some(1));
    assert_eq!(gateway_port_from_config(&Json::Null), Some(18789));
    assert!(matches!(port_config_update(Json::Null, 18789), Some(None)));
    let upd = port_config_update(Json::Null, 18790).unwrap().unwrap();
    assert_eq!(upd.get_path(&keys(&["gateway", "port"])).and_then(|v| v.as_u64()), Some(18790));
    assert_eq!(gateway_port_from_config(&upd), Some(18790));
    let c = port_candidates(18789);
    assert_eq!(c.len(), 101);
    assert_eq!(c[100], 18889);
    assert_eq!(no_free_port_message(18789), "No free port found in range 18789-18889");
}

#[test]
fn process_listings_are_read() {
    assert!(listing_shows_gateway("Node,C:\\OpenClaw\\x GATEWAY start"));
    assert!(!listing_shows_gateway("node something"));
    assert!(process_looks_like_openclaw("  NODE\n", false));
    assert!(!process_looks_like_openclaw("bash", false));
    let csv = "\"Image Name\",\"PID\"\r\n\"node.exe\",\"4321\",\"Console\"\r\n";
    assert!(tasklist_has_pid(csv, 4321));
    assert!(!tasklist_has_pid(csv, 432));
    assert_eq!(tail_lines("a\nb\r\nc\n", 2), "b\nc");
    assert_eq!(tail_lines("a\nb", 5), "a\nb");
    assert_eq!(tail_lines("", 3), "");
}

#[test]
fn gateway_start_decisions() {
    assert!(start_precheck(true, None).is_err());
    assert!(start_precheck(true, Some(5)).is_ok());
    assert!(start_precheck(false, None).is_ok());
    assert_eq!(spawned_pid(Some(0)).unwrap_err(), "Failed to obtain gateway process ID after spawning.");
    assert_eq!(spawned_pid(Some(9)), Ok(9));
    let w = GatewayWait::start();
    let w = w.next(false, 18789);
    assert!(matches!(w, GatewayWait::CheckAlive(0)));
    let w2 = w.next(false, 18789);
    match w2 {
        GatewayWait::Exited(m) => assert_eq!(m, "Gateway process exited before binding to port 18789 (attempt 0). Check logs for errors."),
        _ => panic!("expected exit"),
    }
    let mut w = GatewayWait::start();
    for _ in 0..29 {
        w = w.next(false, 1).next(true, 1);
    }
    assert!(matches!(w, GatewayWait::CheckHealth(29)));
    let last = w.next(false, 1).next(true, 1);
    assert!(matches!(last, GatewayWait::TimedOut(_)));
    assert!(matches!(GatewayWait::start().next(true, 1), GatewayWait::Started));
}

#[test]
fn the_shell_only_stops_its_own_gateway() {
    let mut s = ShellGateway::new();
    assert!(s.decide_stop().is_err());
    let foreign = GatewayStatus { running: true, pid: None, port: Some(1), health: None, managed_by_shell: false };
    assert!(matches!(s.decide_start(&foreign), StartDecision::Refuse(_)));
    let idle = GatewayStatus { running: false, pid: None, port: None, health: None, managed_by_shell: false };
    assert!(matches!(s.decide_start(&idle), StartDecision::Launch));
    s.started(42);
    assert_eq!(s.decide_stop(), Ok(Some(42)));
    assert_eq!(s.restart_target(), Some(42));
    s.stopped();
    assert!(s.decide_stop().is_err());
    let ours = GatewayStatus { running: true, pid: Some(7), port: None, health: None, managed_by_shell: true };
    assert!(matches!(s.decide_start(&ours), StartDecision::Reuse(7)));
    assert_eq!(s.pid, Some(7));
}

#[test]
fn skills_are_reviewed_by_their_words() {
    let manifest = "---\nname: w\ndescription: \"Looks up the weather\"\n---\nUses HTTP fetch.";
    let r = review_skill("weather", Some(manifest), None);
    assert_eq!(r.name, "weather");
    assert_eq!(r.description, "Looks up the weather");
    assert_eq!(r.permissions, vec!["Network access".to_string()]);
    assert_eq!(r.risk_level, "medium");
    assert!(r.enabled);
    let r = review_skill("runner", Some("Runs a BASH command and writes a file"), None);
    assert_eq!(r.risk_level, "high");
    assert_eq!(r.permissions.len(), 2);
    assert_eq!(r.description, "No description available.");
    let none = review_skill("ghost", None, None);
    assert_eq!(none.permissions, vec!["Read-only / information lookup".to_string()]);
    assert_eq!(none.safety_notes, vec!["This skill appears to only read information.".to_string()]);
    let cfg = Json::Object(vec![(
        "skills".to_string(),
        Json::Object(vec![(
            "entries".to_string(),
            Json::Object(vec![(
                "quiet".to_string(),
                Json::Object(vec![("enabled".to_string(), Json::Bool(false))]),
            )]),
        )]),
    )]);
    assert!(!review_skill("quiet", Some("plain words"), Some(&cfg)).enabled);
    assert_eq!(review_skill("quiet", Some("plain words"), Some(&cfg)).risk_level, "low");
}
