use vstd::prelude::*;
use crate::json::{law_set_path_read_back, law_set_path_keeps_siblings, jget, 
    Json, JVal, JsonNumber, NumV, jget_path, jset_path, keys, keys_view, member, put_key, find_member,
    entries_view, lemma_obj_view, lemma_find_key, find_key,
};

verus! {

/// The safety settings of the shell.
pub struct SafetySettings {
    pub approval_mode: String,
    pub exec_timeout_seconds: u64,
    pub disable_dangerous_tools: bool,
    pub redact_secrets_in_logs: bool,
    pub auto_backup_before_changes: bool,
    pub family_mode: bool,
}

impl Default for SafetySettings {
    /// Smart approvals, a 60 second timeout, and every protection on.
    fn default() -> (r: SafetySettings)
        ensures
            r.approval_mode@ == "smart"@,
            r.exec_timeout_seconds == 60,
            r.disable_dangerous_tools,
            r.redact_secrets_in_logs,
            r.auto_backup_before_changes,
            r.family_mode,
    {
        SafetySettings {
            approval_mode: "smart".to_owned(),
            exec_timeout_seconds: 60,
            disable_dangerous_tools: true,
            redact_secrets_in_logs: true,
            auto_backup_before_changes: true,
            family_mode: true,
        }
    }
}

pub open spec fn approval_path() -> Seq<Seq<char>> {
    seq!["approvals"@, "exec"@, "mode"@]
}

pub open spec fn timeout_path() -> Seq<Seq<char>> {
    seq!["tools"@, "exec"@, "timeoutSec"@]
}

pub open spec fn family_path() -> Seq<Seq<char>> {
    seq!["_shell"@, "family_mode"@]
}

pub open spec fn skill_entries_path() -> Seq<Seq<char>> {
    seq!["skills"@, "entries"@]
}

/// The approval mode in the configuration, `smart` where it holds no string.
pub open spec fn approval_in(cfg: JVal) -> Seq<char> {
    match jget_path(cfg, approval_path()) {
        Some(JVal::Str(s)) => s,
        _ => "smart"@,
    }
}

/// The command timeout in the configuration, 60 where it holds no
/// non-negative integer.
pub open spec fn timeout_in(cfg: JVal) -> u64 {
    match jget_path(cfg, timeout_path()) {
        Some(JVal::Num(NumV::PosInt(n))) => n,
        _ => 60,
    }
}

/// Family mode in the configuration, on where it holds no boolean.
pub open spec fn family_in(cfg: JVal) -> bool {
    match jget_path(cfg, family_path()) {
        Some(JVal::Bool(b)) => b,
        _ => true,
    }
}

/// The safety settings read from the configuration: family mode decides
/// the dangerous-tools and auto-backup switches; secrets are always
/// redacted.
pub fn settings_from_config(cfg: &Json) -> (r: SafetySettings)
    ensures
        r.approval_mode@ == approval_in(cfg@),
        r.exec_timeout_seconds == timeout_in(cfg@),
        r.family_mode == family_in(cfg@),
        r.disable_dangerous_tools == family_in(cfg@),
        r.auto_backup_before_changes == family_in(cfg@),
        r.redact_secrets_in_logs,
{
    let ap = keys(&["approvals", "exec", "mode"]);
    let tp = keys(&["tools", "exec", "timeoutSec"]);
    let fp = keys(&["_shell", "family_mode"]);
    proof {
        assert(keys_view(ap@) =~= approval_path());
        assert(keys_view(tp@) =~= timeout_path());
        assert(keys_view(fp@) =~= family_path());
    }
    let approval_mode = match cfg.get_path(&ap) {
        Some(v) => match v.as_str() {
            Some(s) => s.to_owned(),
            None => "smart".to_owned(),
        },
        None => "smart".to_owned(),
    };
    let exec_timeout = match cfg.get_path(&tp) {
        Some(v) => match v.as_u64() {
            Some(n) => n,
            None => 60,
        },
        None => 60,
    };
    let family = match cfg.get_path(&fp) {
        Some(v) => match v.as_bool() {
            Some(b) => b,
            None => true,
        },
        None => true,
    };
    SafetySettings {
        approval_mode,
        exec_timeout_seconds: exec_timeout,
        disable_dangerous_tools: family,
        redact_secrets_in_logs: true,
        auto_backup_before_changes: family,
        family_mode: family,
    }
}

/// The skills that family mode turns off where they are configured.
pub open spec fn risky_skills() -> Seq<Seq<char>> {
    seq!["discord"@, "slack"@, "xurl"@, "github"@, "gh-issues"@, "nano-pdf"@]
}

/// The skill entries after turning off the first `n` risky skills that
/// have an entry; `None` where such an entry is neither an object nor null.
pub open spec fn disable_risky(es: Seq<(Seq<char>, JVal)>, n: int) -> Option<Seq<(Seq<char>, JVal)>>
    decreases n,
{
    if n <= 0 || n > risky_skills().len() {
        Some(es)
    } else {
        match disable_risky(es, n - 1) {
            None => None,
            Some(acc) => {
                let k = risky_skills()[n - 1];
                match member(acc, k) {
                    None => Some(acc),
                    Some(v) => match jset_path(v, seq!["enabled"@], JVal::Bool(false)) {
                        None => None,
                        Some(v2) => Some(put_key(acc, k, v2)),
                    },
                }
            },
        }
    }
}

/// The shell's own section of the configuration.
pub open spec fn shell_section(s: SafetySettings) -> JVal {
    JVal::Obj(
        seq![
            ("family_mode"@, JVal::Bool(s.family_mode)),
            ("redact_secrets"@, JVal::Bool(s.redact_secrets_in_logs)),
            ("auto_backup"@, JVal::Bool(s.auto_backup_before_changes)),
        ],
    )
}

/// The configuration with the safety settings written in: the approval
/// mode and the command timeout go to their places (other members kept),
/// the shell's section is replaced, and in family mode the risky skills
/// that are configured are turned off. `None` where an assignment meets a
/// value that is neither an object nor null (it panics).
pub open spec fn settings_applied(cfg: JVal, s: SafetySettings) -> Option<JVal> {
    match jset_path(cfg, approval_path(), JVal::Str(s.approval_mode@)) {
        None => None,
        Some(c1) => match jset_path(c1, timeout_path(), JVal::Num(NumV::PosInt(s.exec_timeout_seconds))) {
            None => None,
            Some(c2) => match jset_path(c2, seq!["_shell"@], shell_section(s)) {
                None => None,
                Some(c3) => if s.family_mode {
                    match jget_path(c3, skill_entries_path()) {
                        Some(JVal::Obj(es)) => match disable_risky(es, 6) {
                            None => None,
                            Some(es2) => jset_path(c3, skill_entries_path(), JVal::Obj(es2)),
                        },
                        _ => Some(c3),
                    }
                } else {
                    Some(c3)
                },
            },
        },
    }
}

fn bool_member(k: &str, b: bool) -> (r: (String, Json))
    ensures
        r.0@ == k@,
        r.1@ == JVal::Bool(b),
{
    (k.to_owned(), Json::Bool(b))
}

proof fn lemma_disable_stays_none(es: Seq<(Seq<char>, JVal)>, a: int, b: int)
    requires
        0 < a <= b <= 6,
        disable_risky(es, a) is None,
    ensures
        disable_risky(es, b) is None,
    decreases b - a,
{
    if a < b {
        lemma_disable_stays_none(es, a, b - 1);
    }
}

fn disable_risky_exec(es: Vec<(String, Json)>) -> (r: Option<Vec<(String, Json)>>)
    ensures
        match disable_risky(entries_view(es@), 6) {
            Some(v) => r matches Some(x) && entries_view(x@) == v,
            None => r is None,
        },
{
    let names: [&str; 6] = ["discord", "slack", "xurl", "github", "gh-issues", "nano-pdf"];
    assert(forall|i: int| 0 <= i < 6 ==> names@[i]@ == risky_skills()[i]);
    let ghost es0 = entries_view(es@);
    let mut es = es;
    let mut i: usize = 0;
    #[verifier::loop_isolation(false)]
    while i < 6
        invariant
            i <= 6,
            forall|j: int| 0 <= j < 6 ==> names@[j]@ == risky_skills()[j],
            disable_risky(es0, i as int) == Some(entries_view(es@)),
        decreases 6 - i,
    {
        let k = names[i].to_owned();
        let ghost acc = entries_view(es@);
        proof {
            lemma_obj_view(es@, es@.len());
        }
        match find_member(&es, &k) {
            Some(idx) => {
                let (name, entry) = es.remove(idx);
                let path = keys(&["enabled"]);
                proof {
                    assert(keys_view(path@) =~= seq!["enabled"@]);
                    lemma_find_key(acc, k@);
                }
                match entry.set_path(&path, Json::Bool(false)) {
                    Some(e2) => {
                        let ghost e2v = e2@;
                        es.insert(idx, (name, e2));
                        proof {
                            lemma_obj_view(es@, es@.len());
                            assert(entries_view(es@) =~= put_key(acc, k@, e2v));
                        }
                    },
                    None => {
                        proof {
                            assert(disable_risky(es0, i + 1) is None);
                            lemma_disable_stays_none(es0, i + 1, 6);
                        }
                        return None;
                    },
                }
            },
            None => {},
        }
        i = i + 1;
    }
    Some(es)
}

/// Writes the safety settings into the configuration (see
/// `settings_applied`).
pub fn apply_safety_settings(cfg: Json, s: &SafetySettings) -> (r: Option<Json>)
    ensures
        match settings_applied(cfg@, *s) {
            Some(v) => r matches Some(j) && j@ == v,
            None => r is None,
        },
{
    let ap = keys(&["approvals", "exec", "mode"]);
    let tp = keys(&["tools", "exec", "timeoutSec"]);
    let sp = keys(&["_shell"]);
    let kp = keys(&["skills", "entries"]);
    proof {
        assert(keys_view(ap@) =~= approval_path());
        assert(keys_view(tp@) =~= timeout_path());
        assert(keys_view(sp@) =~= seq!["_shell"@]);
        assert(keys_view(kp@) =~= skill_entries_path());
    }
    let c1 = cfg.set_path(&ap, Json::String(s.approval_mode.clone()))?;
    let c2 = c1.set_path(&tp, Json::Number(JsonNumber::PosInt(s.exec_timeout_seconds)))?;
    let mut section: Vec<(String, Json)> = Vec::new();
    section.push(bool_member("family_mode", s.family_mode));
    section.push(bool_member("redact_secrets", s.redact_secrets_in_logs));
    section.push(bool_member("auto_backup", s.auto_backup_before_changes));
    proof {
        lemma_obj_view(section@, section@.len());
        assert(entries_view(section@) =~= shell_section(*s)->Obj_0);
    }
    let c3 = c2.set_path(&sp, Json::Object(section))?;
    if !s.family_mode {
        return Some(c3);
    }
    let entries = match c3.get_path(&kp) {
        Some(Json::Object(es)) => {
            let mut copy: Vec<(String, Json)> = Vec::new();
            let mut i: usize = 0;
            proof {
                lemma_obj_view(es@, es@.len());
            }
            while i < es.len()
                invariant
                    i <= es@.len(),
                    copy@.len() == i,
                    forall|j: int| 0 <= j < i ==> (#[trigger] copy@[j]).0@ == es@[j].0@ && copy@[j].1@ == es@[j].1@,
                decreases es@.len() - i,
            {
                copy.push((es[i].0.clone(), es[i].1.deep_clone()));
                i = i + 1;
            }
            proof {
                lemma_obj_view(copy@, copy@.len());
                assert(entries_view(copy@) =~= entries_view(es@));
            }
            copy
        },
        _ => {
            return Some(c3);
        },
    };
    let es2 = disable_risky_exec(entries)?;
    c3.set_path(&kp, Json::Object(es2))
}


proof fn lemma_path_through(v1: JVal, v2: JVal, path: Seq<Seq<char>>)
    requires
        path.len() > 0,
        jget(v2, path[0]) == jget(v1, path[0]),
    ensures
        jget_path(v2, path) == jget_path(v1, path),
{
}

/// Reading the settings back gives what was written: after the safety
/// settings are written into a configuration, the approval mode, the
/// command timeout and family mode read from it are the ones written.
pub proof fn law_settings_read_back(cfg: JVal, s: SafetySettings)
    requires
        settings_applied(cfg, s) is Some,
    ensures
        approval_in(settings_applied(cfg, s)->Some_0) == s.approval_mode@,
        timeout_in(settings_applied(cfg, s)->Some_0) == s.exec_timeout_seconds,
        family_in(settings_applied(cfg, s)->Some_0) == s.family_mode,
{
    reveal_strlit("approvals");
    reveal_strlit("tools");
    reveal_strlit("_shell");
    reveal_strlit("skills");
    reveal_strlit("family_mode");
    reveal_strlit("redact_secrets");
    reveal_strlit("auto_backup");
    let c1 = jset_path(cfg, approval_path(), JVal::Str(s.approval_mode@))->Some_0;
    let c2 = jset_path(c1, timeout_path(), JVal::Num(NumV::PosInt(s.exec_timeout_seconds)))->Some_0;
    let c3 = jset_path(c2, seq!["_shell"@], shell_section(s))->Some_0;
    let c = settings_applied(cfg, s)->Some_0;
    law_set_path_read_back(cfg, approval_path(), JVal::Str(s.approval_mode@));
    law_set_path_read_back(c1, timeout_path(), JVal::Num(NumV::PosInt(s.exec_timeout_seconds)));
    law_set_path_read_back(c2, seq!["_shell"@], shell_section(s));
    // later writes leave the earlier members alone
    assert("approvals"@.len() != "tools"@.len());
    assert("approvals"@.len() != "_shell"@.len());
    assert("tools"@.len() != "_shell"@.len());
    assert("approvals"@.len() != "skills"@.len());
    assert("tools"@.len() != "skills"@.len());
    assert("_shell"@[0] != "skills"@[0]);
    assert(timeout_path()[0] == "tools"@);
    assert(skill_entries_path()[0] == "skills"@);
    law_set_path_keeps_siblings(c1, timeout_path(), JVal::Num(NumV::PosInt(s.exec_timeout_seconds)), "approvals"@);
    law_set_path_keeps_siblings(c2, seq!["_shell"@], shell_section(s), "approvals"@);
    law_set_path_keeps_siblings(c2, seq!["_shell"@], shell_section(s), "tools"@);
    lemma_path_through(c1, c2, approval_path());
    lemma_path_through(c2, c3, approval_path());
    lemma_path_through(c2, c3, timeout_path());
    // the shell section holds family mode first
    let sec = shell_section(s)->Obj_0;
    assert(crate::json::find_key(sec, "family_mode"@) == 0);
    reveal_with_fuel(jget_path, 3);
    assert(seq!["_shell"@][0] == "_shell"@);
    assert(seq!["family_mode"@][0] == "family_mode"@);
    assert(seq!["_shell"@].drop_first() =~= Seq::<Seq<char>>::empty());
    assert(jget_path(c3, seq!["_shell"@]) == Some(shell_section(s)));
    assert(jget(c3, "_shell"@) == Some(shell_section(s)));
    assert(family_path().drop_first() =~= seq!["family_mode"@]);
    assert(seq!["family_mode"@].drop_first() =~= Seq::<Seq<char>>::empty());
    assert(jget(shell_section(s), "family_mode"@) == Some(JVal::Bool(s.family_mode)));
    assert(jget_path(shell_section(s), seq!["family_mode"@]) == Some(JVal::Bool(s.family_mode)));
    assert(jget_path(c3, family_path()) == Some(JVal::Bool(s.family_mode)));
    if s.family_mode {
        match jget_path(c3, skill_entries_path()) {
            Some(JVal::Obj(es)) => {
                let es2 = disable_risky(es, 6)->Some_0;
                law_set_path_keeps_siblings(c3, skill_entries_path(), JVal::Obj(es2), "approvals"@);
                law_set_path_keeps_siblings(c3, skill_entries_path(), JVal::Obj(es2), "tools"@);
                law_set_path_keeps_siblings(c3, skill_entries_path(), JVal::Obj(es2), "_shell"@);
                lemma_path_through(c3, c, approval_path());
                lemma_path_through(c3, c, timeout_path());
                lemma_path_through(c3, c, family_path());
            },
            _ => {},
        }
    }
}

} // verus!
