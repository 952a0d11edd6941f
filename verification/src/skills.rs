use vstd::prelude::*;
use crate::json::{Json, JVal, jget_path, jset_path, keys, keys_view, law_set_path_read_back};
use crate::backup::strings_view;
use crate::text::{
    byte_len, byte_len_exec, char_index_at_byte, char_index_at_byte_exec, chars_of, contains,
    find_exec, find_from, lines, lines_exec, lowercase, matches_at_exec, seqs_view, starts_with,
    str_contains, string_of, sub_chars, to_lower, trim, trim_char, trim_char_exec, trim_exec,
};

verus! {

/// What the skill review shows of an installed skill.
pub struct SkillReview {
    pub name: String,
    pub description: String,
    pub permissions: Vec<String>,
    pub risk_level: String,
    pub safety_notes: Vec<String>,
    pub enabled: bool,
}

/// At most this many bytes of a skill's manifest are read.
pub const MAX_MANIFEST_BYTES: usize = 1048576;

/// Whether the manifest can be cut at `MAX_MANIFEST_BYTES` where it is
/// longer (the cut must fall between two characters).
pub open spec fn manifest_cut_ok(content: Seq<char>) -> bool {
    byte_len(content) > MAX_MANIFEST_BYTES ==> char_index_at_byte(content, MAX_MANIFEST_BYTES as int) is Some
}

/// The part of the manifest that is read.
pub open spec fn capped(content: Seq<char>) -> Seq<char> {
    if byte_len(content) > MAX_MANIFEST_BYTES {
        content.take(char_index_at_byte(content, MAX_MANIFEST_BYTES as int)->Some_0)
    } else {
        content
    }
}

/// The front matter of a manifest: what stands between a leading `---`
/// and the next `---`.
pub open spec fn front_matter(c: Seq<char>) -> Option<Seq<char>> {
    if starts_with(c, "---"@) {
        let tail = c.skip(3);
        let e = find_from(tail, "---"@, 0);
        if e >= 0 {
            Some(tail.take(e))
        } else {
            None
        }
    } else {
        None
    }
}

/// The index of the first line starting with `description:`, or -1.
pub open spec fn description_line(ls: Seq<Seq<char>>) -> int
    decreases ls.len(),
{
    if ls.len() == 0 {
        -1
    } else if starts_with(ls[0], "description:"@) {
        0
    } else {
        let r = description_line(ls.drop_first());
        if r < 0 {
            -1
        } else {
            r + 1
        }
    }
}

proof fn lemma_description_line(ls: Seq<Seq<char>>)
    ensures
        -1 <= description_line(ls) < ls.len(),
        description_line(ls) >= 0 ==> starts_with(ls[description_line(ls)], "description:"@),
        forall|j: int| 0 <= j < ls.len() && (description_line(ls) < 0 || j < description_line(ls)) ==> !starts_with(#[trigger] ls[j], "description:"@),
    decreases ls.len(),
{
    if ls.len() > 0 && !starts_with(ls[0], "description:"@) {
        lemma_description_line(ls.drop_first());
        assert forall|j: int| 0 <= j < ls.len() && (description_line(ls) < 0 || j < description_line(ls)) implies !starts_with(#[trigger] ls[j], "description:"@) by {
            if j > 0 {
                assert(ls[j] == ls.drop_first()[j - 1]);
            }
        }
    }
}

/// The description of a skill: the `description:` line of its front
/// matter without the key, trimmed of white space and quotes.
pub open spec fn description_of(c: Seq<char>) -> Seq<char> {
    match front_matter(c) {
        Some(f) => {
            let ls = lines(f);
            let i = description_line(ls);
            if i >= 0 {
                trim_char(trim(ls[i].skip(12)), '"')
            } else {
                "No description available."@
            }
        },
        None => "No description available."@,
    }
}

/// `s` where `c` holds, else nothing.
pub open spec fn when(c: bool, s: Seq<char>) -> Seq<Seq<char>> {
    if c {
        seq![s]
    } else {
        Seq::empty()
    }
}

pub open spec fn runs_shell(l: Seq<char>) -> bool {
    contains(l, "bash"@) || contains(l, "shell"@) || contains(l, "exec"@) || contains(l, "command"@)
}

pub open spec fn uses_files(l: Seq<char>) -> bool {
    contains(l, "file"@) || contains(l, "write"@) || contains(l, "delete"@)
}

pub open spec fn uses_network(l: Seq<char>) -> bool {
    contains(l, "network"@) || contains(l, "http"@) || contains(l, "fetch"@) || contains(l, "api"@)
}

pub open spec fn drives_browser(l: Seq<char>) -> bool {
    contains(l, "browser"@) || contains(l, "snapshot"@) || contains(l, "click"@)
}

/// The permissions that the words of a (lower-cased) manifest suggest.
pub open spec fn permissions_of(l: Seq<char>) -> Seq<Seq<char>> {
    when(runs_shell(l), "Shell command execution"@) + when(uses_files(l), "File system access"@) + when(
        uses_network(l),
        "Network access"@,
    ) + when(drives_browser(l), "Browser automation"@)
}

/// The safety notes that go with them.
pub open spec fn notes_of(l: Seq<char>) -> Seq<Seq<char>> {
    when(runs_shell(l), "This skill can run arbitrary shell commands."@) + when(
        uses_files(l),
        "This skill can read/write files on your computer."@,
    ) + when(uses_network(l), "This skill can make requests to the internet."@) + when(
        drives_browser(l),
        "This skill can control your web browser."@,
    )
}

/// The risk: high for shell commands, medium for files, network or
/// browser, low otherwise.
pub open spec fn risk_of(l: Seq<char>) -> Seq<char> {
    if runs_shell(l) {
        "high"@
    } else if uses_files(l) || uses_network(l) || drives_browser(l) {
        "medium"@
    } else {
        "low"@
    }
}

/// Whether the configuration leaves a skill enabled: its `enabled` entry,
/// and enabled where there is none or the configuration could not be read.
pub open spec fn enabled_in(cfg: Option<JVal>, name: Seq<char>) -> bool {
    match cfg {
        Some(c) => match jget_path(c, seq!["skills"@, "entries"@, name, "enabled"@]) {
            Some(JVal::Bool(b)) => b,
            _ => true,
        },
        None => true,
    }
}

/// What the review of a skill says, given its manifest where it could be
/// read: (description, permissions, risk, notes).
pub open spec fn review_of(content: Option<Seq<char>>) -> (Seq<char>, Seq<Seq<char>>, Seq<char>, Seq<Seq<char>>) {
    match content {
        Some(raw) => {
            let c = capped(raw);
            let l = lowercase(c);
            let perms = permissions_of(l);
            if perms.len() == 0 {
                (
                    description_of(c),
                    seq!["Read-only / information lookup"@],
                    risk_of(l),
                    notes_of(l).push("This skill appears to only read information."@),
                )
            } else {
                (description_of(c), perms, risk_of(l), notes_of(l))
            }
        },
        None => (
            "No description available."@,
            seq!["Read-only / information lookup"@],
            "low"@,
            seq!["This skill appears to only read information."@],
        ),
    }
}

fn push_when(v: &mut Vec<String>, c: bool, s: &str)
    ensures
        strings_view(final(v)@) == strings_view(old(v)@) + when(c, s@),
{
    let ghost before = v@;
    if c {
        v.push(s.to_owned());
    }
    assert(strings_view(v@) =~= strings_view(before) + when(c, s@));
}

/// Whether `review_skill` can cut the manifest where it is too long.
pub fn manifest_cut_ok_exec(content: &str) -> (r: bool)
    ensures
        r == manifest_cut_ok(content@),
{
    let v = chars_of(content);
    if byte_len_exec(&v) > MAX_MANIFEST_BYTES as u128 {
        char_index_at_byte_exec(&v, MAX_MANIFEST_BYTES as u128).is_some()
    } else {
        true
    }
}

fn description_exec(c: &Vec<char>) -> (r: String)
    ensures
        r@ == description_of(c@),
{
    let dashes = chars_of("---");
    proof {
        reveal_strlit("---");
        reveal_strlit("description:");
    }
    if !(c.len() >= 3 && matches_at_exec(c, &dashes, 0)) {
        return "No description available.".to_owned();
    }
    let tail = sub_chars(c, 3, c.len());
    assert(tail@ =~= c@.skip(3));
    proof {
        crate::text::lemma_find_from(tail@, dashes@, 0);
    }
    match find_exec(&tail, &dashes, 0) {
        Some(e) => {
            let front = sub_chars(&tail, 0, e);
            let ls = lines_exec(&front);
            let key = chars_of("description:");
            let ghost lv = seqs_view(ls@);
            proof {
                lemma_description_line(lv);
            }
            let mut i: usize = 0;
            assert(front@ == front_matter(c@)->Some_0);
            #[verifier::loop_isolation(false)]
            while i < ls.len()
                invariant
                    i <= ls@.len(),
                    lv == seqs_view(ls@),
                    lv.len() == ls@.len(),
                    key@ == "description:"@,
                    key@.len() == 12,
                    forall|j: int| 0 <= j < i ==> !starts_with(#[trigger] lv[j], "description:"@),
                    -1 <= description_line(lv) < lv.len(),
                    description_line(lv) >= 0 ==> starts_with(lv[description_line(lv)], "description:"@),
                    forall|j: int| 0 <= j < lv.len() && (description_line(lv) < 0 || j < description_line(lv)) ==> !starts_with(#[trigger] lv[j], "description:"@),
                decreases ls@.len() - i,
            {
                let l = &ls[i];
                assert(l@ == lv[i as int]);
                if matches_at_exec(l, &key, 0) {
                    assert(description_line(lv) == i);
                    let rest = sub_chars(l, 12, l.len());
                    assert(rest@ =~= l@.skip(12));
                    let t = trim_exec(&rest);
                    let d = trim_char_exec(&t, '"');
                    return string_of(&d);
                }
                i = i + 1;
            }
            "No description available.".to_owned()
        },
        None => "No description available.".to_owned(),
    }
}

/// Reviews an installed skill: what its manifest (where it could be read)
/// says it does, how risky that is, and whether the configuration leaves
/// it enabled.
pub fn review_skill(name: &str, content: Option<&str>, cfg: Option<&Json>) -> (r: SkillReview)
    requires
        content matches Some(c) ==> manifest_cut_ok(c@),
    ensures
        r.name@ == name@,
        (r.description@, strings_view(r.permissions@), r.risk_level@, strings_view(r.safety_notes@))
            == review_of(
            match content {
                Some(c) => Some(c@),
                None => None,
            },
        ),
        r.enabled == enabled_in(
            match cfg {
                Some(c) => Some(c@),
                None => None,
            },
            name@,
        ),
{
    let mut permissions: Vec<String> = Vec::new();
    let mut safety_notes: Vec<String> = Vec::new();
    let mut description = "No description available.".to_owned();
    let mut risk_level = "low".to_owned();
    match content {
        Some(raw) => {
            let v = chars_of(raw);
            let n = byte_len_exec(&v);
            let c = if n > MAX_MANIFEST_BYTES as u128 {
                assert(manifest_cut_ok(raw@));
                match char_index_at_byte_exec(&v, MAX_MANIFEST_BYTES as u128) {
                    Some(k) => {
                        proof {
                            let kk = choose|kk: int| crate::text::boundary_at(v@, MAX_MANIFEST_BYTES as int, kk);
                            assert(crate::text::boundary_at(v@, MAX_MANIFEST_BYTES as int, kk));
                        }
                        sub_chars(&v, 0, k)
                    },
                    None => v,
                }
            } else {
                v
            };
            assert(c@ =~= capped(raw@));
            description = description_exec(&c);
            let lower = to_lower(string_of(&c).as_str());
            let l = lower.as_str();
            let shell = str_contains(l, "bash") || str_contains(l, "shell") || str_contains(l, "exec")
                || str_contains(l, "command");
            let files = str_contains(l, "file") || str_contains(l, "write") || str_contains(l, "delete");
            let net = str_contains(l, "network") || str_contains(l, "http") || str_contains(l, "fetch")
                || str_contains(l, "api");
            let browser = str_contains(l, "browser") || str_contains(l, "snapshot") || str_contains(l, "click");
            push_when(&mut permissions, shell, "Shell command execution");
            push_when(&mut safety_notes, shell, "This skill can run arbitrary shell commands.");
            push_when(&mut permissions, files, "File system access");
            push_when(&mut safety_notes, files, "This skill can read/write files on your computer.");
            push_when(&mut permissions, net, "Network access");
            push_when(&mut safety_notes, net, "This skill can make requests to the internet.");
            push_when(&mut permissions, browser, "Browser automation");
            push_when(&mut safety_notes, browser, "This skill can control your web browser.");
            if shell {
                risk_level = "high".to_owned();
            } else if files || net || browser {
                risk_level = "medium".to_owned();
            }
            assert(strings_view(permissions@) =~= permissions_of(lowercase(capped(raw@))));
            assert(strings_view(safety_notes@) =~= notes_of(lowercase(capped(raw@))));
        },
        None => {},
    }
    if permissions.len() == 0 {
        let ghost before = safety_notes@;
        permissions.push("Read-only / information lookup".to_owned());
        safety_notes.push("This skill appears to only read information.".to_owned());
        assert(strings_view(permissions@) =~= seq!["Read-only / information lookup"@]);
        assert(strings_view(safety_notes@) =~= strings_view(before).push("This skill appears to only read information."@));
    }
    let enabled = match cfg {
        Some(c) => {
            let path = keys(&["skills", "entries", name, "enabled"]);
            proof {
                assert(keys_view(path@) =~= seq!["skills"@, "entries"@, name@, "enabled"@]);
            }
            match c.get_path(&path) {
                Some(v) => match v.as_bool() {
                    Some(b) => b,
                    None => true,
                },
                None => true,
            }
        },
        None => true,
    };
    SkillReview { name: name.to_owned(), description, permissions, risk_level, safety_notes, enabled }
}

/// The configuration with a skill switched on or off; `None` where an
/// assignment on the way meets a value that is neither an object nor null.
pub fn set_skill_enabled(cfg: Json, name: &str, enabled: bool) -> (r: Option<Json>)
    ensures
        match jset_path(cfg@, seq!["skills"@, "entries"@, name@, "enabled"@], JVal::Bool(enabled)) {
            Some(v) => r matches Some(j) && j@ == v,
            None => r is None,
        },
{
    let path = keys(&["skills", "entries", name, "enabled"]);
    proof {
        assert(keys_view(path@) =~= seq!["skills"@, "entries"@, name@, "enabled"@]);
    }
    cfg.set_path(&path, Json::Bool(enabled))
}


/// Switching a skill on or off shows in its review: the configuration that
/// results says the skill is enabled exactly when it was switched on.
pub proof fn law_switch_read_back(cfg: JVal, name: Seq<char>, enabled: bool)
    requires
        jset_path(cfg, seq!["skills"@, "entries"@, name, "enabled"@], JVal::Bool(enabled)) is Some,
    ensures
        enabled_in(
            Some(jset_path(cfg, seq!["skills"@, "entries"@, name, "enabled"@], JVal::Bool(enabled))->Some_0),
            name,
        ) == enabled,
{
    law_set_path_read_back(cfg, seq!["skills"@, "entries"@, name, "enabled"@], JVal::Bool(enabled));
}


/// The permissions that a manifest's words suggest, and no others: each
/// permission is listed exactly when one of its words occurs.
proof fn lemma_permissions_listed(l: Seq<char>)
    ensures
        permissions_of(l).contains("Shell command execution"@) <==> runs_shell(l),
        permissions_of(l).contains("File system access"@) <==> uses_files(l),
        permissions_of(l).contains("Network access"@) <==> uses_network(l),
        permissions_of(l).contains("Browser automation"@) <==> drives_browser(l),
        permissions_of(l).len() == 0 <==> !(runs_shell(l) || uses_files(l) || uses_network(l) || drives_browser(l)),
        !permissions_of(l).contains("Read-only / information lookup"@),
{
    reveal_strlit("Shell command execution");
    reveal_strlit("File system access");
    reveal_strlit("Network access");
    reveal_strlit("Browser automation");
    reveal_strlit("Read-only / information lookup");
    let a = "Shell command execution"@;
    let b = "File system access"@;
    let c = "Network access"@;
    let d = "Browser automation"@;
    let e = "Read-only / information lookup"@;
    assert(a[0] != b[0] && a[0] != c[0] && a[0] != d[0] && a[0] != e[0]);
    assert(b[0] != c[0] && b[0] != d[0] && b[0] != e[0]);
    assert(c[0] != d[0] && c[0] != e[0]);
    assert(d[0] != e[0]);
    let p = permissions_of(l);
    let w1 = when(runs_shell(l), a);
    let w2 = when(uses_files(l), b);
    let w3 = when(uses_network(l), c);
    let w4 = when(drives_browser(l), d);
    assert(p == w1 + w2 + w3 + w4);
    assert forall|k: int| 0 <= k < p.len() implies (p[k] == a || p[k] == b || p[k] == c || p[k] == d) && (p[k]
        == a ==> runs_shell(l)) && (p[k] == b ==> uses_files(l)) && (p[k] == c ==> uses_network(l)) && (p[k] == d
        ==> drives_browser(l)) by {
        if k < w1.len() {
            assert(p[k] == w1[k]);
        } else if k < w1.len() + w2.len() {
            assert(p[k] == w2[k - w1.len()]);
        } else if k < w1.len() + w2.len() + w3.len() {
            assert(p[k] == w3[k - w1.len() - w2.len()]);
        } else {
            assert(p[k] == w4[k - w1.len() - w2.len() - w3.len()]);
        }
    }
    if runs_shell(l) {
        assert(p[0] == a);
    }
    if uses_files(l) {
        assert(p[w1.len() as int] == b);
    }
    if uses_network(l) {
        assert(p[(w1.len() + w2.len()) as int] == c);
    }
    if drives_browser(l) {
        assert(p[(w1.len() + w2.len() + w3.len()) as int] == d);
    }
}

/// How risky a skill is follows from the permissions its review lists:
/// high exactly when it runs shell commands; low exactly when it only
/// reads information; medium when it uses files, the network or the
/// browser without shell commands.
pub proof fn law_risk_follows_permissions(content: Option<Seq<char>>)
    ensures
        review_of(content).2 == "high"@ <==> review_of(content).1.contains("Shell command execution"@),
        review_of(content).2 == "low"@ <==> review_of(content).1 == seq!["Read-only / information lookup"@],
        review_of(content).2 == "medium"@ <==> (!review_of(content).1.contains("Shell command execution"@)
            && (review_of(content).1.contains("File system access"@) || review_of(content).1.contains(
            "Network access"@,
        ) || review_of(content).1.contains("Browser automation"@))),
{
    reveal_strlit("high");
    reveal_strlit("low");
    reveal_strlit("medium");
    reveal_strlit("Shell command execution");
    reveal_strlit("File system access");
    reveal_strlit("Network access");
    reveal_strlit("Browser automation");
    reveal_strlit("Read-only / information lookup");
    assert("high"@[0] != "low"@[0] && "high"@[0] != "medium"@[0] && "low"@[0] != "medium"@[0]);
    let ro = seq!["Read-only / information lookup"@];
    assert("Read-only / information lookup"@[0] != "Shell command execution"@[0]);
    assert("Read-only / information lookup"@[0] != "File system access"@[0]);
    assert("Read-only / information lookup"@[0] != "Network access"@[0]);
    assert("Read-only / information lookup"@[0] != "Browser automation"@[0]);
    assert(!ro.contains("Shell command execution"@)) by {
        if ro.contains("Shell command execution"@) {
            assert(ro[0] == "Shell command execution"@);
        }
    }
    assert(!ro.contains("File system access"@)) by {
        if ro.contains("File system access"@) {
            assert(ro[0] == "File system access"@);
        }
    }
    assert(!ro.contains("Network access"@)) by {
        if ro.contains("Network access"@) {
            assert(ro[0] == "Network access"@);
        }
    }
    assert(!ro.contains("Browser automation"@)) by {
        if ro.contains("Browser automation"@) {
            assert(ro[0] == "Browser automation"@);
        }
    }
    match content {
        Some(raw) => {
            let l = lowercase(capped(raw));
            lemma_permissions_listed(l);
            let p = permissions_of(l);
            if p.len() > 0 {
                assert(p != ro) by {
                    if p == ro {
                        assert(p.contains(ro[0]));
                    }
                }
            }
        },
        None => {},
    }
}

/// The words of a manifest decide what its review lists and how risky it
/// is: shell words give shell access and high risk; words about files, the
/// network or the browser give that permission and at least medium risk.
pub proof fn law_review_by_words(raw: Seq<char>)
    ensures
        ({
            let l = lowercase(capped(raw));
            let r = review_of(Some(raw));
            &&& (contains(l, "bash"@) || contains(l, "shell"@) || contains(l, "exec"@) || contains(l, "command"@))
                ==> r.1.contains("Shell command execution"@) && r.2 == "high"@
            &&& (contains(l, "file"@) || contains(l, "write"@) || contains(l, "delete"@)) ==> r.1.contains(
                "File system access"@,
            ) && r.2 != "low"@
            &&& (contains(l, "network"@) || contains(l, "http"@) || contains(l, "fetch"@) || contains(l, "api"@))
                ==> r.1.contains("Network access"@) && r.2 != "low"@
            &&& (contains(l, "browser"@) || contains(l, "snapshot"@) || contains(l, "click"@)) ==> r.1.contains(
                "Browser automation"@,
            ) && r.2 != "low"@
        }),
{
    let l = lowercase(capped(raw));
    lemma_permissions_listed(l);
    law_risk_follows_permissions(Some(raw));
    reveal_strlit("Read-only / information lookup");
    reveal_strlit("File system access");
    reveal_strlit("Network access");
    reveal_strlit("Browser automation");
    let p = permissions_of(l);
    let ro = seq!["Read-only / information lookup"@];
    if p == ro {
        assert(p.contains(ro[0]));
    }
}

} // verus!
