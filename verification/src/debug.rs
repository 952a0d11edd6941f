use vstd::prelude::*;
use crate::text::{contains, lowercase, str_contains, str_eq, to_lower};

verus! {

/// What the debug panel shows of the machine.
pub struct DebugInfo {
    pub node_version: Option<String>,
    pub npm_version: Option<String>,
    pub openclaw_version: Option<String>,
    pub openclaw_path: Option<String>,
    pub config_path: Option<String>,
    pub os: String,
    pub gateway_running: bool,
}

/// The doctor's report in plain language.
pub struct DoctorResult {
    pub raw_output: String,
    pub issues: Vec<DoctorIssue>,
    pub healthy: bool,
}

/// One problem that the doctor found, and what to do about it.
pub struct DoctorIssue {
    pub severity: String,
    pub message: String,
    pub fix_action: String,
    pub auto_fixable: bool,
}

/// An issue as (severity, message, fix, auto-fixable).
pub type IssueV = (Seq<char>, Seq<char>, Seq<char>, bool);

pub open spec fn issue_view(i: DoctorIssue) -> IssueV {
    (i.severity@, i.message@, i.fix_action@, i.auto_fixable)
}

pub open spec fn issues_view(v: Seq<DoctorIssue>) -> Seq<IssueV> {
    v.map_values(|i: DoctorIssue| issue_view(i))
}

/// `s` where `c` holds, else nothing.
pub open spec fn when(c: bool, s: IssueV) -> Seq<IssueV> {
    if c {
        seq![s]
    } else {
        Seq::empty()
    }
}

/// The issues that the doctor's output reports, by the words its
/// lower-cased form holds, in a fixed order; a single success line where
/// there are none.
pub open spec fn doctor_issues(raw: Seq<char>) -> Seq<IssueV> {
    let l = lowercase(raw);
    let found = when(
        contains(l, "node.js v"@) && contains(l, "is required"@),
        ("error"@, "Node.js version is too old."@, "The shell will auto-install the correct Node version."@, true),
    ) + when(
        contains(l, "config"@) && (contains(l, "not found"@) || contains(l, "missing"@)),
        (
            "warning"@,
            "OpenClaw config file is missing or incomplete."@,
            "Run the setup wizard to create a fresh config."@,
            true,
        ),
    ) + when(
        (contains(l, "port"@) && contains(l, "in use"@)) || contains(l, "eaddrinuse"@),
        ("error"@, "Gateway port is already in use."@, "The shell will auto-detect a free port."@, true),
    ) + when(
        contains(l, "api key"@) && (contains(l, "not found"@) || contains(l, "missing"@) || contains(
            l,
            "invalid"@,
        )),
        ("warning"@, "No valid API key is configured."@, "Go to API Keys and add a provider key."@, false),
    ) + when(
        contains(l, "gateway"@) && contains(l, "not running"@),
        ("info"@, "Gateway is not running."@, "Click Start Gateway on the Dashboard."@, true),
    ) + when(
        contains(l, "permission"@) || contains(l, "access denied"@),
        (
            "error"@,
            "Permission denied \u{2014} the app may need administrator rights."@,
            "Run the shell as Administrator and try again."@,
            false,
        ),
    );
    if found.len() == 0 {
        seq![("success"@, "Everything looks good!"@, "No action needed."@, true)]
    } else {
        found
    }
}

/// Whether none of the issues is an error.
pub open spec fn no_errors(issues: Seq<IssueV>) -> bool {
    !exists|k: int| 0 <= k < issues.len() && (#[trigger] issues[k]).0 == "error"@
}

fn issue(severity: &str, message: &str, fix_action: &str, auto_fixable: bool) -> (r: DoctorIssue)
    ensures
        issue_view(r) == (severity@, message@, fix_action@, auto_fixable),
{
    DoctorIssue {
        severity: severity.to_owned(),
        message: message.to_owned(),
        fix_action: fix_action.to_owned(),
        auto_fixable,
    }
}

fn add_when(v: &mut Vec<DoctorIssue>, c: bool, i: DoctorIssue)
    ensures
        issues_view(final(v)@) == issues_view(old(v)@) + when(c, issue_view(i)),
{
    let ghost before = v@;
    if c {
        v.push(i);
        assert(issues_view(v@) =~= issues_view(before) + when(c, issue_view(i)));
    } else {
        assert(issues_view(v@) =~= issues_view(before) + when(c, issue_view(i)));
    }
}

/// Turns the raw output of `openclaw doctor` into plain-language issues;
/// the result is healthy when no issue is an error.
pub fn parse_doctor(raw: String) -> (r: DoctorResult)
    ensures
        r.raw_output == raw,
        issues_view(r.issues@) == doctor_issues(raw@),
        r.healthy == no_errors(doctor_issues(raw@)),
{
    let lower = to_lower(raw.as_str());
    let l = lower.as_str();
    let mut issues: Vec<DoctorIssue> = Vec::new();
    add_when(
        &mut issues,
        str_contains(l, "node.js v") && str_contains(l, "is required"),
        issue("error", "Node.js version is too old.", "The shell will auto-install the correct Node version.", true),
    );
    add_when(
        &mut issues,
        str_contains(l, "config") && (str_contains(l, "not found") || str_contains(l, "missing")),
        issue(
            "warning",
            "OpenClaw config file is missing or incomplete.",
            "Run the setup wizard to create a fresh config.",
            true,
        ),
    );
    add_when(
        &mut issues,
        (str_contains(l, "port") && str_contains(l, "in use")) || str_contains(l, "eaddrinuse"),
        issue("error", "Gateway port is already in use.", "The shell will auto-detect a free port.", true),
    );
    add_when(
        &mut issues,
        str_contains(l, "api key") && (str_contains(l, "not found") || str_contains(l, "missing") || str_contains(
            l,
            "invalid",
        )),
        issue("warning", "No valid API key is configured.", "Go to API Keys and add a provider key.", false),
    );
    add_when(
        &mut issues,
        str_contains(l, "gateway") && str_contains(l, "not running"),
        issue("info", "Gateway is not running.", "Click Start Gateway on the Dashboard.", true),
    );
    add_when(
        &mut issues,
        str_contains(l, "permission") || str_contains(l, "access denied"),
        issue(
            "error",
            "Permission denied \u{2014} the app may need administrator rights.",
            "Run the shell as Administrator and try again.",
            false,
        ),
    );
    assert(issues_view(issues@) =~= seq![] + when(
        contains(lowercase(raw@), "node.js v"@) && contains(lowercase(raw@), "is required"@),
        ("error"@, "Node.js version is too old."@, "The shell will auto-install the correct Node version."@, true),
    ) + when(
        contains(lowercase(raw@), "config"@) && (contains(lowercase(raw@), "not found"@) || contains(lowercase(raw@), "missing"@)),
        (
            "warning"@,
            "OpenClaw config file is missing or incomplete."@,
            "Run the setup wizard to create a fresh config."@,
            true,
        ),
    ) + when(
        (contains(lowercase(raw@), "port"@) && contains(lowercase(raw@), "in use"@)) || contains(lowercase(raw@), "eaddrinuse"@),
        ("error"@, "Gateway port is already in use."@, "The shell will auto-detect a free port."@, true),
    ) + when(
        contains(lowercase(raw@), "api key"@) && (contains(lowercase(raw@), "not found"@) || contains(lowercase(raw@), "missing"@) || contains(
            lowercase(raw@),
            "invalid"@,
        )),
        ("warning"@, "No valid API key is configured."@, "Go to API Keys and add a provider key."@, false),
    ) + when(
        contains(lowercase(raw@), "gateway"@) && contains(lowercase(raw@), "not running"@),
        ("info"@, "Gateway is not running."@, "Click Start Gateway on the Dashboard."@, true),
    ) + when(
        contains(lowercase(raw@), "permission"@) || contains(lowercase(raw@), "access denied"@),
        (
            "error"@,
            "Permission denied \u{2014} the app may need administrator rights."@,
            "Run the shell as Administrator and try again."@,
            false,
        ),
    ));
    if issues.len() == 0 {
        issues.push(issue("success", "Everything looks good!", "No action needed.", true));
        assert(issues_view(issues@) =~= doctor_issues(raw@));
    }
    assert(issues_view(issues@) =~= doctor_issues(raw@));
    let mut healthy = true;
    let mut k: usize = 0;
    while k < issues.len()
        invariant
            k <= issues@.len(),
            issues_view(issues@) == doctor_issues(raw@),
            healthy == !exists|t: int| 0 <= t < k && (#[trigger] issues_view(issues@)[t]).0 == "error"@,
        decreases issues@.len() - k,
    {
        assert(issues_view(issues@)[k as int].0 == issues@[k as int].severity@);
        if str_eq(issues[k].severity.as_str(), "error") {
            healthy = false;
        }
        k = k + 1;
    }
    DoctorResult { raw_output: raw, issues, healthy }
}


/// The issue about the gateway's port.
pub open spec fn port_issue() -> IssueV {
    ("error"@, "Gateway port is already in use."@, "The shell will auto-detect a free port."@, true)
}

/// Every issue reported is one of the fixed issues, and each error issue
/// is reported exactly when its words occur.
#[verifier::rlimit(40)]
proof fn lemma_doctor_members(raw: Seq<char>)
    ensures
        ({
            let l = lowercase(raw);
            let iss = doctor_issues(raw);
            let node = contains(l, "node.js v"@) && contains(l, "is required"@);
            let port = (contains(l, "port"@) && contains(l, "in use"@)) || contains(l, "eaddrinuse"@);
            let perm = contains(l, "permission"@) || contains(l, "access denied"@);
            &&& iss.contains(port_issue()) <==> port
            &&& (exists|k: int| 0 <= k < iss.len() && (#[trigger] iss[k]).0 == "error"@) <==> (node || port || perm)
        }),
{
    reveal_strlit("error");
    reveal_strlit("warning");
    reveal_strlit("info");
    reveal_strlit("success");
    reveal_strlit("Gateway port is already in use.");
    reveal_strlit("Node.js version is too old.");
    reveal_strlit("Permission denied \u{2014} the app may need administrator rights.");
    let l = lowercase(raw);
    let iss = doctor_issues(raw);
    let node = contains(l, "node.js v"@) && contains(l, "is required"@);
    let cfg = contains(l, "config"@) && (contains(l, "not found"@) || contains(l, "missing"@));
    let port = (contains(l, "port"@) && contains(l, "in use"@)) || contains(l, "eaddrinuse"@);
    let key = contains(l, "api key"@) && (contains(l, "not found"@) || contains(l, "missing"@) || contains(
        l,
        "invalid"@,
    ));
    let gw = contains(l, "gateway"@) && contains(l, "not running"@);
    let perm = contains(l, "permission"@) || contains(l, "access denied"@);
    let t1: IssueV = ("error"@, "Node.js version is too old."@, "The shell will auto-install the correct Node version."@, true);
    let t2: IssueV = (
        "warning"@,
        "OpenClaw config file is missing or incomplete."@,
        "Run the setup wizard to create a fresh config."@,
        true,
    );
    let t3 = port_issue();
    let t4: IssueV = ("warning"@, "No valid API key is configured."@, "Go to API Keys and add a provider key."@, false);
    let t5: IssueV = ("info"@, "Gateway is not running."@, "Click Start Gateway on the Dashboard."@, true);
    let t6: IssueV = (
        "error"@,
        "Permission denied \u{2014} the app may need administrator rights."@,
        "Run the shell as Administrator and try again."@,
        false,
    );
    let t0: IssueV = ("success"@, "Everything looks good!"@, "No action needed."@, true);
    let w1 = when(node, t1);
    let w2 = when(cfg, t2);
    let w3 = when(port, t3);
    let w4 = when(key, t4);
    let w5 = when(gw, t5);
    let w6 = when(perm, t6);
    let found = w1 + w2 + w3 + w4 + w5 + w6;
    assert("error"@[0] != "warning"@[0] && "error"@[0] != "info"@[0] && "error"@[0] != "success"@[0]);
    assert("Gateway port is already in use."@[0] != "Node.js version is too old."@[0]);
    assert("Gateway port is already in use."@[0] != "Permission denied \u{2014} the app may need administrator rights."@[0]);
    let n1 = w1.len() as int;
    let n2 = n1 + w2.len();
    let n3 = n2 + w3.len();
    let n4 = n3 + w4.len();
    let n5 = n4 + w5.len();
    assert forall|k: int| 0 <= k < found.len() implies (found[k] == t1 && node) || (found[k] == t2 && cfg) || (
    found[k] == t3 && port) || (found[k] == t4 && key) || (found[k] == t5 && gw) || (found[k] == t6 && perm) by {
        if k < n1 {
            assert(found[k] == w1[k]);
        } else if k < n2 {
            assert(found[k] == w2[k - n1]);
        } else if k < n3 {
            assert(found[k] == w3[k - n2]);
        } else if k < n4 {
            assert(found[k] == w4[k - n3]);
        } else if k < n5 {
            assert(found[k] == w5[k - n4]);
        } else {
            assert(found[k] == w6[k - n5]);
        }
    }
    if node {
        assert(found[0] == t1);
    }
    if port {
        assert(found[n2] == t3);
    }
    if perm {
        assert(found[n5] == t6);
    }
    if found.len() == 0 {
        assert(iss == seq![t0]);
        assert(!node && !port && !perm) by {
            if node {
                assert(w1.len() == 1);
            }
            if port {
                assert(w3.len() == 1);
            }
            if perm {
                assert(w6.len() == 1);
            }
        }
        assert(!iss.contains(t3)) by {
            if iss.contains(t3) {
                assert(iss[0] == t3);
            }
        }
        assert(!exists|k: int| 0 <= k < iss.len() && (#[trigger] iss[k]).0 == "error"@);
    } else {
        assert(iss =~= found);
        if node {
            assert(iss[0].0 == "error"@);
        }
        if port {
            assert(iss.contains(t3));
            assert(iss[n2].0 == "error"@);
        }
        if perm {
            assert(iss[n5].0 == "error"@);
        }
    }
}

/// A port already in use is reported: the doctor's output, lower-cased,
/// names both the port and its being in use, or `eaddrinuse`, exactly when
/// the report holds the error "Gateway port is already in use.".
pub proof fn law_doctor_reports_port_in_use(raw: Seq<char>)
    ensures
        doctor_issues(raw).contains(port_issue()) <==> ((contains(lowercase(raw), "port"@) && contains(
            lowercase(raw),
            "in use"@,
        )) || contains(lowercase(raw), "eaddrinuse"@)),
{
    lemma_doctor_members(raw);
}

/// Health: the output is healthy exactly when it reports neither a
/// Node.js that is too old, nor a port in use, nor a permission problem.
pub proof fn law_doctor_health(raw: Seq<char>)
    ensures
        no_errors(doctor_issues(raw)) <==> !({
            let l = lowercase(raw);
            ||| contains(l, "node.js v"@) && contains(l, "is required"@)
            ||| (contains(l, "port"@) && contains(l, "in use"@)) || contains(l, "eaddrinuse"@)
            ||| contains(l, "permission"@) || contains(l, "access denied"@)
        }),
        (exists|k: int| 0 <= k < doctor_issues(raw).len() && (#[trigger] doctor_issues(raw)[k]).0 == "error"@)
            <==> !no_errors(doctor_issues(raw)),
{
    lemma_doctor_members(raw);
}

} // verus!
