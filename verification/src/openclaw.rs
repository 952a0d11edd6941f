use vstd::prelude::*;
use crate::json::{Json, JVal, JsonNumber, NumV, jget_path, jset_path, keys, keys_view, law_set_path_read_back};
use crate::text::{
    chars_of, contains, decimal, decimal_exec, lines, lines_exec, lowercase, parse_u32,
    parse_u32_exec, seqs_view, split, split_exec, str_contains, string_of, to_lower, trim,
    trim_char, trim_char_exec, trim_exec, chars_eq,
};

verus! {

/// What the dashboard shows of the gateway.
pub struct GatewayStatus {
    pub running: bool,
    pub pid: Option<u32>,
    pub port: Option<u16>,
    pub health: Option<String>,
    pub managed_by_shell: bool,
}

/// The port that the gateway listens on unless the configuration says
/// otherwise.
pub const DEFAULT_GATEWAY_PORT: u16 = 18789;

/// The process id recorded in the pid file: its trimmed text as an
/// unsigned 32-bit number.
pub fn parse_pid(raw: &str) -> (r: Option<u32>)
    ensures
        r == parse_u32(trim(raw@)),
{
    parse_u32_exec(&trim_exec(&chars_of(raw)))
}

pub open spec fn gateway_port_path() -> Seq<Seq<char>> {
    seq!["gateway"@, "port"@]
}

/// The gateway's port: the configured `gateway.port` (a non-negative
/// integer, cut to 16 bits), else the default port.
pub open spec fn configured_port(cfg: JVal) -> u16 {
    match jget_path(cfg, gateway_port_path()) {
        Some(JVal::Num(NumV::PosInt(n))) => (n % 65536) as u16,
        _ => DEFAULT_GATEWAY_PORT,
    }
}

/// The gateway's port as the configuration gives it.
pub fn gateway_port_from_config(cfg: &Json) -> (r: Option<u16>)
    ensures
        r == Some(configured_port(cfg@)),
{
    let path = keys(&["gateway", "port"]);
    proof {
        assert(keys_view(path@) =~= gateway_port_path());
    }
    match cfg.get_path(&path) {
        Some(v) => match v.as_u64() {
            Some(n) => {
                let p = (n % 65536) as u16;
                Some(p)
            },
            None => Some(DEFAULT_GATEWAY_PORT),
        },
        None => Some(DEFAULT_GATEWAY_PORT),
    }
}

/// The configuration after the gateway moved to `port`: nothing to write
/// for the default port (`Some(None)`), else `gateway.port` set
/// (`Some(Some(..))`); `None` where that assignment meets a value that is
/// neither an object nor null.
pub fn port_config_update(cfg: Json, port: u16) -> (r: Option<Option<Json>>)
    ensures
        port == DEFAULT_GATEWAY_PORT ==> r == Some(None::<Json>),
        port != DEFAULT_GATEWAY_PORT ==> match jset_path(cfg@, gateway_port_path(), JVal::Num(NumV::PosInt(port as u64))) {
            Some(v) => r matches Some(Some(j)) && j@ == v,
            None => r is None,
        },
{
    if port == DEFAULT_GATEWAY_PORT {
        return Some(None);
    }
    let path = keys(&["gateway", "port"]);
    proof {
        assert(keys_view(path@) =~= gateway_port_path());
    }
    match cfg.set_path(&path, Json::Number(JsonNumber::PosInt(port as u64))) {
        Some(j) => Some(Some(j)),
        None => None,
    }
}

/// The ports tried for the gateway: from the preferred one up to 100
/// above it.
pub fn port_candidates(preferred: u16) -> (r: Vec<u16>)
    requires
        preferred as int + 100 <= u16::MAX,
    ensures
        r@.len() == 101,
        forall|i: int| 0 <= i < 101 ==> r@[i] == preferred + i,
{
    let mut r: Vec<u16> = Vec::new();
    let mut k: u16 = 0;
    while k <= 100
        invariant
            preferred as int + 100 <= u16::MAX,
            k <= 101,
            r@.len() == k,
            forall|i: int| 0 <= i < r@.len() ==> r@[i] == preferred + i,
        decreases 101 - k,
    {
        r.push(preferred + k);
        k = k + 1;
    }
    r
}

/// The error where no port of the range was free.
pub fn no_free_port_message(preferred: u16) -> (r: String)
    requires
        preferred as int + 100 <= u16::MAX,
    ensures
        r@ == "No free port found in range "@ + decimal(preferred as nat) + "-"@ + decimal((preferred + 100) as nat),
{
    let a = string_of(&decimal_exec(preferred as u64));
    let b = string_of(&decimal_exec((preferred + 100) as u64));
    let mut m = String::new();
    m.append("No free port found in range ");
    m.append(a.as_str());
    m.append("-");
    m.append(b.as_str());
    m
}

/// Whether a Windows process listing shows a gateway: its lower-cased text
/// names both `openclaw` and `gateway`.
pub fn listing_shows_gateway(stdout: &str) -> (r: bool)
    ensures
        r == (contains(lowercase(stdout@), "openclaw"@) && contains(lowercase(stdout@), "gateway"@)),
{
    let l = to_lower(stdout);
    str_contains(l.as_str(), "openclaw") && str_contains(l.as_str(), "gateway")
}

/// Whether a process description names `openclaw` or `node`; on Unix the
/// process name is trimmed before it is lower-cased.
pub open spec fn looks_like_openclaw(out: Seq<char>, windows: bool) -> bool {
    let l = if windows {
        lowercase(out)
    } else {
        lowercase(trim(out))
    };
    contains(l, "openclaw"@) || contains(l, "node"@)
}

/// Whether the process behind a recorded pid is an OpenClaw or Node
/// process, by what the process listing says of it.
pub fn process_looks_like_openclaw(out: &str, windows: bool) -> (r: bool)
    ensures
        r == looks_like_openclaw(out@, windows),
{
    let l = if windows {
        to_lower(out)
    } else {
        let t = string_of(&trim_exec(&chars_of(out)));
        to_lower(t.as_str())
    };
    str_contains(l.as_str(), "openclaw") || str_contains(l.as_str(), "node")
}

/// Whether a line of CSV process listing is the row of `pid`: its second
/// comma-separated field, without the quotes around it, is the pid.
pub open spec fn row_is_pid(line: Seq<char>, pid: u32) -> bool {
    let cols = split(line, ","@);
    cols.len() > 1 && trim_char(cols[1], '"') == decimal(pid as nat)
}

/// Whether a CSV process listing has a row for `pid`.
pub open spec fn listing_has_pid(text: Seq<char>, pid: u32) -> bool {
    exists|i: int| 0 <= i < lines(text).len() && row_is_pid(#[trigger] lines(text)[i], pid)
}

/// Whether a CSV process listing (`tasklist /FO CSV`) has a row for `pid`.
pub fn tasklist_has_pid(text: &str, pid: u32) -> (r: bool)
    ensures
        r == listing_has_pid(text@, pid),
{
    let ls = lines_exec(&chars_of(text));
    let ghost lv = lines(text@);
    let want = decimal_exec(pid as u64);
    let comma = chars_of(",");
    proof {
        reveal_strlit(",");
    }
    let mut i: usize = 0;
    while i < ls.len()
        invariant
            i <= ls@.len(),
            seqs_view(ls@) == lv,
            lv == lines(text@),
            want@ == decimal(pid as nat),
            comma@ == ","@,
            comma@.len() > 0,
            forall|j: int| 0 <= j < i ==> !row_is_pid(#[trigger] lv[j], pid),
        decreases ls@.len() - i,
    {
        assert(ls@[i as int]@ == lv[i as int]);
        let cols = split_exec(&ls[i], &comma);
        if cols.len() > 1 {
            let c = trim_char_exec(&cols[1], '"');
            if chars_eq(&c, &want) {
                assert(row_is_pid(lv[i as int], pid));
                return true;
            }
        }
        i = i + 1;
    }
    false
}

/// The views of a list of lines joined with line feeds.
pub open spec fn join_lines(ls: Seq<Seq<char>>) -> Seq<char>
    decreases ls.len(),
{
    if ls.len() == 0 {
        Seq::empty()
    } else if ls.len() == 1 {
        ls[0]
    } else {
        join_lines(ls.drop_last()) + "\n"@ + ls.last()
    }
}

/// The last `n` lines of a log, joined with line feeds.
pub open spec fn log_tail(content: Seq<char>, n: nat) -> Seq<char> {
    let all = lines(content);
    let start = if all.len() > n {
        all.len() - n
    } else {
        0
    };
    join_lines(all.skip(start))
}

/// The last `n` lines of a log.
pub fn tail_lines(content: &str, n: usize) -> (r: String)
    ensures
        r@ == log_tail(content@, n as nat),
{
    let ls = lines_exec(&chars_of(content));
    let ghost all = lines(content@);
    let start = if ls.len() > n {
        ls.len() - n
    } else {
        0
    };
    let ghost picked = all.skip(start as int);
    let mut out: Vec<char> = Vec::new();
    let mut i = start;
    assert(picked.take(0) =~= Seq::<Seq<char>>::empty());
    while i < ls.len()
        invariant
            start <= i <= ls@.len(),
            seqs_view(ls@) == all,
            picked == all.skip(start as int),
            out@ == join_lines(picked.take(i - start)),
        decreases ls@.len() - i,
    {
        let ghost before = out@;
        let l = &ls[i];
        assert(l@ == picked[i - start]);
        assert(picked.take(i - start + 1).drop_last() =~= picked.take(i - start));
        assert(picked.take(i - start + 1).last() == l@);
        if i > start {
            out.push('\n');
        }
        let mut j: usize = 0;
        let ghost mid = out@;
        while j < l.len()
            invariant
                j <= l@.len(),
                out@ =~= mid + l@.take(j as int),
            decreases l@.len() - j,
        {
            out.push(l[j]);
            j = j + 1;
        }
        proof {
            reveal_strlit("\n");
            assert(l@.take(l@.len() as int) =~= l@);
            if i > start {
                assert(out@ =~= before + "\n"@ + l@);
            } else {
                assert(out@ =~= l@);
            }
        }
        i = i + 1;
    }
    assert(picked.take(ls@.len() - start) =~= picked);
    string_of(&out)
}


/// The number of health checks before a starting gateway is given up.
pub const HEALTH_ATTEMPTS: u32 = 30;

/// Where the wait for a freshly started gateway stands. The caller sleeps
/// half a second before each health check.
pub enum GatewayWait {
    /// Check the gateway's health endpoint (attempt number).
    CheckHealth(u32),
    /// The health check failed: check that the process still runs.
    CheckAlive(u32),
    /// The gateway answered.
    Started,
    /// The process died before it answered.
    Exited(String),
    /// It never answered: stop it and report.
    TimedOut(String),
}

/// The message for a gateway process that died before it answered.
pub open spec fn exited_message(port: u16, attempt: u32) -> Seq<char> {
    "Gateway process exited before binding to port "@ + decimal(port as nat) + " (attempt "@ + decimal(
        attempt as nat,
    ) + "). Check logs for errors."@
}

/// The message for a gateway that never answered.
pub open spec fn timed_out_message(port: u16) -> Seq<char> {
    "Gateway failed to start on port "@ + decimal(port as nat) + " within 15 seconds. Check logs for errors."@
}

fn exited_text(port: u16, attempt: u32) -> (r: String)
    ensures
        r@ == exited_message(port, attempt),
{
    let p = string_of(&decimal_exec(port as u64));
    let a = string_of(&decimal_exec(attempt as u64));
    let mut m = String::new();
    m.append("Gateway process exited before binding to port ");
    m.append(p.as_str());
    m.append(" (attempt ");
    m.append(a.as_str());
    m.append("). Check logs for errors.");
    m
}

fn timed_out_text(port: u16) -> (r: String)
    ensures
        r@ == timed_out_message(port),
{
    let p = string_of(&decimal_exec(port as u64));
    let mut m = String::new();
    m.append("Gateway failed to start on port ");
    m.append(p.as_str());
    m.append(" within 15 seconds. Check logs for errors.");
    m
}

impl GatewayWait {
    /// The first step of the wait.
    pub fn start() -> (r: GatewayWait)
        ensures
            r == GatewayWait::CheckHealth(0),
    {
        GatewayWait::CheckHealth(0)
    }

    /// The next step, given the answer of the check that this step asked
    /// for (the health check passed; the process still runs): a healthy
    /// gateway has started; an unhealthy one is checked for life; a live
    /// one is checked again until the attempts run out; a dead one has
    /// exited. A finished wait stays as it is.
    pub fn next(&self, ok: bool, port: u16) -> (r: GatewayWait)
        ensures
            match *self {
                GatewayWait::CheckHealth(a) => if ok {
                    r == GatewayWait::Started
                } else {
                    r == GatewayWait::CheckAlive(a)
                },
                GatewayWait::CheckAlive(a) => if !ok {
                    r matches GatewayWait::Exited(m) && m@ == exited_message(port, a)
                } else if a + 1 < HEALTH_ATTEMPTS {
                    r == GatewayWait::CheckHealth((a + 1) as u32)
                } else {
                    r matches GatewayWait::TimedOut(m) && m@ == timed_out_message(port)
                },
                GatewayWait::Started => r == GatewayWait::Started,
                GatewayWait::Exited(m) => r matches GatewayWait::Exited(m2) && m2@ == m@,
                GatewayWait::TimedOut(m) => r matches GatewayWait::TimedOut(m2) && m2@ == m@,
            },
    {
        match self {
            GatewayWait::CheckHealth(a) => if ok {
                GatewayWait::Started
            } else {
                GatewayWait::CheckAlive(*a)
            },
            GatewayWait::CheckAlive(a) => if !ok {
                GatewayWait::Exited(exited_text(port, *a))
            } else if *a < HEALTH_ATTEMPTS - 1 {
                GatewayWait::CheckHealth(*a + 1)
            } else {
                GatewayWait::TimedOut(timed_out_text(port))
            },
            GatewayWait::Started => GatewayWait::Started,
            GatewayWait::Exited(m) => GatewayWait::Exited(m.clone()),
            GatewayWait::TimedOut(m) => GatewayWait::TimedOut(m.clone()),
        }
    }
}

/// The refusal to start a second gateway next to one that the shell did
/// not start.
pub open spec fn running_outside_message() -> Seq<char> {
    "Gateway is already running (started outside the shell). Stop it first with 'openclaw gateway stop' or use the existing instance."@
}

/// Whether a gateway may be started: not while one runs that the shell
/// has no pid of.
pub fn start_precheck(running: bool, shell_pid: Option<u32>) -> (r: Result<(), String>)
    ensures
        (running && shell_pid is None) ==> (r matches Err(m) && m@ == running_outside_message()),
        !(running && shell_pid is None) ==> r is Ok,
{
    if running && shell_pid.is_none() {
        Err(
            "Gateway is already running (started outside the shell). Stop it first with 'openclaw gateway stop' or use the existing instance.".to_owned(),
        )
    } else {
        Ok(())
    }
}

/// The pid of a spawned gateway; an error where the process has none (or
/// reports 0).
pub fn spawned_pid(id: Option<u32>) -> (r: Result<u32, String>)
    ensures
        match id {
            Some(p) if p != 0 => r == Ok::<u32, String>(p),
            _ => r matches Err(m) && m@ == "Failed to obtain gateway process ID after spawning."@,
        },
{
    let pid = match id {
        Some(p) => p,
        None => 0,
    };
    if pid == 0 {
        Err("Failed to obtain gateway process ID after spawning.".to_owned())
    } else {
        Ok(pid)
    }
}

/// What the shell knows of the gateway it runs.
pub struct ShellGateway {
    pub pid: Option<u32>,
    pub managed: bool,
}

/// The answer to a request to start the gateway.
pub enum StartDecision {
    /// A gateway that the shell did not start runs: refuse.
    Refuse(String),
    /// The shell's own gateway runs: answer with its pid.
    Reuse(u32),
    /// Start a new gateway.
    Launch,
}

/// The refusal to start next to a gateway started elsewhere.
pub open spec fn foreign_gateway_message() -> Seq<char> {
    "Gateway already running outside shell. Stop it via CLI first."@
}

/// The refusal to stop a gateway that the shell did not start.
pub open spec fn not_ours_message() -> Seq<char> {
    "Gateway was not started by this shell. Use CLI to stop it."@
}

/// The answer to a request to stop, in a given state: refused unless the
/// shell manages the gateway; else the pid to stop, if it has one.
pub open spec fn stop_answer(s: ShellGateway) -> Result<Option<u32>, Seq<char>> {
    if !s.managed {
        Err(not_ours_message())
    } else {
        Ok(s.pid)
    }
}

impl ShellGateway {
    /// The state when the shell starts: no gateway of its own.
    pub fn new() -> (r: ShellGateway)
        ensures
            r.pid is None,
            !r.managed,
    {
        ShellGateway { pid: None, managed: false }
    }

    /// Takes over what a status check found: whether the gateway is the
    /// shell's.
    pub fn observe(&mut self, status: &GatewayStatus)
        ensures
            final(self).managed == status.managed_by_shell,
            final(self).pid == old(self).pid,
    {
        self.managed = status.managed_by_shell;
    }

    /// Decides a request to start, given the current status: refuse next
    /// to a foreign gateway; take back the shell's own running gateway by
    /// its pid; else launch.
    pub fn decide_start(&mut self, status: &GatewayStatus) -> (r: StartDecision)
        ensures
            status.running && !status.managed_by_shell ==> (r matches StartDecision::Refuse(m) && m@
                == foreign_gateway_message() && *final(self) == *old(self)),
            status.running && status.managed_by_shell && status.pid is Some ==> r == StartDecision::Reuse(
                status.pid->Some_0,
            ) && final(self).pid == status.pid && final(self).managed,
            !(status.running && !status.managed_by_shell) && !(status.running && status.managed_by_shell
                && status.pid is Some) ==> r == StartDecision::Launch && *final(self) == *old(self),
    {
        if status.running && !status.managed_by_shell {
            return StartDecision::Refuse("Gateway already running outside shell. Stop it via CLI first.".to_owned());
        }
        if status.running && status.managed_by_shell {
            match status.pid {
                Some(pid) => {
                    self.pid = Some(pid);
                    self.managed = true;
                    return StartDecision::Reuse(pid);
                },
                None => {},
            }
        }
        StartDecision::Launch
    }

    /// Records a gateway that the shell started.
    pub fn started(&mut self, pid: u32)
        ensures
            final(self).pid == Some(pid),
            final(self).managed,
    {
        self.pid = Some(pid);
        self.managed = true;
    }

    /// Decides a request to stop (see `stop_answer`).
    pub fn decide_stop(&self) -> (r: Result<Option<u32>, String>)
        ensures
            match stop_answer(*self) {
                Ok(p) => r == Ok::<Option<u32>, String>(p),
                Err(m) => r matches Err(e) && e@ == m,
            },
    {
        if !self.managed {
            Err("Gateway was not started by this shell. Use CLI to stop it.".to_owned())
        } else {
            Ok(self.pid)
        }
    }

    /// Records that the shell's gateway was stopped.
    pub fn stopped(&mut self)
        ensures
            final(self).pid is None,
            !final(self).managed,
    {
        self.pid = None;
        self.managed = false;
    }

    /// The gateway that a restart stops first: the shell's own, if it runs
    /// one.
    pub fn restart_target(&self) -> (r: Option<u32>)
        ensures
            r == if self.managed {
                self.pid
            } else {
                None
            },
    {
        if self.managed {
            self.pid
        } else {
            None
        }
    }
}

/// A gateway that the shell started is the one a stop request stops.
pub proof fn law_stop_after_start(s: ShellGateway, pid: u32)
    requires
        s.pid == Some(pid),
        s.managed,
    ensures
        stop_answer(s) == Ok::<Option<u32>, Seq<char>>(Some(pid)),
{
}

/// After a stop the shell has no gateway, and a second stop is refused.
pub proof fn law_stop_is_final(s: ShellGateway)
    requires
        s.pid is None,
        !s.managed,
    ensures
        stop_answer(s) == Err::<Option<u32>, Seq<char>>(not_ours_message()),
{
}


/// A port other than the default that the gateway moved to is the port
/// that the configuration gives once `port_config_update` has written it.
pub proof fn law_moved_port_read_back(cfg: JVal, port: u16)
    requires
        port != DEFAULT_GATEWAY_PORT,
        jset_path(cfg, gateway_port_path(), JVal::Num(NumV::PosInt(port as u64))) is Some,
    ensures
        configured_port(jset_path(cfg, gateway_port_path(), JVal::Num(NumV::PosInt(port as u64)))->Some_0) == port,
{
    law_set_path_read_back(cfg, gateway_port_path(), JVal::Num(NumV::PosInt(port as u64)));
    assert((port as u64) % 65536 == port as u64);
}

} // verus!
