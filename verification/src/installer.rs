use vstd::prelude::*;
use sha2::Digest;
use crate::backup::strings_view;
use crate::text::{chars_of, is_ws, is_ws_exec, lead_ws, string_of, str_eq};

verus! {

/// Which runtimes are installed and where they come from.
pub struct PrereqStatus {
    pub node_installed: bool,
    pub node_version: Option<String>,
    pub npm_installed: bool,
    pub openclaw_installed: bool,
    pub openclaw_version: Option<String>,
    pub managed_runtime: bool,
}

/// The path components of the managed `node` binary inside the runtime
/// directory.
pub fn node_bin(windows: bool) -> (r: Vec<String>)
    ensures
        strings_view(r@) == if windows {
            seq!["node.exe"@]
        } else {
            seq!["bin"@, "node"@]
        },
{
    let mut r: Vec<String> = Vec::new();
    if windows {
        r.push("node.exe".to_owned());
    } else {
        r.push("bin".to_owned());
        r.push("node".to_owned());
    }
    assert(strings_view(r@) =~= if windows {
        seq!["node.exe"@]
    } else {
        seq!["bin"@, "node"@]
    });
    r
}

/// The path components of the managed `npm` inside the runtime directory.
pub fn npm_bin(windows: bool) -> (r: Vec<String>)
    ensures
        strings_view(r@) == if windows {
            seq!["npm.cmd"@]
        } else {
            seq!["bin"@, "npm"@]
        },
{
    let mut r: Vec<String> = Vec::new();
    if windows {
        r.push("npm.cmd".to_owned());
    } else {
        r.push("bin".to_owned());
        r.push("npm".to_owned());
    }
    assert(strings_view(r@) =~= if windows {
        seq!["npm.cmd"@]
    } else {
        seq!["bin"@, "npm"@]
    });
    r
}

/// The path components of the managed `openclaw` command inside the
/// runtime directory.
pub fn openclaw_bin(windows: bool) -> (r: Vec<String>)
    ensures
        strings_view(r@) == if windows {
            seq!["node_modules"@, ".bin"@, "openclaw.cmd"@]
        } else {
            seq!["node_modules"@, ".bin"@, "openclaw"@]
        },
{
    let mut r: Vec<String> = Vec::new();
    r.push("node_modules".to_owned());
    r.push(".bin".to_owned());
    if windows {
        r.push("openclaw.cmd".to_owned());
    } else {
        r.push("openclaw".to_owned());
    }
    assert(strings_view(r@) =~= if windows {
        seq!["node_modules"@, ".bin"@, "openclaw.cmd"@]
    } else {
        seq!["node_modules"@, ".bin"@, "openclaw"@]
    });
    r
}

/// `s` with every single quote doubled.
pub open spec fn double_quotes(s: Seq<char>) -> Seq<char>
    decreases s.len(),
{
    if s.len() == 0 {
        Seq::empty()
    } else {
        double_quotes(s.drop_last()) + if s.last() == '\'' {
            seq!['\'', '\'']
        } else {
            seq![s.last()]
        }
    }
}

/// A path quoted for a single-quoted PowerShell string: inside the quotes
/// every single quote is doubled.
pub open spec fn ps_quoted(path: Seq<char>) -> Seq<char> {
    seq!['\''] + double_quotes(path) + seq!['\'']
}

/// Quotes a path for use inside a single-quoted PowerShell string.
pub fn escape_ps_path(path: &str) -> (r: String)
    ensures
        r@ == ps_quoted(path@),
{
    let v = chars_of(path);
    let mut out: Vec<char> = Vec::new();
    out.push('\'');
    let mut i: usize = 0;
    assert(v@.take(0) =~= Seq::<char>::empty());
    while i < v.len()
        invariant
            i <= v@.len(),
            out@ =~= seq!['\''] + double_quotes(v@.take(i as int)),
        decreases v@.len() - i,
    {
        let ghost before = out@;
        assert(v@.take(i + 1).drop_last() =~= v@.take(i as int));
        assert(v@.take(i + 1).last() == v@[i as int]);
        if v[i] == '\'' {
            out.push('\'');
            out.push('\'');
        } else {
            out.push(v[i]);
        }
        i = i + 1;
    }
    out.push('\'');
    assert(v@.take(v@.len() as int) =~= v@);
    string_of(&out)
}

/// The Node.js release that the shell installs.
pub const NODE_VERSION: &'static str = "v22.11.0";

/// Where the Windows build of a Node.js release is downloaded from.
pub fn node_zip_url(version: &str) -> (r: String)
    ensures
        r@ == "https://nodejs.org/dist/"@ + version@ + "/node-"@ + version@ + "-win-x64.zip"@,
{
    let mut r = String::new();
    r.append("https://nodejs.org/dist/");
    r.append(version);
    r.append("/node-");
    r.append(version);
    r.append("-win-x64.zip");
    r
}

/// Where the checksum of a download is published: its URL with `.sha256`.
pub fn checksum_url(url: &str) -> (r: String)
    ensures
        r@ == url@ + ".sha256"@,
{
    let mut r = String::new();
    r.append(url);
    r.append(".sha256");
    r
}

/// The folder that the Windows archive of a release unpacks into.
pub fn node_nested_dir(version: &str) -> (r: String)
    ensures
        r@ == "node-"@ + version@ + "-win-x64"@,
{
    let mut r = String::new();
    r.append("node-");
    r.append(version);
    r.append("-win-x64");
    r
}

/// The SHA-256 digest of `data`.
pub uninterp spec fn sha256(data: Seq<u8>) -> Seq<u8>;

/// `sha2::Sha256::digest`: the SHA-256 digest of `data`, 32 bytes.
#[verifier::external_body]
fn sha256_digest(data: &[u8]) -> (r: Vec<u8>)
    ensures
        r@ == sha256(data@),
        r@.len() == 32,
{
    sha2::Sha256::digest(data).to_vec()
}

/// The lower-case hexadecimal digit of `d`.
pub open spec fn hex_digit(d: int) -> char {
    if d < 10 {
        (48 + d) as char
    } else {
        (87 + d) as char
    }
}

/// Bytes in lower-case hexadecimal, two digits each.
pub open spec fn hex_lower(b: Seq<u8>) -> Seq<char>
    decreases b.len(),
{
    if b.len() == 0 {
        Seq::empty()
    } else {
        hex_lower(b.drop_last()) + seq![hex_digit(b.last() as int / 16), hex_digit(b.last() as int % 16)]
    }
}

fn hex_digit_exec(d: u8) -> (c: char)
    requires
        d < 16,
    ensures
        c == hex_digit(d as int),
{
    if d < 10 {
        (48 + d) as char
    } else {
        (87 + d) as char
    }
}

/// Writes bytes in lower-case hexadecimal.
pub fn hex_lower_exec(b: &Vec<u8>) -> (r: Vec<char>)
    ensures
        r@ == hex_lower(b@),
{
    let mut out: Vec<char> = Vec::new();
    let mut i: usize = 0;
    assert(b@.take(0) =~= Seq::<u8>::empty());
    while i < b.len()
        invariant
            i <= b@.len(),
            out@ == hex_lower(b@.take(i as int)),
        decreases b@.len() - i,
    {
        assert(b@.take(i + 1).drop_last() =~= b@.take(i as int));
        assert(b@.take(i + 1).last() == b@[i as int]);
        let ghost before = out@;
        out.push(hex_digit_exec(b[i] / 16));
        out.push(hex_digit_exec(b[i] % 16));
        assert(out@ =~= before + seq![hex_digit(b@[i as int] as int / 16), hex_digit(b@[i as int] as int % 16)]);
        i = i + 1;
    }
    assert(b@.take(b@.len() as int) =~= b@);
    out
}

/// The number of characters before the first white space of `s`.
pub open spec fn word_len(s: Seq<char>) -> nat
    decreases s.len(),
{
    if s.len() > 0 && !is_ws(s[0]) {
        1 + word_len(s.drop_first())
    } else {
        0
    }
}

/// The first white-space separated word of `s`, empty where there is none
/// (`split_whitespace().next().unwrap_or("")`).
pub open spec fn first_word(s: Seq<char>) -> Seq<char> {
    let rest = s.skip(lead_ws(s) as int);
    rest.take(word_len(rest) as int)
}

proof fn lemma_word_len(s: Seq<char>, i: int)
    requires
        0 <= i <= s.len(),
        forall|j: int| 0 <= j < i ==> !is_ws(s[j]),
        i == s.len() || is_ws(s[i]),
    ensures
        word_len(s) == i,
    decreases i,
{
    if i > 0 {
        lemma_word_len(s.drop_first(), i - 1);
    }
}

/// The first white-space separated word of `v`.
pub fn first_word_exec(v: &Vec<char>) -> (r: Vec<char>)
    ensures
        r@ == first_word(v@),
{
    let mut a: usize = 0;
    while a < v.len() && is_ws_exec(v[a])
        invariant
            a <= v@.len(),
            forall|j: int| 0 <= j < a ==> is_ws(v@[j]),
        decreases v@.len() - a,
    {
        a = a + 1;
    }
    proof {
        crate::text::lemma_lead_ws(v@, a as int);
        crate::text::lemma_lead_bound(v@.skip(a as int));
        if a < v@.len() {
            assert(v@.skip(a as int)[0] == v@[a as int]);
        }
    }
    let mut b = a;
    while b < v.len() && !is_ws_exec(v[b])
        invariant
            a <= b <= v@.len(),
            forall|j: int| a <= j < b ==> !is_ws(v@[j]),
        decreases v@.len() - b,
    {
        b = b + 1;
    }
    proof {
        let rest = v@.skip(a as int);
        assert(lead_ws(v@) == a);
        assert forall|j: int| 0 <= j < b - a implies !is_ws(rest[j]) by {
            assert(rest[j] == v@[a + j]);
        }
        if b < v@.len() {
            assert(rest[b - a] == v@[b as int]);
        }
        lemma_word_len(rest, b - a);
    }
    crate::text::sub_chars(v, a, b)
}

/// What the checksum check of a download says: the expected digest is the
/// first word of the published checksum text; where it is given and the
/// download's digest (in lower-case hexadecimal) differs from it, the
/// download is refused with a message naming both.
pub open spec fn checksum_verdict(data: Seq<u8>, sha_text: Seq<char>) -> Option<Seq<char>> {
    let expected = first_word(sha_text);
    let actual = hex_lower(sha256(data));
    if expected.len() > 0 && actual != expected {
        Some(
            "Node.js download checksum mismatch! Expected "@ + expected + " got "@ + actual
                + ". Possible MITM attack."@,
        )
    } else {
        None
    }
}

/// Checks a download against its published checksum; the error message
/// where they differ (see `checksum_verdict`).
pub fn checksum_mismatch(data: &[u8], sha_text: &str) -> (r: Option<String>)
    ensures
        match checksum_verdict(data@, sha_text@) {
            Some(m) => r matches Some(s) && s@ == m,
            None => r is None,
        },
{
    let expected = first_word_exec(&chars_of(sha_text));
    let digest = sha256_digest(data);
    let actual = hex_lower_exec(&digest);
    if expected.len() > 0 && !crate::text::chars_eq(&actual, &expected) {
        let e = string_of(&expected);
        let a = string_of(&actual);
        let mut m = String::new();
        m.append("Node.js download checksum mismatch! Expected ");
        m.append(e.as_str());
        m.append(" got ");
        m.append(a.as_str());
        m.append(". Possible MITM attack.");
        Some(m)
    } else {
        None
    }
}

} // verus!
