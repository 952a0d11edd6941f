use vstd::prelude::*;
use crate::text::{chars_of, ends_with, matches_at_exec, seqs_view, split, split_exec, starts_with, str_starts_with, string_of};

verus! {

/// Whether a piece of an archive name is an ordinary path component (not
/// empty, which repeated or trailing separators give, and not `.`).
pub open spec fn is_normal_part(p: Seq<char>) -> bool {
    p.len() > 0 && p != "."@
}

/// Whether a piece of an archive name climbs to the parent directory.
pub open spec fn is_parent_part(p: Seq<char>) -> bool {
    p == ".."@
}

/// The path components of an archive entry name, read as a relative path
/// that stays inside the target: `None` for an absolute name or one with a
/// `..` component; else its ordinary components, in order (`.` and empty
/// pieces dropped).
pub open spec fn safe_zip_parts(name: Seq<char>) -> Option<Seq<Seq<char>>> {
    let parts = split(name, "/"@);
    if starts_with(name, "/"@) || exists|i: int| 0 <= i < parts.len() && is_parent_part(#[trigger] parts[i]) {
        None
    } else {
        Some(parts.filter(|p: Seq<char>| is_normal_part(p)))
    }
}

/// The views of a list of strings.
pub open spec fn strings_view(v: Seq<String>) -> Seq<Seq<char>> {
    v.map_values(|s: String| s@)
}

/// The relative path of an archive entry, or `None` where the entry would
/// leave the target directory (see `safe_zip_parts`).
pub fn sanitize_zip_path(name: &str) -> (r: Option<Vec<String>>)
    ensures
        match safe_zip_parts(name@) {
            Some(p) => r matches Some(v) && strings_view(v@) == p,
            None => r is None,
        },
{
    let v = chars_of(name);
    let slash = chars_of("/");
    proof {
        reveal_strlit("/");
        reveal_strlit(".");
        reveal_strlit("..");
    }
    if str_starts_with(name, "/") {
        return None;
    }
    let parts = split_exec(&v, &slash);
    let ghost ps = split(name@, "/"@);
    let mut out: Vec<String> = Vec::new();
    let mut i: usize = 0;
    assert(ps.take(0) =~= Seq::<Seq<char>>::empty());
    proof {
        reveal(Seq::filter);
    }
    while i < parts.len()
        invariant
            i <= parts@.len(),
            seqs_view(parts@) == ps,
            ps == split(name@, "/"@),
            !starts_with(name@, "/"@),
            ps.len() == parts@.len(),
            forall|j: int| 0 <= j < i ==> !is_parent_part(#[trigger] ps[j]),
            strings_view(out@) == ps.take(i as int).filter(|p: Seq<char>| is_normal_part(p)),
        decreases parts@.len() - i,
    {
        let p = &parts[i];
        assert(p@ == ps[i as int]);
        let is_dot = p.len() == 1 && p[0] == '.';
        let is_dotdot = p.len() == 2 && p[0] == '.' && p[1] == '.';
        assert(is_dot == (p@ == "."@)) by {
            reveal_strlit(".");
            if is_dot {
                assert(p@ =~= "."@);
            }
        }
        assert(is_dotdot == (p@ == ".."@)) by {
            reveal_strlit("..");
            if is_dotdot {
                assert(p@ =~= ".."@);
            }
        }
        if is_dotdot {
            assert(is_parent_part(ps[i as int]));
            return None;
        }
        proof {
            reveal(Seq::filter);
            assert(ps.take(i + 1).drop_last() =~= ps.take(i as int));
            assert(ps.take(i + 1).last() == ps[i as int]);
        }
        if p.len() > 0 && !is_dot {
            let ghost before = out@;
            out.push(string_of(p));
            assert(strings_view(out@) =~= strings_view(before).push(p@));
        }
        i = i + 1;
    }
    assert(ps.take(ps.len() as int) =~= ps);
    Some(out)
}

/// Where an archive entry goes: its relative path, and whether it is a
/// directory (its name ends with `/`).
pub fn zip_entry_target(name: &str) -> (r: Option<(Vec<String>, bool)>)
    ensures
        match safe_zip_parts(name@) {
            Some(p) => r matches Some((v, d)) && strings_view(v@) == p && d == ends_with(name@, "/"@),
            None => r is None,
        },
{
    match sanitize_zip_path(name) {
        Some(parts) => {
            let v = chars_of(name);
            let slash = chars_of("/");
            proof {
                reveal_strlit("/");
            }
            let dir = v.len() >= 1 && matches_at_exec(&v, &slash, v.len() - 1);
            Some((parts, dir))
        },
        None => None,
    }
}

/// The time stamp of a backup: the local time as `%Y%m%d_%H%M%S` with
/// `chrono`. Nothing is promised of the value: it is the clock's.
#[verifier::external_body]
fn backup_stamp() -> String {
    chrono::Local::now().format("%Y%m%d_%H%M%S").to_string()
}

/// The file name of a backup made at `stamp`.
pub fn backup_file_name(stamp: &str) -> (r: String)
    ensures
        r@ == "openclaw_backup_"@ + stamp@ + ".zip"@,
{
    let mut r = String::new();
    r.append("openclaw_backup_");
    r.append(stamp);
    r.append(".zip");
    r
}

/// The file name of a backup made now.
pub fn new_backup_file_name() -> (r: String)
    ensures
        exists|stamp: Seq<char>| r@ == "openclaw_backup_"@ + stamp + ".zip"@,
{
    let stamp = backup_stamp();
    backup_file_name(stamp.as_str())
}


/// An archive entry is only ever extracted below the target: every
/// component of an accepted name is an ordinary name, neither `.` nor
/// `..`, not empty, and without a separator.
pub proof fn law_zip_parts_stay_inside(name: Seq<char>)
    ensures
        safe_zip_parts(name) matches Some(p) ==> forall|i: int|
            0 <= i < p.len() ==> {
                &&& is_normal_part(#[trigger] p[i])
                &&& !is_parent_part(p[i])
                &&& forall|t: int| 0 <= t < p[i].len() ==> p[i][t] != '/'
            },
{
    reveal_strlit("/");
    let parts = split(name, "/"@);
    if let Some(p) = safe_zip_parts(name) {
        let pred = |q: Seq<char>| is_normal_part(q);
        crate::text::lemma_split_pieces_lack_sep(name, '/', 0);
        assert("/"@ =~= seq!['/']);
        assert forall|i: int| 0 <= i < p.len() implies {
            &&& is_normal_part(#[trigger] p[i])
            &&& !is_parent_part(p[i])
            &&& forall|t: int| 0 <= t < p[i].len() ==> p[i][t] != '/'
        } by {
            parts.lemma_filter_pred(pred, i);
            assert(p == parts.filter(pred));
            assert(parts.filter(pred).contains(p[i]));
            parts.lemma_filter_contains_rev(pred, p[i]);
            let k = choose|k: int| 0 <= k < parts.len() && parts[k] == p[i];
            assert(!is_parent_part(parts[k]));
            assert forall|t: int| 0 <= t < p[i].len() implies p[i][t] != '/' by {
                assert(parts[k][t] != '/');
            }
        }
    }
}

} // verus!
