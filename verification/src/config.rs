use vstd::prelude::*;
use crate::json::{put_key, member_or_null, member, jget, unique_keys, lemma_member_put, Json, JVal, jview, entries_view, find_key, lemma_obj_view, lemma_find_key, find_member};

verus! {

/// Deep merge of `src` into `dst`: two objects merge member by member,
/// anything else is replaced by `src`.
pub open spec fn merge(dst: JVal, src: JVal) -> JVal
    decreases src, 0nat,
{
    match (dst, src) {
        (JVal::Obj(de), JVal::Obj(se)) => JVal::Obj(merge_entries(de, se, se.len())),
        _ => src,
    }
}

/// The members of `de` after merging the first `n` members of `se` into
/// them, in order.
pub open spec fn merge_entries(
    de: Seq<(Seq<char>, JVal)>,
    se: Seq<(Seq<char>, JVal)>,
    n: nat,
) -> Seq<(Seq<char>, JVal)>
    decreases se, n,
{
    if n == 0 || n > se.len() {
        de
    } else {
        let acc = merge_entries(de, se, (n - 1) as nat);
        let k = se[n - 1].0;
        put_key(acc, k, merge(member_or_null(acc, k), se[n - 1].1))
    }
}

/// Deep-merges `src` into `dst`. Arrays are replaced; objects are merged
/// recursively.
pub fn deep_merge(dst: &mut Json, src: Json)
    ensures
        final(dst)@ == merge(old(dst)@, src@),
{
    let mut d = Json::Null;
    std::mem::swap(&mut d, dst);
    *dst = merged(d, src);
}

fn merged(d: Json, s: Json) -> (r: Json)
    ensures
        r@ == merge(d@, s@),
    decreases s,
{
    let ghost s0 = s;
    let ghost d0 = d;
    match s {
        Json::Object(mut se) => {
            match d {
                Json::Object(mut de) => {
                    let ghost sev = se;
                    let ghost se0 = se@;
                    let ghost sv = entries_view(se0);
                    let ghost dv = entries_view(de@);
                    proof {
                        lemma_obj_view(se0, se0.len());
                        assert(se0.skip(0) =~= se0);
                    }
                    let total = se.len();
                    let mut n: usize = 0;
                    #[verifier::loop_isolation(false)]
                    while se.len() > 0
                        invariant
                            n <= se0.len(),
                            total == se0.len(),
                            se@.len() == se0.len() - n,
                            se@ =~= se0.skip(n as int),
                            s0 == Json::Object(sev),
                            sev@ == se0,
                            sv == entries_view(se0),
                            sv.len() == se0.len(),
                            forall|j: int| 0 <= j < se0.len() ==> #[trigger] sv[j] == (se0[j].0@, jview(se0[j].1)),
                            entries_view(de@) == merge_entries(dv, sv, n as nat),
                        decreases se@.len(),
                    {
                        let (k, v) = se.remove(0);
                        assert(se0[n as int] == (k, v));
                        let ghost acc = entries_view(de@);
                        let ghost de1 = de@;
                        proof {
                            lemma_obj_view(de1, de1.len());
                        }
                        match find_member(&de, &k) {
                            Some(i) => {
                                let (dk, dv_i) = de.remove(i);
                                proof {
                                    lemma_find_key(acc, k@);
                                    assert(decreases_to!(s0 => s0->Object_0));
                                    assert(decreases_to!(sev => se0));
                                    assert(decreases_to!(se0 => se0[n as int]));
                                    assert(decreases_to!(se0[n as int] => se0[n as int].1));
                                    assert(decreases_to!(s0 => se0[n as int].1));
                                    assert(v == se0[n as int].1);
                                }
                                let nv = merged(dv_i, v);
                                de.insert(i, (dk, nv));
                                proof {
                                    assert(de@ =~= de1.update(i as int, (dk, nv)));
                                    lemma_obj_view(de@, de@.len());
                                    assert(entries_view(de@) =~= acc.update(i as int, (k@, merge(acc[i as int].1, sv[n as int].1))));
                                    assert(member_or_null(acc, k@) == acc[i as int].1);
                                }
                            },
                            None => {
                                de.push((k, v));
                                proof {
                                    lemma_obj_view(de@, de@.len());
                                    assert(entries_view(de@) =~= acc.push((k@, sv[n as int].1)));
                                    lemma_find_key(acc, k@);
                                    assert(merge(JVal::Null, sv[n as int].1) == sv[n as int].1);
                                }
                            },
                        }
                        n = n + 1;
                        assert(se@ =~= se0.skip(n as int));
                    }
                    Json::Object(de)
                },
                _ => Json::Object(se),
            }
        },
        other => other,
    }
}



proof fn lemma_merge_entries_member(
    de: Seq<(Seq<char>, JVal)>,
    se: Seq<(Seq<char>, JVal)>,
    n: nat,
    k: Seq<char>,
)
    requires
        n <= se.len(),
    ensures
        member(de, k) is Some ==> member(merge_entries(de, se, n), k) is Some,
        (forall|j: int| 0 <= j < n ==> se[j].0 != k) ==> member(merge_entries(de, se, n), k)
            == member(de, k),
        forall|j: int|
            0 <= j < n && unique_keys(se) && #[trigger] se[j].0 == k ==> member(
                merge_entries(de, se, n),
                k,
            ) == Some(merge(member_or_null(de, k), se[j].1)),
    decreases n,
{
    if n > 0 {
        let m = (n - 1) as nat;
        lemma_merge_entries_member(de, se, m, k);
        let acc = merge_entries(de, se, m);
        let k2 = se[m as int].0;
        lemma_member_put(acc, k2, merge(member_or_null(acc, k2), se[m as int].1), k);
        assert forall|j: int|
            0 <= j < n && unique_keys(se) && #[trigger] se[j].0 == k implies member(
                merge_entries(de, se, n),
                k,
            ) == Some(merge(member_or_null(de, k), se[j].1)) by {
            if j == m {
                assert(forall|i: int| 0 <= i < m ==> se[i].0 != k);
            }
        }
    }
}

/// Merging an object into an object keeps every member of the destination:
/// nothing the incoming value does not name is lost.
pub proof fn law_merge_keeps_members(dst: JVal, src: JVal, k: Seq<char>)
    requires
        dst is Obj,
        src is Obj,
        jget(dst, k) is Some,
    ensures
        jget(merge(dst, src), k) is Some,
{
    lemma_merge_entries_member(dst->Obj_0, src->Obj_0, src->Obj_0.len(), k);
}

/// A member that the incoming object does not name keeps its value.
pub proof fn law_merge_untouched_member(dst: JVal, src: JVal, k: Seq<char>)
    requires
        dst is Obj,
        src is Obj,
        jget(src, k) is None,
    ensures
        jget(merge(dst, src), k) == jget(dst, k),
{
    let se = src->Obj_0;
    crate::json::lemma_find_key(se, k);
    lemma_merge_entries_member(dst->Obj_0, se, se.len(), k);
}

/// A member that the incoming object names becomes the merge of the old
/// member (null where there was none) with the incoming one.
pub proof fn law_merge_named_member(dst: JVal, src: JVal, k: Seq<char>)
    requires
        dst is Obj,
        src is Obj,
        unique_keys(src->Obj_0),
        jget(src, k) is Some,
    ensures
        jget(merge(dst, src), k) == Some(
            merge(
                match jget(dst, k) {
                    Some(v) => v,
                    None => JVal::Null,
                },
                jget(src, k)->Some_0,
            ),
        ),
{
    let se = src->Obj_0;
    crate::json::lemma_find_key(se, k);
    let j = find_key(se, k);
    lemma_merge_entries_member(dst->Obj_0, se, se.len(), k);
    assert(se[j].0 == k);
}

/// A value that is not an object (an array, a string, a number, ...) is
/// not merged into: it replaces what was there. Likewise anything merged
/// into a non-object replaces it.
pub proof fn law_merge_replaces(dst: JVal, src: JVal)
    requires
        !(dst is Obj && src is Obj),
    ensures
        merge(dst, src) == src,
{
}


/// What writing a configuration stores: the incoming changes deep-merged
/// over the current configuration, where one that could not be read
/// counts as an empty object.
pub open spec fn config_to_store(current: Option<JVal>, incoming: JVal) -> JVal {
    merge(
        match current {
            Some(c) => c,
            None => JVal::Obj(Seq::empty()),
        },
        incoming,
    )
}

/// The configuration to store (see `config_to_store`).
pub fn merge_config(current: Option<Json>, incoming: Json) -> (r: Json)
    ensures
        r@ == config_to_store(
            match current {
                Some(c) => Some(c@),
                None => None,
            },
            incoming@,
        ),
{
    let mut base = match current {
        Some(c) => c,
        None => Json::Object(Vec::new()),
    };
    deep_merge(&mut base, incoming);
    base
}

} // verus!
