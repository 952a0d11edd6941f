use vstd::prelude::*;

verus! {

/// A JSON number as the configuration file holds it.
pub enum JsonNumber {
    PosInt(u64),
    NegInt(i64),
    /// A number with a fraction or an exponent, kept as its text.
    Float(String),
}

/// A JSON document.
pub enum Json {
    Null,
    Bool(bool),
    Number(JsonNumber),
    String(String),
    Array(Vec<Json>),
    Object(Vec<(String, Json)>),
}

pub enum NumV {
    PosInt(u64),
    NegInt(i64),
    Float(Seq<char>),
}

/// The mathematical value of a JSON document.
pub enum JVal {
    Null,
    Bool(bool),
    Num(NumV),
    Str(Seq<char>),
    Arr(Seq<JVal>),
    Obj(Seq<(Seq<char>, JVal)>),
}

pub open spec fn num_view(n: JsonNumber) -> NumV {
    match n {
        JsonNumber::PosInt(u) => NumV::PosInt(u),
        JsonNumber::NegInt(i) => NumV::NegInt(i),
        JsonNumber::Float(s) => NumV::Float(s@),
    }
}

pub open spec fn jview(j: Json) -> JVal
    decreases j, 0nat,
{
    match j {
        Json::Null => JVal::Null,
        Json::Bool(b) => JVal::Bool(b),
        Json::Number(n) => JVal::Num(num_view(n)),
        Json::String(s) => JVal::Str(s@),
        Json::Array(v) => JVal::Arr(arr_view(v@, v@.len())),
        Json::Object(es) => JVal::Obj(obj_view(es@, es@.len())),
    }
}

pub open spec fn arr_view(s: Seq<Json>, n: nat) -> Seq<JVal>
    decreases s, n,
{
    if n == 0 || n > s.len() {
        seq![]
    } else {
        arr_view(s, (n - 1) as nat).push(jview(s[n - 1]))
    }
}

pub open spec fn obj_view(s: Seq<(String, Json)>, n: nat) -> Seq<(Seq<char>, JVal)>
    decreases s, n,
{
    if n == 0 || n > s.len() {
        seq![]
    } else {
        obj_view(s, (n - 1) as nat).push((s[n - 1].0@, jview(s[n - 1].1)))
    }
}

impl View for Json {
    type V = JVal;

    open spec fn view(&self) -> JVal {
        jview(*self)
    }
}


pub proof fn lemma_arr_view(s: Seq<Json>, n: nat)
    requires
        n <= s.len(),
    ensures
        arr_view(s, n).len() == n,
        forall|i: int| 0 <= i < n ==> #[trigger] arr_view(s, n)[i] == jview(s[i]),
    decreases n,
{
    if n > 0 {
        lemma_arr_view(s, (n - 1) as nat);
    }
}

pub proof fn lemma_obj_view(s: Seq<(String, Json)>, n: nat)
    requires
        n <= s.len(),
    ensures
        obj_view(s, n).len() == n,
        forall|i: int|
            0 <= i < n ==> #[trigger] obj_view(s, n)[i] == (s[i].0@, jview(s[i].1)),
    decreases n,
{
    if n > 0 {
        lemma_obj_view(s, (n - 1) as nat);
    }
}

/// The members of an object, by their views.
pub open spec fn entries_view(es: Seq<(String, Json)>) -> Seq<(Seq<char>, JVal)> {
    obj_view(es, es.len())
}

/// The index of the first member named `k`, or -1.
pub open spec fn find_key(es: Seq<(Seq<char>, JVal)>, k: Seq<char>) -> int
    decreases es.len(),
{
    if es.len() == 0 {
        -1
    } else if es[0].0 == k {
        0
    } else {
        let r = find_key(es.drop_first(), k);
        if r < 0 {
            -1
        } else {
            r + 1
        }
    }
}

pub proof fn lemma_find_key(es: Seq<(Seq<char>, JVal)>, k: Seq<char>)
    ensures
        -1 <= find_key(es, k) < es.len(),
        find_key(es, k) >= 0 ==> es[find_key(es, k)].0 == k,
        forall|j: int| 0 <= j < find_key(es, k) ==> es[j].0 != k,
        find_key(es, k) < 0 ==> forall|j: int| 0 <= j < es.len() ==> es[j].0 != k,
    decreases es.len(),
{
    if es.len() > 0 && es[0].0 != k {
        lemma_find_key(es.drop_first(), k);
        let r = find_key(es.drop_first(), k);
        assert forall|j: int| 0 <= j < find_key(es, k) implies es[j].0 != k by {
            if j > 0 {
                assert(es[j] == es.drop_first()[j - 1]);
            }
        }
        if r < 0 {
            assert forall|j: int| 0 <= j < es.len() implies es[j].0 != k by {
                if j > 0 {
                    assert(es[j] == es.drop_first()[j - 1]);
                }
            }
        }
    }
}

/// The value of the first member named `k`.
pub open spec fn member(es: Seq<(Seq<char>, JVal)>, k: Seq<char>) -> Option<JVal> {
    let i = find_key(es, k);
    if i >= 0 {
        Some(es[i].1)
    } else {
        None
    }
}

/// The value of the first member named `k`, or null.
pub open spec fn member_or_null(es: Seq<(Seq<char>, JVal)>, k: Seq<char>) -> JVal {
    match member(es, k) {
        Some(v) => v,
        None => JVal::Null,
    }
}

/// What `Value::get` with a key gives: the member of an object, else nothing.
pub open spec fn jget(v: JVal, k: Seq<char>) -> Option<JVal> {
    match v {
        JVal::Obj(es) => member(es, k),
        _ => None,
    }
}

/// `es` with the member named `k` set to `v`: the first such member is
/// replaced, or a new member is added at the end.
pub open spec fn put_key(es: Seq<(Seq<char>, JVal)>, k: Seq<char>, v: JVal) -> Seq<(Seq<char>, JVal)> {
    let i = find_key(es, k);
    if i >= 0 {
        es.update(i, (k, v))
    } else {
        es.push((k, v))
    }
}

/// Writing `leaf` at `path` with the indexing-assignment rules of a JSON
/// value: a null on the way becomes an empty object, a missing member is
/// added, and any other non-object on the way makes the write fail (`None`).
pub open spec fn jset_path(v: JVal, path: Seq<Seq<char>>, leaf: JVal) -> Option<JVal>
    decreases path.len(),
{
    if path.len() == 0 {
        Some(leaf)
    } else {
        let es = match v {
            JVal::Null => Some(Seq::<(Seq<char>, JVal)>::empty()),
            JVal::Obj(es) => Some(es),
            _ => None,
        };
        match es {
            None => None,
            Some(es) => {
                let k = path[0];
                let child = member_or_null(es, k);
                match jset_path(child, path.drop_first(), leaf) {
                    None => None,
                    Some(c) => Some(JVal::Obj(put_key(es, k, c))),
                }
            },
        }
    }
}

/// The views of a list of keys.
pub open spec fn keys_view(path: Seq<String>) -> Seq<Seq<char>> {
    path.map_values(|s: String| s@)
}

/// Index of the first member named `key`.
pub(crate) fn find_member(es: &Vec<(String, Json)>, key: &String) -> (r: Option<usize>)
    ensures
        match r {
            Some(i) => i as int == find_key(entries_view(es@), key@) && i < es@.len(),
            None => find_key(entries_view(es@), key@) == -1,
        },
{
    proof {
        lemma_obj_view(es@, es@.len());
        lemma_find_key(entries_view(es@), key@);
    }
    let mut i: usize = 0;
    while i < es.len()
        invariant
            0 <= i <= es@.len(),
            entries_view(es@).len() == es@.len(),
            forall|j: int| 0 <= j < i ==> entries_view(es@)[j].0 != key@,
            forall|j: int| 0 <= j < es@.len() ==> #[trigger] entries_view(es@)[j] == (es@[j].0@, jview(es@[j].1)),
            -1 <= find_key(entries_view(es@), key@) < es@.len(),
            find_key(entries_view(es@), key@) >= 0 ==> entries_view(es@)[find_key(entries_view(es@), key@)].0 == key@,
            forall|j: int| 0 <= j < find_key(entries_view(es@), key@) ==> entries_view(es@)[j].0 != key@,
            find_key(entries_view(es@), key@) < 0 ==> forall|j: int| 0 <= j < es@.len() ==> entries_view(es@)[j].0 != key@,
        decreases es@.len() - i,
    {
        if es[i].0 == *key {
            assert(entries_view(es@)[i as int].0 == key@);
            return Some(i);
        }
        i = i + 1;
    }
    None
}

impl Json {
    /// The member named `key` of an object; nothing for a non-object or a
    /// missing member.
    pub fn get(&self, key: &str) -> (r: Option<&Json>)
        ensures
            match r {
                Some(c) => jget(self@, key@) == Some(c@),
                None => jget(self@, key@) is None,
            },
    {
        match self {
            Json::Object(es) => {
                let k = key.to_owned();
                proof {
                    lemma_obj_view(es@, es@.len());
                }
                match find_member(es, &k) {
                    Some(i) => Some(&es[i].1),
                    None => None,
                }
            },
            _ => None,
        }
    }

    /// The text of a string value.
    pub fn as_str(&self) -> (r: Option<&str>)
        ensures
            match self@ {
                JVal::Str(s) => r matches Some(t) && t@ == s,
                _ => r is None,
            },
    {
        match self {
            Json::String(s) => Some(s.as_str()),
            _ => None,
        }
    }

    /// A non-negative integer value.
    pub fn as_u64(&self) -> (r: Option<u64>)
        ensures
            match self@ {
                JVal::Num(NumV::PosInt(n)) => r == Some(n),
                _ => r is None,
            },
    {
        match self {
            Json::Number(JsonNumber::PosInt(n)) => Some(*n),
            _ => None,
        }
    }

    /// A boolean value.
    pub fn as_bool(&self) -> (r: Option<bool>)
        ensures
            match self@ {
                JVal::Bool(b) => r == Some(b),
                _ => r is None,
            },
    {
        match self {
            Json::Bool(b) => Some(*b),
            _ => None,
        }
    }

    /// Writes `leaf` at `path` (see `jset_path`); `None` where a value on
    /// the way is neither an object nor null.
    pub fn set_path(self, path: &Vec<String>, leaf: Json) -> (r: Option<Json>)
        ensures
            match jset_path(self@, keys_view(path@), leaf@) {
                Some(v) => r matches Some(j) && j@ == v,
                None => r is None,
            },
    {
        proof {
            assert(keys_view(path@).skip(0) =~= keys_view(path@));
        }
        set_path_from(self, path, 0, leaf)
    }
}

fn set_path_from(v: Json, path: &Vec<String>, start: usize, leaf: Json) -> (r: Option<Json>)
    requires
        start <= path@.len(),
    ensures
        match jset_path(v@, keys_view(path@).skip(start as int), leaf@) {
            Some(x) => r matches Some(j) && j@ == x,
            None => r is None,
        },
    decreases path@.len() - start,
{
    let ghost p = keys_view(path@).skip(start as int);
    if start == path.len() {
        return Some(leaf);
    }
    assert(p[0] == path@[start as int]@);
    assert(p.drop_first() =~= keys_view(path@).skip(start + 1));
    let mut es: Vec<(String, Json)> = match v {
        Json::Null => Vec::new(),
        Json::Object(es) => es,
        _ => {
            return None;
        },
    };
    let ghost es0 = es@;
    proof {
        lemma_obj_view(es0, es0.len());
        assert(v@ == JVal::Null ==> entries_view(es0) =~= Seq::<(Seq<char>, JVal)>::empty());
    }
    let key = &path[start];
    match find_member(&es, key) {
        Some(i) => {
            let (k, child) = es.remove(i);
            let nc = set_path_from(child, path, start + 1, leaf)?;
            es.insert(i, (k, nc));
            proof {
                lemma_find_key(entries_view(es0), key@);
                assert(es@ =~= es0.update(i as int, (k, nc)));
                assert(k@ == key@);
                lemma_obj_view(es@, es@.len());
                assert(entries_view(es@) =~= entries_view(es0).update(i as int, (key@, nc@)));
            }
            Some(Json::Object(es))
        },
        None => {
            let nc = set_path_from(Json::Null, path, start + 1, leaf)?;
            es.push((key.clone(), nc));
            proof {
                lemma_obj_view(es@, es@.len());
                assert(entries_view(es@) =~= entries_view(es0).push((key@, nc@)));
            }
            Some(Json::Object(es))
        },
    }
}


/// Whether no two members share a name.
pub open spec fn unique_keys(es: Seq<(Seq<char>, JVal)>) -> bool {
    forall|i: int, j: int| 0 <= i < j < es.len() ==> es[i].0 != es[j].0
}

/// `find_key` reads only the names of the members.
pub proof fn lemma_find_key_same_names(a: Seq<(Seq<char>, JVal)>, b: Seq<(Seq<char>, JVal)>, k: Seq<char>)
    requires
        a.len() == b.len(),
        forall|j: int| 0 <= j < a.len() ==> a[j].0 == b[j].0,
    ensures
        find_key(a, k) == find_key(b, k),
    decreases a.len(),
{
    if a.len() > 0 {
        lemma_find_key_same_names(a.drop_first(), b.drop_first(), k);
    }
}

pub proof fn lemma_find_key_push(es: Seq<(Seq<char>, JVal)>, p: (Seq<char>, JVal), k: Seq<char>)
    ensures
        find_key(es.push(p), k) == if find_key(es, k) >= 0 {
            find_key(es, k)
        } else if p.0 == k {
            es.len() as int
        } else {
            -1
        },
    decreases es.len(),
{
    if es.len() > 0 {
        assert(es.push(p).drop_first() =~= es.drop_first().push(p));
        lemma_find_key_push(es.drop_first(), p, k);
    } else {
        assert(es.push(p).drop_first() =~= es);
    }
}

/// Reading a member back after `put_key`.
pub proof fn lemma_member_put(es: Seq<(Seq<char>, JVal)>, k2: Seq<char>, v: JVal, k: Seq<char>)
    ensures
        member(put_key(es, k2, v), k) == if k == k2 {
            Some(v)
        } else {
            member(es, k)
        },
{
    lemma_find_key(es, k2);
    let i = find_key(es, k2);
    if i >= 0 {
        let es2 = es.update(i, (k2, v));
        lemma_find_key_same_names(es2, es, k);
        lemma_find_key(es, k);
        if k == k2 {
        } else {
            assert(find_key(es, k) != i);
        }
    } else {
        lemma_find_key_push(es, (k2, v), k);
        lemma_find_key(es, k);
    }
}


/// The value at `path`, following object members.
pub open spec fn jget_path(v: JVal, path: Seq<Seq<char>>) -> Option<JVal>
    decreases path.len(),
{
    if path.len() == 0 {
        Some(v)
    } else {
        match jget(v, path[0]) {
            Some(c) => jget_path(c, path.drop_first()),
            None => None,
        }
    }
}

/// Following a path in two parts.
pub proof fn lemma_jget_path_concat(v: JVal, p: Seq<Seq<char>>, q: Seq<Seq<char>>)
    ensures
        jget_path(v, p + q) == match jget_path(v, p) {
            Some(w) => jget_path(w, q),
            None => None,
        },
    decreases p.len(),
{
    if p.len() > 0 {
        assert((p + q).drop_first() =~= p.drop_first() + q);
        assert((p + q)[0] == p[0]);
        match jget(v, p[0]) {
            Some(c) => lemma_jget_path_concat(c, p.drop_first(), q),
            None => {},
        }
    } else {
        assert(p + q =~= q);
    }
}

/// Removing the member named `k` from members with distinct names leaves
/// none of that name.
pub proof fn lemma_remove_unique(es: Seq<(Seq<char>, JVal)>, k: Seq<char>)
    requires
        unique_keys(es),
    ensures
        member(remove_member(es, k), k) is None,
{
    lemma_find_key(es, k);
    let i = find_key(es, k);
    if i >= 0 {
        let r = es.remove(i);
        lemma_find_key(r, k);
        let j = find_key(r, k);
        if j >= 0 {
            if j < i {
                assert(r[j] == es[j]);
            } else {
                assert(r[j] == es[j + 1]);
            }
        }
    }
}

/// Reading back what was written: after a successful write of `leaf` at
/// `path`, the value at `path` is `leaf`.
pub proof fn law_set_path_read_back(v: JVal, path: Seq<Seq<char>>, leaf: JVal)
    requires
        jset_path(v, path, leaf) is Some,
    ensures
        jget_path(jset_path(v, path, leaf)->Some_0, path) == Some(leaf),
    decreases path.len(),
{
    if path.len() > 0 {
        let es = match v {
            JVal::Obj(es) => es,
            _ => Seq::<(Seq<char>, JVal)>::empty(),
        };
        let k = path[0];
        let child = member_or_null(es, k);
        law_set_path_read_back(child, path.drop_first(), leaf);
        let c = jset_path(child, path.drop_first(), leaf)->Some_0;
        lemma_member_put(es, k, c, k);
    }
}

/// A write below one member leaves every other member of the object as it
/// was.
pub proof fn law_set_path_keeps_siblings(v: JVal, path: Seq<Seq<char>>, leaf: JVal, k: Seq<char>)
    requires
        path.len() > 0,
        k != path[0],
        jset_path(v, path, leaf) is Some,
    ensures
        jget(jset_path(v, path, leaf)->Some_0, k) == jget(v, k),
{
    let es = match v {
        JVal::Obj(es) => es,
        _ => Seq::<(Seq<char>, JVal)>::empty(),
    };
    let child = member_or_null(es, path[0]);
    let c = jset_path(child, path.drop_first(), leaf)->Some_0;
    lemma_member_put(es, path[0], c, k);
    if v is Null {
        lemma_find_key(es, k);
    }
}

/// A write succeeds exactly when every value met on the way to the last
/// key is an object or null (or missing).
pub open spec fn path_writable(v: JVal, path: Seq<Seq<char>>) -> bool
    decreases path.len(),
{
    if path.len() == 0 {
        true
    } else {
        (v is Null || v is Obj) && path_writable(
            match v {
                JVal::Obj(es) => member_or_null(es, path[0]),
                _ => JVal::Null,
            },
            path.drop_first(),
        )
    }
}

/// The write of a path fails only where a value on the way is neither an
/// object nor null.
pub proof fn law_set_path_succeeds(v: JVal, path: Seq<Seq<char>>, leaf: JVal)
    ensures
        jset_path(v, path, leaf) is Some <==> path_writable(v, path),
    decreases path.len(),
{
    if path.len() > 0 {
        let es = match v {
            JVal::Obj(es) => es,
            _ => Seq::<(Seq<char>, JVal)>::empty(),
        };
        if v is Null {
            lemma_find_key(es, path[0]);
        }
        law_set_path_succeeds(member_or_null(es, path[0]), path.drop_first(), leaf);
    }
}

impl JsonNumber {
    /// A copy of the number.
    pub fn copy(&self) -> (r: JsonNumber)
        ensures
            num_view(r) == num_view(*self),
    {
        match self {
            JsonNumber::PosInt(n) => JsonNumber::PosInt(*n),
            JsonNumber::NegInt(n) => JsonNumber::NegInt(*n),
            JsonNumber::Float(s) => JsonNumber::Float(s.clone()),
        }
    }
}

impl Json {
    /// A copy of the whole document.
    pub fn deep_clone(&self) -> (r: Json)
        ensures
            r@ == self@,
        decreases self,
    {
        match self {
            Json::Null => Json::Null,
            Json::Bool(b) => Json::Bool(*b),
            Json::Number(n) => Json::Number(n.copy()),
            Json::String(s) => Json::String(s.clone()),
            Json::Array(v) => {
                let mut out: Vec<Json> = Vec::new();
                let mut i: usize = 0;
                proof {
                    lemma_arr_view(v@, v@.len());
                }
                #[verifier::loop_isolation(false)]
                while i < v.len()
                    invariant
                        i <= v@.len(),
                        out@.len() == i,
                        forall|j: int| 0 <= j < i ==> jview(#[trigger] out@[j]) == jview(v@[j]),
                    decreases v@.len() - i,
                {
                    assert(decreases_to!(self => self->Array_0));
                    assert(decreases_to!(self->Array_0 => self->Array_0@));
                    assert(decreases_to!(self => v@[i as int]));
                    let c = v[i].deep_clone();
                    out.push(c);
                    i = i + 1;
                }
                proof {
                    lemma_arr_view(out@, out@.len());
                    assert(arr_view(out@, out@.len()) =~= arr_view(v@, v@.len()));
                }
                Json::Array(out)
            },
            Json::Object(es) => {
                let mut out: Vec<(String, Json)> = Vec::new();
                let mut i: usize = 0;
                proof {
                    lemma_obj_view(es@, es@.len());
                }
                #[verifier::loop_isolation(false)]
                while i < es.len()
                    invariant
                        i <= es@.len(),
                        out@.len() == i,
                        forall|j: int| 0 <= j < i ==> (#[trigger] out@[j]).0@ == es@[j].0@ && jview(out@[j].1) == jview(es@[j].1),
                    decreases es@.len() - i,
                {
                    assert(decreases_to!(self => self->Object_0));
                    assert(decreases_to!(self->Object_0 => self->Object_0@));
                    assert(decreases_to!(self => es@[i as int].1));
                    let c = es[i].1.deep_clone();
                    out.push((es[i].0.clone(), c));
                    i = i + 1;
                }
                proof {
                    lemma_obj_view(out@, out@.len());
                    assert(obj_view(out@, out@.len()) =~= obj_view(es@, es@.len()));
                }
                Json::Object(out)
            },
        }
    }
}


impl Json {
    /// The value at `path`, following object members.
    pub fn get_path(&self, path: &Vec<String>) -> (r: Option<&Json>)
        ensures
            match r {
                Some(x) => jget_path(self@, keys_view(path@)) == Some(x@),
                None => jget_path(self@, keys_view(path@)) is None,
            },
    {
        let ghost kv = keys_view(path@);
        let mut cur: &Json = self;
        let mut i: usize = 0;
        assert(kv.skip(0) =~= kv);
        while i < path.len()
            invariant
                i <= path@.len(),
                kv == keys_view(path@),
                kv.len() == path@.len(),
                jget_path(self@, kv) == jget_path(cur@, kv.skip(i as int)),
            decreases path@.len() - i,
        {
            assert(kv.skip(i as int)[0] == path@[i as int]@);
            assert(kv.skip(i as int).drop_first() =~= kv.skip(i + 1));
            match cur.get(path[i].as_str()) {
                Some(c) => {
                    cur = c;
                },
                None => {
                    return None;
                },
            }
            i = i + 1;
        }
        assert(kv.skip(i as int) =~= Seq::<Seq<char>>::empty());
        Some(cur)
    }
}

/// A list of keys.
pub fn keys(parts: &[&str]) -> (r: Vec<String>)
    ensures
        r@.len() == parts@.len(),
        forall|i: int| 0 <= i < parts@.len() ==> #[trigger] r@[i]@ == parts@[i]@,
{
    let mut r: Vec<String> = Vec::new();
    let mut i: usize = 0;
    while i < parts.len()
        invariant
            i <= parts@.len(),
            r@.len() == i,
            forall|j: int| 0 <= j < i ==> #[trigger] r@[j]@ == parts@[j]@,
        decreases parts@.len() - i,
    {
        r.push(parts[i].to_owned());
        i = i + 1;
    }
    r
}


/// `es` without its first member named `k`.
pub open spec fn remove_member(es: Seq<(Seq<char>, JVal)>, k: Seq<char>) -> Seq<(Seq<char>, JVal)> {
    let i = find_key(es, k);
    if i >= 0 {
        es.remove(i)
    } else {
        es
    }
}

/// Removes the first member named `key` from a member list.
pub fn remove_member_exec(es: &mut Vec<(String, Json)>, key: &String)
    ensures
        entries_view(final(es)@) == remove_member(entries_view(old(es)@), key@),
{
    let ghost es0 = es@;
    proof {
        lemma_obj_view(es0, es0.len());
    }
    match find_member(es, key) {
        Some(i) => {
            es.remove(i);
            proof {
                lemma_obj_view(es@, es@.len());
                assert(entries_view(es@) =~= entries_view(es0).remove(i as int));
            }
        },
        None => {},
    }
}

} // verus!
