use vstd::prelude::*;

verus! {

/// The characters of `s`, in order.
pub fn chars_of(s: &str) -> (r: Vec<char>)
    ensures
        r@ == s@,
{
    let mut r: Vec<char> = Vec::new();
    for c in it: s.chars()
        invariant
            r@ == it.seq().take(it.index() as int),
            it.seq() == s@,
    {
        r.push(c);
    }
    r
}


/// A string made of the characters of `v`.
#[verifier::external_body]
pub fn string_of(v: &Vec<char>) -> (r: String)
    ensures
        r@ == v@,
{
    v.iter().collect()
}

/// Whether `n` occurs in `h` starting at character `i`.
pub open spec fn matches_at(h: Seq<char>, n: Seq<char>, i: int) -> bool {
    0 <= i && i + n.len() <= h.len() && h.subrange(i, i + n.len()) == n
}

/// Whether `n` occurs anywhere in `h` (`str::contains`).
pub open spec fn contains(h: Seq<char>, n: Seq<char>) -> bool {
    exists|i: int| matches_at(h, n, i)
}

/// `str::starts_with`.
pub open spec fn starts_with(h: Seq<char>, n: Seq<char>) -> bool {
    matches_at(h, n, 0)
}

/// `str::ends_with`.
pub open spec fn ends_with(h: Seq<char>, n: Seq<char>) -> bool {
    matches_at(h, n, h.len() - n.len())
}

/// Whether `n` occurs in `h` at `i`.
pub fn matches_at_exec(h: &Vec<char>, n: &Vec<char>, i: usize) -> (r: bool)
    ensures
        r == matches_at(h@, n@, i as int),
{
    if i > h.len() || n.len() > h.len() - i {
        return false;
    }
    let hl = h.len();
    let mut j: usize = 0;
    while j < n.len()
        invariant
            hl == h@.len(),
            i + n@.len() <= h@.len(),
            0 <= j <= n@.len(),
            forall|t: int| 0 <= t < j ==> h@[i + t] == n@[t],
        decreases n@.len() - j,
    {
        if h[i + j] != n[j] {
            assert(h@.subrange(i as int, i + n@.len())[j as int] != n@[j as int]);
            return false;
        }
        j = j + 1;
    }
    assert(h@.subrange(i as int, i + n@.len()) =~= n@);
    true
}

/// The first position at or after `i` where `n` occurs in `h`, or -1.
pub open spec fn find_from(h: Seq<char>, n: Seq<char>, i: int) -> int
    decreases h.len() + 1 - i,
{
    if i < 0 || i + n.len() > h.len() {
        -1
    } else if matches_at(h, n, i) {
        i
    } else {
        find_from(h, n, i + 1)
    }
}

pub proof fn lemma_find_from(h: Seq<char>, n: Seq<char>, i: int)
    requires
        0 <= i,
    ensures
        find_from(h, n, i) == -1 || (i <= find_from(h, n, i) && matches_at(h, n, find_from(h, n, i))),
        forall|j: int| i <= j && (find_from(h, n, i) == -1 || j < find_from(h, n, i)) ==> !matches_at(h, n, j),
    decreases h.len() + 1 - i,
{
    if i + n.len() <= h.len() && !matches_at(h, n, i) {
        lemma_find_from(h, n, i + 1);
    }
}

/// Where `n` first occurs in `h` at or after `from`.
pub fn find_exec(h: &Vec<char>, n: &Vec<char>, from: usize) -> (r: Option<usize>)
    ensures
        match r {
            Some(i) => i as int == find_from(h@, n@, from as int),
            None => find_from(h@, n@, from as int) == -1,
        },
{
    proof {
        lemma_find_from(h@, n@, from as int);
    }
    if n.len() > h.len() {
        return None;
    }
    if from > h.len() - n.len() {
        return None;
    }
    let mut i = from;
    loop
        invariant
            from <= i <= h@.len() - n@.len(),
            n@.len() <= h@.len(),
            find_from(h@, n@, from as int) == find_from(h@, n@, i as int),
        decreases h@.len() - i,
    {
        if matches_at_exec(h, n, i) {
            return Some(i);
        }
        if i == h.len() - n.len() {
            assert(find_from(h@, n@, i as int + 1) == -1);
            return None;
        }
        i = i + 1;
    }
}

pub proof fn lemma_contains_find(h: Seq<char>, n: Seq<char>)
    ensures
        contains(h, n) <==> find_from(h, n, 0) != -1,
{
    lemma_find_from(h, n, 0);
    if contains(h, n) {
        let i = choose|i: int| matches_at(h, n, i);
        assert(matches_at(h, n, i));
    }
}

/// Whether `n` occurs in `h`.
pub fn contains_exec(h: &Vec<char>, n: &Vec<char>) -> (r: bool)
    ensures
        r == contains(h@, n@),
{
    proof {
        lemma_contains_find(h@, n@);
    }
    find_exec(h, n, 0).is_some()
}

/// `str::contains` on two strings.
pub fn str_contains(h: &str, n: &str) -> (r: bool)
    ensures
        r == contains(h@, n@),
{
    contains_exec(&chars_of(h), &chars_of(n))
}

/// `str::starts_with` on two strings.
pub fn str_starts_with(h: &str, n: &str) -> (r: bool)
    ensures
        r == starts_with(h@, n@),
{
    matches_at_exec(&chars_of(h), &chars_of(n), 0)
}

/// Unicode lower-casing as `str::to_lowercase` does it.
pub uninterp spec fn lowercase(s: Seq<char>) -> Seq<char>;

/// Lower-cases `s` with `str::to_lowercase`.
#[verifier::external_body]
pub fn to_lower(s: &str) -> (r: String)
    ensures
        r@ == lowercase(s@),
{
    s.to_lowercase()
}


/// The characters of `v` from `a` up to `b`.
pub fn sub_chars(v: &Vec<char>, a: usize, b: usize) -> (r: Vec<char>)
    requires
        a <= b <= v@.len(),
    ensures
        r@ == v@.subrange(a as int, b as int),
{
    let mut r: Vec<char> = Vec::new();
    let mut i = a;
    while i < b
        invariant
            a <= i <= b <= v@.len(),
            r@ =~= v@.subrange(a as int, i as int),
        decreases b - i,
    {
        r.push(v[i]);
        i = i + 1;
    }
    r
}

/// The views of a list of character vectors.
pub open spec fn seqs_view(v: Seq<Vec<char>>) -> Seq<Seq<char>> {
    v.map_values(|x: Vec<char>| x@)
}

/// The pieces of `s` from `start` on between the occurrences of `p`
/// (`str::split` with a string pattern).
pub open spec fn split_from(s: Seq<char>, p: Seq<char>, start: int) -> Seq<Seq<char>>
    decreases s.len() - start,
{
    if p.len() == 0 || start < 0 || start > s.len() {
        seq![]
    } else {
        let i = find_from(s, p, start);
        if i < 0 {
            seq![s.subrange(start, s.len() as int)]
        } else {
            proof {
                lemma_find_from(s, p, start);
            }
            seq![s.subrange(start, i)] + split_from(s, p, i + p.len())
        }
    }
}

/// `str::split` with a non-empty pattern.
pub open spec fn split(s: Seq<char>, p: Seq<char>) -> Seq<Seq<char>> {
    split_from(s, p, 0)
}

/// Splits `s` at every occurrence of `p`.
pub fn split_exec(s: &Vec<char>, p: &Vec<char>) -> (r: Vec<Vec<char>>)
    requires
        p@.len() > 0,
    ensures
        seqs_view(r@) == split(s@, p@),
{
    let mut r: Vec<Vec<char>> = Vec::new();
    let mut start: usize = 0;
    let sl = s.len();
    loop
        invariant
            sl == s@.len(),
            p@.len() > 0,
            start <= s@.len(),
            seqs_view(r@) + split_from(s@, p@, start as int) == split(s@, p@),
        decreases s@.len() - start,
    {
        let ghost r0 = r@;
        proof {
            lemma_find_from(s@, p@, start as int);
        }
        match find_exec(s, p, start) {
            None => {
                let piece = sub_chars(s, start, s.len());
                r.push(piece);
                assert(seqs_view(r@) =~= seqs_view(r0) + seq![piece@]);
                assert(seqs_view(r@) =~= seqs_view(r0) + split_from(s@, p@, start as int));
                return r;
            },
            Some(i) => {
                let piece = sub_chars(s, start, i);
                r.push(piece);
                assert(seqs_view(r@) =~= seqs_view(r0) + seq![piece@]);
                let ghost rest = split_from(s@, p@, i + p@.len());
                assert(split_from(s@, p@, start as int) == seq![piece@] + rest);
                assert(seqs_view(r0) + (seq![piece@] + rest) =~= seqs_view(r@) + rest);
                start = i + p.len();
            },
        }
    }
}

/// Whether `c` is white space in the sense of `char::is_whitespace`
/// (the Unicode `White_Space` property).
pub open spec fn is_ws(c: char) -> bool {
    let u = c as u32;
    (0x9 <= u <= 0xD) || u == 0x20 || u == 0x85 || u == 0xA0 || u == 0x1680 || (0x2000 <= u
        <= 0x200A) || u == 0x2028 || u == 0x2029 || u == 0x202F || u == 0x205F || u == 0x3000
}

pub fn is_ws_exec(c: char) -> (r: bool)
    ensures
        r == is_ws(c),
{
    let u = c as u32;
    (0x9 <= u && u <= 0xD) || u == 0x20 || u == 0x85 || u == 0xA0 || u == 0x1680 || (0x2000 <= u
        && u <= 0x200A) || u == 0x2028 || u == 0x2029 || u == 0x202F || u == 0x205F || u == 0x3000
}

/// The number of white-space characters that `s` starts with.
pub open spec fn lead_ws(s: Seq<char>) -> nat
    decreases s.len(),
{
    if s.len() > 0 && is_ws(s[0]) {
        1 + lead_ws(s.drop_first())
    } else {
        0
    }
}

/// The number of white-space characters that `s` ends with.
pub open spec fn trail_ws(s: Seq<char>) -> nat
    decreases s.len(),
{
    if s.len() > 0 && is_ws(s.last()) {
        1 + trail_ws(s.drop_last())
    } else {
        0
    }
}

pub proof fn lemma_lead_ws(s: Seq<char>, i: int)
    requires
        0 <= i <= s.len(),
        forall|j: int| 0 <= j < i ==> is_ws(s[j]),
    ensures
        lead_ws(s) == i + lead_ws(s.skip(i)),
        lead_ws(s) <= s.len(),
    decreases i,
{
    if i > 0 {
        lemma_lead_ws(s.drop_first(), i - 1);
        assert(s.drop_first().skip(i - 1) =~= s.skip(i));
    } else {
        assert(s.skip(0) =~= s);
        lemma_lead_bound(s);
    }
}

pub proof fn lemma_lead_bound(s: Seq<char>)
    ensures
        lead_ws(s) <= s.len(),
        lead_ws(s) < s.len() ==> !is_ws(s[lead_ws(s) as int]),
    decreases s.len(),
{
    if s.len() > 0 && is_ws(s[0]) {
        lemma_lead_bound(s.drop_first());
    }
}

pub proof fn lemma_trail_ws(s: Seq<char>, i: int)
    requires
        0 <= i <= s.len(),
        forall|j: int| s.len() - i <= j < s.len() ==> is_ws(s[j]),
    ensures
        trail_ws(s) == i + trail_ws(s.take(s.len() - i)),
    decreases i,
{
    if i > 0 {
        lemma_trail_ws(s.drop_last(), i - 1);
        assert(s.drop_last().take(s.drop_last().len() - (i - 1)) =~= s.take(s.len() - i));
    } else {
        assert(s.take(s.len() as int) =~= s);
    }
}

pub proof fn lemma_trail_bound(s: Seq<char>)
    ensures
        trail_ws(s) <= s.len(),
        trail_ws(s) < s.len() ==> !is_ws(s[s.len() - 1 - trail_ws(s)]),
    decreases s.len(),
{
    if s.len() > 0 && is_ws(s.last()) {
        lemma_trail_bound(s.drop_last());
    }
}

/// `str::trim`: `s` without its leading and trailing white space.
pub open spec fn trim(s: Seq<char>) -> Seq<char> {
    let a = s.skip(lead_ws(s) as int);
    a.take(a.len() - trail_ws(a))
}

/// `str::trim_start`.
pub open spec fn trim_start(s: Seq<char>) -> Seq<char> {
    s.skip(lead_ws(s) as int)
}

/// Trims white space from both ends of `v`.
pub fn trim_exec(v: &Vec<char>) -> (r: Vec<char>)
    ensures
        r@ == trim(v@),
{
    let mut a: usize = 0;
    while a < v.len() && is_ws_exec(v[a])
        invariant
            a <= v@.len(),
            forall|j: int| 0 <= j < a ==> is_ws(v@[j]),
        decreases v@.len() - a,
    {
        a = a + 1;
    }
    proof {
        lemma_lead_ws(v@, a as int);
        lemma_lead_bound(v@.skip(a as int));
        if a < v@.len() {
            assert(v@.skip(a as int)[0] == v@[a as int]);
        }
    }
    let ghost t = v@.skip(a as int);
    assert(lead_ws(v@) == a);
    let mut b: usize = v.len();
    while b > a && is_ws_exec(v[b - 1])
        invariant
            a <= b <= v@.len(),
            t == v@.skip(a as int),
            forall|j: int| b <= j < v@.len() ==> is_ws(v@[j]),
        decreases b,
    {
        b = b - 1;
    }
    proof {
        let k = v@.len() - b;
        assert forall|j: int| t.len() - k <= j < t.len() implies is_ws(t[j]) by {
            assert(t[j] == v@[a + j]);
        }
        lemma_trail_ws(t, k);
        let tt = t.take(t.len() - k);
        lemma_trail_bound(tt);
        if tt.len() > 0 {
            assert(tt.last() == v@[b - 1]);
        }
        assert(trail_ws(tt) == 0);
    }
    sub_chars(v, a, b)
}

/// `str::trim` on a string.
pub fn str_trim(s: &str) -> (r: String)
    ensures
        r@ == trim(s@),
{
    string_of(&trim_exec(&chars_of(s)))
}


/// A line without the carriage return that ended it.
pub open spec fn strip_cr(l: Seq<char>) -> Seq<char> {
    if l.len() > 0 && l.last() == '\r' {
        l.drop_last()
    } else {
        l
    }
}

/// `str::lines`: the pieces between line feeds, each without a carriage
/// return before its line feed; a final empty piece is not a line.
pub open spec fn lines(s: Seq<char>) -> Seq<Seq<char>> {
    let p = split(s, seq!['\n']);
    let n = p.len();
    let body = p.take(n - 1).map_values(|l: Seq<char>| strip_cr(l));
    if n == 0 || p[n - 1].len() == 0 {
        body
    } else {
        body.push(p[n - 1])
    }
}

/// The lines of `s`.
pub fn lines_exec(s: &Vec<char>) -> (r: Vec<Vec<char>>)
    ensures
        seqs_view(r@) == lines(s@),
{
    let nl: Vec<char> = vec!['\n'];
    assert(nl@ =~= seq!['\n']);
    let pieces = split_exec(s, &nl);
    let ghost p = split(s@, seq!['\n']);
    let n = pieces.len();
    let mut r: Vec<Vec<char>> = Vec::new();
    if n == 0 {
        assert(seqs_view(r@) =~= lines(s@));
        return r;
    }
    let mut i: usize = 0;
    while i < n - 1
        invariant
            n == pieces@.len(),
            n >= 1,
            i <= n - 1,
            seqs_view(pieces@) == p,
            seqs_view(r@) =~= p.take(i as int).map_values(|l: Seq<char>| strip_cr(l)),
        decreases n - 1 - i,
    {
        let l = &pieces[i];
        assert(l@ == p[i as int]);
        let stripped = if l.len() > 0 && l[l.len() - 1] == '\r' {
            sub_chars(l, 0, l.len() - 1)
        } else {
            sub_chars(l, 0, l.len())
        };
        assert(stripped@ =~= strip_cr(l@));
        let ghost r0 = r@;
        r.push(stripped);
        assert(seqs_view(r@) =~= seqs_view(r0).push(stripped@));
        i = i + 1;
        assert(p.take(i as int) =~= p.take(i - 1).push(p[i - 1]));
        assert(p.take(i as int).map_values(|l: Seq<char>| strip_cr(l)) =~= p.take(i - 1).map_values(|l: Seq<char>| strip_cr(l)).push(strip_cr(p[i - 1])));
    }
    let last = &pieces[n - 1];
    assert(last@ == p[n - 1]);
    if last.len() > 0 {
        let ghost r0 = r@;
        let lc = sub_chars(last, 0, last.len());
        r.push(lc);
        assert(lc@ =~= last@);
        assert(seqs_view(r@) =~= seqs_view(r0).push(lc@));
        assert(seqs_view(r@) =~= p.take(n - 1).map_values(|l: Seq<char>| strip_cr(l)).push(p[n - 1]));
    }
    r
}

/// The decimal digit `d`.
pub open spec fn digit_char(d: nat) -> char {
    (48 + d) as char
}

/// The decimal text of `n` (`to_string` on an unsigned integer).
pub open spec fn decimal(n: nat) -> Seq<char>
    decreases n,
{
    if n < 10 {
        seq![digit_char(n)]
    } else {
        decimal(n / 10).push(digit_char(n % 10))
    }
}

fn digit_exec(d: u64) -> (c: char)
    requires
        d < 10,
    ensures
        c == digit_char(d as nat),
{
    let b: u8 = 48 + d as u8;
    b as char
}

/// The decimal text of `n`.
pub fn decimal_exec(n: u64) -> (r: Vec<char>)
    ensures
        r@ == decimal(n as nat),
    decreases n,
{
    if n < 10 {
        vec![digit_exec(n)]
    } else {
        let mut v = decimal_exec(n / 10);
        v.push(digit_exec(n % 10));
        v
    }
}

/// `to_string` on an unsigned integer.
pub fn u64_text(n: u64) -> (r: String)
    ensures
        r@ == decimal(n as nat),
{
    string_of(&decimal_exec(n))
}

pub open spec fn is_digit(c: char) -> bool {
    '0' <= c <= '9'
}

/// The value of a string of decimal digits.
pub open spec fn digits_value(s: Seq<char>) -> nat
    decreases s.len(),
{
    if s.len() == 0 {
        0
    } else {
        digits_value(s.drop_last()) * 10 + ((s.last() as u32) - 48) as nat
    }
}

pub open spec fn unsigned_digits(s: Seq<char>) -> Seq<char> {
    if s.len() > 0 && s[0] == '+' {
        s.drop_first()
    } else {
        s
    }
}

pub open spec fn all_digits(d: Seq<char>) -> bool {
    forall|i: int| 0 <= i < d.len() ==> is_digit(#[trigger] d[i])
}

/// `str::parse::<u32>`: an optional `+`, then one or more decimal digits
/// whose value fits in a `u32`.
pub open spec fn parse_u32(s: Seq<char>) -> Option<u32> {
    let d = unsigned_digits(s);
    if d.len() == 0 || !all_digits(d) {
        None
    } else if digits_value(d) > u32::MAX {
        None
    } else {
        Some(digits_value(d) as u32)
    }
}

proof fn lemma_digits_mono(d: Seq<char>, i: int)
    requires
        0 <= i <= d.len(),
        forall|j: int| 0 <= j < d.len() ==> is_digit(#[trigger] d[j]),
    ensures
        digits_value(d.take(i)) <= digits_value(d),
    decreases d.len() - i,
{
    if i < d.len() {
        lemma_digits_mono(d, i + 1);
        assert(d.take(i + 1).drop_last() =~= d.take(i));
    } else {
        assert(d.take(i) =~= d);
    }
}

/// Parses an unsigned 32-bit number as `str::parse::<u32>` does.
pub fn parse_u32_exec(v: &Vec<char>) -> (r: Option<u32>)
    ensures
        r == parse_u32(v@),
{
    let start: usize = if v.len() > 0 && v[0] == '+' {
        1
    } else {
        0
    };
    let ghost d = unsigned_digits(v@);
    assert(d =~= v@.skip(start as int));
    if start == v.len() {
        return None;
    }
    let mut acc: u64 = 0;
    let mut i = start;
    while i < v.len()
        invariant
            start <= i <= v@.len(),
            d == v@.skip(start as int),
            d == unsigned_digits(v@),
            d.len() > 0,
            acc <= u32::MAX,
            acc == digits_value(d.take(i - start)),
            forall|j: int| 0 <= j < i - start ==> is_digit(#[trigger] d[j]),
        decreases v@.len() - i,
    {
        let c = v[i];
        assert(d[i - start] == v@[i as int]);
        if !('0' <= c && c <= '9') {
            assert(!is_digit(d[i - start]));
            assert(!all_digits(d));
            return None;
        }
        assert(d.take(i - start + 1).drop_last() =~= d.take(i - start));
        assert(d.take(i - start + 1).last() == c);
        assert(digits_value(d.take(i - start + 1)) == digits_value(d.take(i - start)) * 10 + ((c as u32) - 48) as nat);
        acc = acc * 10 + (c as u32 - 48) as u64;
        i = i + 1;
        if acc > 0xFFFF_FFFF {
            proof {
                if all_digits(d) {
                    lemma_digits_mono(d, i - start);
                }
            }
            return None;
        }
    }
    assert(d.take(i - start) =~= d);
    Some(acc as u32)
}

/// The number of bytes that `c` takes in UTF-8.
pub open spec fn utf8_width(c: char) -> nat {
    let u = c as u32;
    if u < 0x80 {
        1
    } else if u < 0x800 {
        2
    } else if u < 0x10000 {
        3
    } else {
        4
    }
}

pub fn utf8_width_exec(c: char) -> (r: usize)
    ensures
        r == utf8_width(c),
{
    let u = c as u32;
    if u < 0x80 {
        1
    } else if u < 0x800 {
        2
    } else if u < 0x10000 {
        3
    } else {
        4
    }
}

/// The number of bytes of `s` in UTF-8 (`str::len`).
pub open spec fn byte_len(s: Seq<char>) -> nat
    decreases s.len(),
{
    if s.len() == 0 {
        0
    } else {
        byte_len(s.drop_last()) + utf8_width(s.last())
    }
}

/// Whether byte offset `b` of `s` falls between two characters, namely
/// after the first `k` of them.
pub open spec fn boundary_at(s: Seq<char>, b: int, k: int) -> bool {
    0 <= k <= s.len() && byte_len(s.take(k)) == b
}

/// The number of characters before byte offset `b` of `s`, where `b` is a
/// character boundary; slicing `s` at `b` (`&s[..b]`, `&s[b..]`) panics
/// otherwise.
pub open spec fn char_index_at_byte(s: Seq<char>, b: int) -> Option<int> {
    if exists|k: int| boundary_at(s, b, k) {
        Some(choose|k: int| boundary_at(s, b, k))
    } else {
        None
    }
}

pub proof fn lemma_byte_len_take_step(s: Seq<char>, k: int)
    requires
        0 <= k < s.len(),
    ensures
        byte_len(s.take(k + 1)) == byte_len(s.take(k)) + utf8_width(s[k]),
{
    assert(s.take(k + 1).drop_last() =~= s.take(k));
}

pub proof fn lemma_byte_len_take_mono(s: Seq<char>, k1: int, k2: int)
    requires
        0 <= k1 < k2 <= s.len(),
    ensures
        byte_len(s.take(k1)) < byte_len(s.take(k2)),
    decreases k2 - k1,
{
    lemma_byte_len_take_step(s, k2 - 1);
    if k1 < k2 - 1 {
        lemma_byte_len_take_mono(s, k1, k2 - 1);
    }
}

/// The character index at byte offset `b` of `s`, if `b` is a boundary.
pub fn char_index_at_byte_exec(s: &Vec<char>, b: u128) -> (r: Option<usize>)
    ensures
        match char_index_at_byte(s@, b as int) {
            Some(k) => r == Some(k as usize),
            None => r is None,
        },
{
    let mut k: usize = 0;
    let mut acc: u128 = 0;
    assert(s@.take(0) =~= Seq::<char>::empty());
    while k < s.len() && acc < b
        invariant
            k <= s@.len(),
            acc == byte_len(s@.take(k as int)),
            acc <= b,
            forall|j: int| 0 <= j < k ==> byte_len(s@.take(j)) < b,
        decreases s@.len() - k,
    {
        proof {
            lemma_byte_len_take_step(s@, k as int);
            assert forall|j: int| 0 <= j < k + 1 implies byte_len(s@.take(j)) < b by {
                if j < k {
                } else {
                    assert(j == k);
                }
            }
        }
        let w = utf8_width_exec(s[k]) as u128;
        if w > b - acc {
            proof {
                assert forall|j: int| boundary_at(s@, b as int, j) implies false by {
                    if j <= k {
                    } else {
                        lemma_byte_len_take_mono(s@, k + 1, j);
                        if j == k + 1 {
                        }
                    }
                }
            }
            return None;
        }
        acc = acc + w;
        k = k + 1;
    }
    if acc == b {
        proof {
            assert(boundary_at(s@, b as int, k as int));
            let c = choose|j: int| boundary_at(s@, b as int, j);
            if c < k {
                lemma_byte_len_take_mono(s@, c, k as int);
            } else if c > k {
                lemma_byte_len_take_mono(s@, k as int, c);
            }
        }
        Some(k)
    } else {
        proof {
            assert forall|j: int| boundary_at(s@, b as int, j) implies false by {
                if j < k {
                } else if j > k {
                    lemma_byte_len_take_mono(s@, k as int, j);
                }
            }
        }
        None
    }
}


/// The UTF-8 length of `v` in bytes.
pub fn byte_len_exec(v: &Vec<char>) -> (r: u128)
    ensures
        r == byte_len(v@),
{
    let mut k: usize = 0;
    let mut acc: u128 = 0;
    assert(v@.take(0) =~= Seq::<char>::empty());
    while k < v.len()
        invariant
            k <= v@.len(),
            acc == byte_len(v@.take(k as int)),
            acc <= 4 * k,
        decreases v@.len() - k,
    {
        proof {
            lemma_byte_len_take_step(v@, k as int);
        }
        acc = acc + utf8_width_exec(v[k]) as u128;
        k = k + 1;
    }
    assert(v@.take(k as int) =~= v@);
    acc
}

/// Whether two character vectors are equal.
pub fn chars_eq(a: &Vec<char>, b: &Vec<char>) -> (r: bool)
    ensures
        r == (a@ == b@),
{
    if a.len() != b.len() {
        return false;
    }
    let mut i: usize = 0;
    while i < a.len()
        invariant
            a@.len() == b@.len(),
            i <= a@.len(),
            forall|j: int| 0 <= j < i ==> a@[j] == b@[j],
        decreases a@.len() - i,
    {
        if a[i] != b[i] {
            return false;
        }
        i = i + 1;
    }
    assert(a@ =~= b@);
    true
}

/// Whether two strings are equal.
pub fn str_eq(a: &str, b: &str) -> (r: bool)
    ensures
        r == (a@ == b@),
{
    chars_eq(&chars_of(a), &chars_of(b))
}


/// No piece of a split by a single character holds that character.
pub proof fn lemma_split_pieces_lack_sep(s: Seq<char>, c: char, start: int)
    requires
        0 <= start <= s.len(),
    ensures
        forall|k: int, t: int|
            0 <= k < split_from(s, seq![c], start).len() && 0 <= t < split_from(s, seq![c], start)[k].len()
                ==> #[trigger] split_from(s, seq![c], start)[k][t] != c,
    decreases s.len() - start,
{
    let p = seq![c];
    lemma_find_from(s, p, start);
    let i = find_from(s, p, start);
    let pieces = split_from(s, p, start);
    assert forall|j: int| start <= j < (if i < 0 { s.len() as int } else { i }) implies s[j] != c by {
        if s[j] == c {
            assert(s.subrange(j, j + 1) =~= p);
            assert(matches_at(s, p, j));
        }
    }
    if i >= 0 {
        lemma_split_pieces_lack_sep(s, c, i + 1);
        let rest = split_from(s, p, i + 1);
        assert forall|k: int, t: int| 0 <= k < pieces.len() && 0 <= t < pieces[k].len() implies #[trigger] pieces[k][t] != c by {
            if k > 0 {
                assert(pieces[k] == rest[k - 1]);
            } else {
                assert(pieces[0] == s.subrange(start, i));
                assert(pieces[0][t] == s[start + t]);
            }
        }
    } else {
        assert forall|k: int, t: int| 0 <= k < pieces.len() && 0 <= t < pieces[k].len() implies #[trigger] pieces[k][t] != c by {
            assert(pieces[0][t] == s[start + t]);
        }
    }
}


/// The number of `c` characters that `s` starts with.
pub open spec fn lead_char(s: Seq<char>, c: char) -> nat
    decreases s.len(),
{
    if s.len() > 0 && s[0] == c {
        1 + lead_char(s.drop_first(), c)
    } else {
        0
    }
}

/// The number of `c` characters that `s` ends with.
pub open spec fn trail_char(s: Seq<char>, c: char) -> nat
    decreases s.len(),
{
    if s.len() > 0 && s.last() == c {
        1 + trail_char(s.drop_last(), c)
    } else {
        0
    }
}

/// `str::trim_matches` with one character: `s` without the copies of `c`
/// at either end.
pub open spec fn trim_char(s: Seq<char>, c: char) -> Seq<char> {
    let a = s.skip(lead_char(s, c) as int);
    a.take(a.len() - trail_char(a, c))
}

proof fn lemma_lead_char(s: Seq<char>, c: char, i: int)
    requires
        0 <= i <= s.len(),
        forall|j: int| 0 <= j < i ==> s[j] == c,
        i == s.len() || s[i] != c,
    ensures
        lead_char(s, c) == i,
    decreases i,
{
    if i > 0 {
        lemma_lead_char(s.drop_first(), c, i - 1);
    }
}

proof fn lemma_trail_char(s: Seq<char>, c: char, i: int)
    requires
        0 <= i <= s.len(),
        forall|j: int| s.len() - i <= j < s.len() ==> s[j] == c,
        i == s.len() || s[s.len() - 1 - i] != c,
    ensures
        trail_char(s, c) == i,
    decreases i,
{
    if i > 0 {
        lemma_trail_char(s.drop_last(), c, i - 1);
    }
}

/// Trims the copies of `c` from both ends of `v`.
pub fn trim_char_exec(v: &Vec<char>, c: char) -> (r: Vec<char>)
    ensures
        r@ == trim_char(v@, c),
{
    let mut a: usize = 0;
    while a < v.len() && v[a] == c
        invariant
            a <= v@.len(),
            forall|j: int| 0 <= j < a ==> v@[j] == c,
        decreases v@.len() - a,
    {
        a = a + 1;
    }
    proof {
        lemma_lead_char(v@, c, a as int);
    }
    let ghost t = v@.skip(a as int);
    let mut b: usize = v.len();
    while b > a && v[b - 1] == c
        invariant
            a <= b <= v@.len(),
            t == v@.skip(a as int),
            forall|j: int| b <= j < v@.len() ==> v@[j] == c,
        decreases b,
    {
        b = b - 1;
    }
    proof {
        let k = v@.len() - b;
        assert forall|j: int| t.len() - k <= j < t.len() implies t[j] == c by {
            assert(t[j] == v@[a + j]);
        }
        if k < t.len() {
            assert(t[t.len() - 1 - k] == v@[b - 1]);
        }
        lemma_trail_char(t, c, k);
    }
    sub_chars(v, a, b)
}


/// A match of `p` at `i` in `y` is a match at `a.len() + i` in `a + y`.
pub proof fn lemma_matches_at_shift(a: Seq<char>, y: Seq<char>, p: Seq<char>, i: int)
    requires
        0 <= i,
    ensures
        matches_at(a + y, p, a.len() + i) == matches_at(y, p, i),
{
    let s = a + y;
    if i + p.len() <= y.len() {
        assert(s.subrange(a.len() + i, a.len() + i + p.len()) =~= y.subrange(i, i + p.len()));
    }
}

/// Searching `a + y` past `a` is searching `y`.
pub proof fn lemma_find_from_shift(a: Seq<char>, y: Seq<char>, p: Seq<char>, k: int)
    requires
        0 <= k,
    ensures
        find_from(a + y, p, a.len() + k) == (if find_from(y, p, k) < 0 {
            -1
        } else {
            a.len() + find_from(y, p, k)
        }),
    decreases y.len() + 1 - k,
{
    lemma_matches_at_shift(a, y, p, k);
    if k + p.len() <= y.len() && !matches_at(y, p, k) {
        lemma_find_from_shift(a, y, p, k + 1);
    }
}

/// Splitting `a + y` past `a` is splitting `y`.
pub proof fn lemma_split_from_shift(a: Seq<char>, y: Seq<char>, p: Seq<char>, k: int)
    requires
        0 <= k <= y.len(),
    ensures
        split_from(a + y, p, a.len() + k) == split_from(y, p, k),
    decreases y.len() - k,
{
    lemma_find_from_shift(a, y, p, k);
    if p.len() > 0 {
        let i = find_from(y, p, k);
        lemma_find_from(y, p, k);
        let s = a + y;
        if i < 0 {
            assert(s.subrange(a.len() + k, s.len() as int) =~= y.subrange(k, y.len() as int));
        } else {
            assert(s.subrange(a.len() + k, a.len() + i) =~= y.subrange(k, i));
            lemma_split_from_shift(a, y, p, i + p.len());
        }
    }
}

/// Where the first occurrence of `p` in `x + p + y` is right after `x`,
/// the first piece is `x` and the others are those of `y`.
pub proof fn lemma_split_first(x: Seq<char>, p: Seq<char>, y: Seq<char>)
    requires
        p.len() > 0,
        find_from(x + p + y, p, 0) == x.len(),
    ensures
        split(x + p + y, p) == seq![x] + split(y, p),
{
    let s = x + p + y;
    assert(s.subrange(0, x.len() as int) =~= x);
    lemma_split_from_shift(x + p, y, p, 0);
}

/// A string without `p` in it is one piece.
pub proof fn lemma_split_none(x: Seq<char>, p: Seq<char>)
    requires
        p.len() > 0,
        !contains(x, p),
    ensures
        split(x, p) == seq![x],
{
    lemma_find_from(x, p, 0);
    if find_from(x, p, 0) >= 0 {
        assert(matches_at(x, p, find_from(x, p, 0)));
    }
    assert(x.subrange(0, x.len() as int) =~= x);
}

/// The first line break of `x + "\n" + y` ends `x` where `x` has none.
pub proof fn lemma_find_first_char(x: Seq<char>, c: char, y: Seq<char>)
    requires
        !contains(x, seq![c]),
    ensures
        find_from(x + seq![c] + y, seq![c], 0) == x.len(),
{
    let p = seq![c];
    let s = x + p + y;
    lemma_find_from(s, p, 0);
    assert(s.subrange(x.len() as int, x.len() as int + 1) =~= p);
    assert(matches_at(s, p, x.len() as int));
    let r = find_from(s, p, 0);
    if r != x.len() {
        assert(0 <= r < x.len());
        assert(s.subrange(r, r + 1) =~= x.subrange(r, r + 1));
        assert(matches_at(x, p, r));
    }
}

/// Neither part holds the character, so the whole does not.
pub proof fn lemma_no_char_concat(a: Seq<char>, b: Seq<char>, c: char)
    requires
        !contains(a, seq![c]),
        !contains(b, seq![c]),
    ensures
        !contains(a + b, seq![c]),
{
    let p = seq![c];
    let s = a + b;
    assert forall|i: int| !matches_at(s, p, i) by {
        if matches_at(s, p, i) {
            if i < a.len() {
                assert(s.subrange(i, i + 1) =~= a.subrange(i, i + 1));
                assert(matches_at(a, p, i));
            } else {
                assert(s.subrange(i, i + 1) =~= b.subrange(i - a.len(), i - a.len() + 1));
                assert(matches_at(b, p, i - a.len()));
            }
        }
    }
}

/// A string none of whose characters is `c` does not hold `c`.
pub proof fn lemma_no_char(s: Seq<char>, c: char)
    requires
        forall|i: int| 0 <= i < s.len() ==> s[i] != c,
    ensures
        !contains(s, seq![c]),
{
    assert forall|i: int| !matches_at(s, seq![c], i) by {
        if matches_at(s, seq![c], i) {
            assert(s.subrange(i, i + 1)[0] == s[i]);
        }
    }
}

/// A string with no two dashes in a row holds no `---`.
pub proof fn lemma_no_dashes(s: Seq<char>)
    requires
        forall|i: int| 0 <= i < s.len() - 1 ==> !(#[trigger] s[i] == '-' && s[i + 1] == '-'),
    ensures
        !contains(s, "---"@),
{
    reveal_strlit("---");
    assert forall|i: int| !matches_at(s, "---"@, i) by {
        if matches_at(s, "---"@, i) {
            assert(s.subrange(i, i + 3)[0] == s[i]);
            assert(s.subrange(i, i + 3)[1] == s[i + 1]);
        }
    }
}

/// Two strings without `---` join without one where they do not meet in
/// dashes.
pub proof fn lemma_no_dashes_concat(a: Seq<char>, b: Seq<char>)
    requires
        !contains(a, "---"@),
        !contains(b, "---"@),
        a.len() == 0 || b.len() == 0 || a.last() != '-' || b[0] != '-',
    ensures
        !contains(a + b, "---"@),
{
    reveal_strlit("---");
    let d = "---"@;
    let s = a + b;
    assert forall|i: int| !matches_at(s, d, i) by {
        if matches_at(s, d, i) {
            if i + 3 <= a.len() {
                assert(s.subrange(i, i + 3) =~= a.subrange(i, i + 3));
                assert(matches_at(a, d, i));
            } else if i >= a.len() {
                assert(s.subrange(i, i + 3) =~= b.subrange(i - a.len(), i - a.len() + 3));
                assert(matches_at(b, d, i - a.len()));
            } else {
                assert(s.subrange(i, i + 3)[a.len() - 1 - i] == s[a.len() - 1]);
                assert(s.subrange(i, i + 3)[a.len() - i] == s[a.len() as int]);
            }
        }
    }
}

/// The first `---` of `x + "---" + z` ends `x` where `x` has none and does
/// not end in a dash.
pub proof fn lemma_find_first_dashes(x: Seq<char>, z: Seq<char>)
    requires
        !contains(x, "---"@),
        x.len() > 0,
        x.last() != '-',
    ensures
        find_from(x + "---"@ + z, "---"@, 0) == x.len(),
{
    reveal_strlit("---");
    let d = "---"@;
    let s = x + d + z;
    lemma_find_from(s, d, 0);
    assert(s.subrange(x.len() as int, x.len() as int + 3) =~= d);
    assert(matches_at(s, d, x.len() as int));
    let r = find_from(s, d, 0);
    if r != x.len() {
        assert(0 <= r < x.len());
        if r + 3 <= x.len() {
            assert(s.subrange(r, r + 3) =~= x.subrange(r, r + 3));
            assert(matches_at(x, d, r));
        } else {
            assert(s.subrange(r, r + 3)[x.len() - 1 - r] == s[x.len() - 1]);
        }
    }
}

/// A string that starts and ends with a non-white-space character is its
/// own trim.
pub proof fn lemma_trim_plain(s: Seq<char>)
    requires
        s.len() > 0,
        !is_ws(s[0]),
        !is_ws(s.last()),
    ensures
        trim(s) == s,
{
    assert(lead_ws(s) == 0);
    assert(s.skip(0) =~= s);
    assert(trail_ws(s) == 0);
    assert(s.take(s.len() as int) =~= s);
}

/// A non-empty trimmed string starts and ends with non-white-space.
pub proof fn lemma_trimmed_ends(s: Seq<char>)
    requires
        trim(s) == s,
        s.len() > 0,
    ensures
        !is_ws(s[0]),
        !is_ws(s.last()),
{
    lemma_lead_bound(s);
    let a = s.skip(lead_ws(s) as int);
    lemma_trail_bound(a);
    assert(trim(s).len() == a.len() - trail_ws(a));
    assert(lead_ws(s) == 0);
    assert(a =~= s);
    assert(trail_ws(s) == 0);
}

/// A blank followed by a trimmed string trims to that string.
pub proof fn lemma_trim_after_blank(v: Seq<char>)
    requires
        trim(v) == v,
    ensures
        trim(seq![' '] + v) == v,
{
    let s = seq![' '] + v;
    assert(is_ws(' '));
    assert(s.drop_first() =~= v);
    if v.len() == 0 {
        assert(lead_ws(v) == 0);
        assert(lead_ws(s) == 1);
        assert(s.skip(1).len() == 0);
        assert(trail_ws(s.skip(1)) == 0);
        assert(trim(s) =~= v);
    } else {
        lemma_trimmed_ends(v);
        assert(lead_ws(v) == 0);
        assert(lead_ws(s) == 1);
        assert(s.skip(1) =~= v);
        assert(trail_ws(v) == 0);
        assert(v.take(v.len() as int) =~= v);
    }
}

/// A string of one-byte characters has as many bytes as characters.
pub proof fn lemma_byte_len_ascii(s: Seq<char>)
    requires
        forall|i: int| 0 <= i < s.len() ==> (s[i] as u32) < 0x80,
    ensures
        byte_len(s) == s.len(),
    decreases s.len(),
{
    if s.len() > 0 {
        lemma_byte_len_ascii(s.drop_last());
    }
}

/// The byte offset right after a prefix of one-byte characters falls
/// after as many characters.
pub proof fn lemma_char_index_after_ascii(m: Seq<char>, r: Seq<char>)
    requires
        forall|i: int| 0 <= i < m.len() ==> (m[i] as u32) < 0x80,
    ensures
        byte_len(m) == m.len(),
        char_index_at_byte(m + r, m.len() as int) == Some(m.len() as int),
{
    lemma_byte_len_ascii(m);
    let s = m + r;
    let n = m.len() as int;
    assert(s.take(n) =~= m);
    assert(boundary_at(s, n, n));
    let k = choose|k: int| boundary_at(s, n, k);
    assert(boundary_at(s, n, k));
    if k < n {
        lemma_byte_len_take_mono(s, k, n);
    } else if k > n {
        lemma_byte_len_take_mono(s, n, k);
    }
}


/// A match in `a` is a match in `a + b`.
pub proof fn lemma_contains_prefix(a: Seq<char>, b: Seq<char>, n: Seq<char>)
    requires
        contains(a, n),
    ensures
        contains(a + b, n),
{
    let i = choose|i: int| matches_at(a, n, i);
    assert((a + b).subrange(i, i + n.len()) =~= a.subrange(i, i + n.len()));
    assert(matches_at(a + b, n, i));
}

/// A match in `b` is a match in `a + b`.
pub proof fn lemma_contains_suffix(a: Seq<char>, b: Seq<char>, n: Seq<char>)
    requires
        contains(b, n),
    ensures
        contains(a + b, n),
{
    let i = choose|i: int| matches_at(b, n, i);
    assert((a + b).subrange(a.len() + i, a.len() + i + n.len()) =~= b.subrange(i, i + n.len()));
    assert(matches_at(a + b, n, a.len() + i));
}

} // verus!
