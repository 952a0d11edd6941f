use vstd::prelude::*;
use crate::ranking::{Ranked, ranked_sort, sort_ranked, is_ranked, law_sort_is_ranked, law_sort_permutes};
use crate::text::{decimal, decimal_exec, lines, lines_exec, trim, trim_exec, byte_len, byte_len_exec, char_index_at_byte, char_index_at_byte_exec, chars_of, contains, contains_exec, lowercase, to_lower, string_of, str_contains, starts_with, str_starts_with, str_eq, split, split_exec, seqs_view, sub_chars};

verus! {

/// Something the shell learnt from a failure.
pub struct Lesson {
    pub id: String,
    pub timestamp: String,
    pub category: String,
    pub trigger: String,
    pub observation: String,
    pub correction: String,
    pub source: String,
    pub applied_count: u32,
    pub success_count: u32,
    pub auto_solved: bool,
}

/// An error text that keeps coming back.
pub struct ErrorPattern {
    pub pattern: String,
    pub category: String,
    pub frequency: u32,
    pub last_seen: String,
    pub suggested_fix: String,
    pub lesson_id: String,
}

/// The lessons and error patterns that the shell keeps.
pub struct LessonStore {
    pub lessons: Vec<Lesson>,
    pub patterns: Vec<ErrorPattern>,
    pub version: u32,
}

/// Lexicographic order of two texts by character, which is the order of
/// their UTF-8 bytes (the order of `String`).
pub open spec fn text_lt(a: Seq<char>, b: Seq<char>) -> bool
    decreases a.len(),
{
    if a.len() == 0 {
        b.len() > 0
    } else if b.len() == 0 {
        false
    } else if a[0] != b[0] {
        (a[0] as u32) < (b[0] as u32)
    } else {
        text_lt(a.drop_first(), b.drop_first())
    }
}

pub proof fn lemma_text_lt_irreflexive(a: Seq<char>)
    ensures
        !text_lt(a, a),
    decreases a.len(),
{
    if a.len() > 0 {
        lemma_text_lt_irreflexive(a.drop_first());
    }
}

pub proof fn lemma_text_lt_transitive(a: Seq<char>, b: Seq<char>, c: Seq<char>)
    requires
        text_lt(a, b),
        text_lt(b, c),
    ensures
        text_lt(a, c),
    decreases a.len(),
{
    if a.len() > 0 && b.len() > 0 && c.len() > 0 && a[0] == b[0] && b[0] == c[0] {
        lemma_text_lt_transitive(a.drop_first(), b.drop_first(), c.drop_first());
    }
}

pub proof fn lemma_text_lt_total(a: Seq<char>, b: Seq<char>)
    ensures
        text_lt(a, b) || text_lt(b, a) || a == b,
    decreases a.len(),
{
    if a.len() > 0 && b.len() > 0 && a[0] == b[0] {
        lemma_text_lt_total(a.drop_first(), b.drop_first());
        if a.drop_first() == b.drop_first() {
            assert(a =~= seq![a[0]] + a.drop_first());
            assert(b =~= seq![b[0]] + b.drop_first());
        }
    } else if a.len() == 0 && b.len() == 0 {
        assert(a =~= b);
    } else if a.len() > 0 && b.len() > 0 {
        let x = a[0] as u32;
        let y = b[0] as u32;
        assert(x != y) by {
            vstd::utf8::char_u32_cast(a[0], x);
            vstd::utf8::char_u32_cast(b[0], y);
        }
    }
}

/// Whether `a` comes before `b` as text.
pub fn text_lt_exec(a: &str, b: &str) -> (r: bool)
    ensures
        r == text_lt(a@, b@),
{
    let x = chars_of(a);
    let y = chars_of(b);
    let mut i: usize = 0;
    assert(x@.skip(0) =~= x@);
    assert(y@.skip(0) =~= y@);
    while i < x.len() && i < y.len() && x[i] == y[i]
        invariant
            i <= x@.len(),
            i <= y@.len(),
            text_lt(a@, b@) == text_lt(x@.skip(i as int), y@.skip(i as int)),
            x@ == a@,
            y@ == b@,
        decreases x@.len() - i,
    {
        assert(x@.skip(i as int).drop_first() =~= x@.skip(i + 1));
        assert(y@.skip(i as int).drop_first() =~= y@.skip(i + 1));
        i = i + 1;
    }
    if i == x.len() {
        i < y.len()
    } else if i == y.len() {
        false
    } else {
        (x[i] as u32) < (y[i] as u32)
    }
}

impl Lesson {
    /// A copy of the lesson.
    pub fn copy(&self) -> (r: Lesson)
        ensures
            r == *self,
    {
        Lesson {
            id: self.id.clone(),
            timestamp: self.timestamp.clone(),
            category: self.category.clone(),
            trigger: self.trigger.clone(),
            observation: self.observation.clone(),
            correction: self.correction.clone(),
            source: self.source.clone(),
            applied_count: self.applied_count,
            success_count: self.success_count,
            auto_solved: self.auto_solved,
        }
    }
}

impl ErrorPattern {
    /// A copy of the pattern.
    pub fn copy(&self) -> (r: ErrorPattern)
        ensures
            r == *self,
    {
        ErrorPattern {
            pattern: self.pattern.clone(),
            category: self.category.clone(),
            frequency: self.frequency,
            last_seen: self.last_seen.clone(),
            suggested_fix: self.suggested_fix.clone(),
            lesson_id: self.lesson_id.clone(),
        }
    }
}

/// Lessons rank newest first, by the text of their timestamps.
impl Ranked for Lesson {
    open spec fn ranks_above(a: Lesson, b: Lesson) -> bool {
        text_lt(b.timestamp@, a.timestamp@)
    }

    fn outranks(&self, other: &Lesson) -> (r: bool) {
        text_lt_exec(other.timestamp.as_str(), self.timestamp.as_str())
    }

    proof fn lemma_irreflexive(a: Lesson) {
        lemma_text_lt_irreflexive(a.timestamp@);
    }

    proof fn lemma_transitive(a: Lesson, b: Lesson, c: Lesson) {
        lemma_text_lt_transitive(c.timestamp@, b.timestamp@, a.timestamp@);
    }

    proof fn lemma_not_above_transitive(a: Lesson, b: Lesson, c: Lesson) {
        lemma_text_lt_total(a.timestamp@, b.timestamp@);
        lemma_text_lt_total(b.timestamp@, c.timestamp@);
        if text_lt(c.timestamp@, a.timestamp@) {
            if text_lt(b.timestamp@, a.timestamp@) {
            } else if a.timestamp@ == b.timestamp@ {
            } else {
                lemma_text_lt_transitive(c.timestamp@, a.timestamp@, b.timestamp@);
            }
        }
    }
}

/// Patterns rank most frequent first.
impl Ranked for ErrorPattern {
    open spec fn ranks_above(a: ErrorPattern, b: ErrorPattern) -> bool {
        a.frequency > b.frequency
    }

    fn outranks(&self, other: &ErrorPattern) -> (r: bool) {
        self.frequency > other.frequency
    }

    proof fn lemma_irreflexive(a: ErrorPattern) {
    }

    proof fn lemma_transitive(a: ErrorPattern, b: ErrorPattern, c: ErrorPattern) {
    }

    proof fn lemma_not_above_transitive(a: ErrorPattern, b: ErrorPattern, c: ErrorPattern) {
    }
}

/// Matches rank by their score, highest first.
impl Ranked for (Lesson, u32) {
    open spec fn ranks_above(a: (Lesson, u32), b: (Lesson, u32)) -> bool {
        a.1 > b.1
    }

    fn outranks(&self, other: &(Lesson, u32)) -> (r: bool) {
        self.1 > other.1
    }

    proof fn lemma_irreflexive(a: (Lesson, u32)) {
    }

    proof fn lemma_transitive(a: (Lesson, u32), b: (Lesson, u32), c: (Lesson, u32)) {
    }

    proof fn lemma_not_above_transitive(a: (Lesson, u32), b: (Lesson, u32), c: (Lesson, u32)) {
    }
}


/// The index of the first lesson with the given id, or -1.
pub open spec fn lesson_index(ls: Seq<Lesson>, id: Seq<char>) -> int
    decreases ls.len(),
{
    if ls.len() == 0 {
        -1
    } else if ls[0].id@ == id {
        0
    } else {
        let r = lesson_index(ls.drop_first(), id);
        if r < 0 {
            -1
        } else {
            r + 1
        }
    }
}

pub proof fn lemma_lesson_index(ls: Seq<Lesson>, id: Seq<char>)
    ensures
        -1 <= lesson_index(ls, id) < ls.len(),
        lesson_index(ls, id) >= 0 ==> ls[lesson_index(ls, id)].id@ == id,
        forall|j: int| 0 <= j < ls.len() && (lesson_index(ls, id) < 0 || j < lesson_index(ls, id)) ==> ls[j].id@ != id,
    decreases ls.len(),
{
    if ls.len() > 0 && ls[0].id@ != id {
        lemma_lesson_index(ls.drop_first(), id);
        assert forall|j: int| 0 <= j < ls.len() && (lesson_index(ls, id) < 0 || j < lesson_index(ls, id)) implies ls[j].id@ != id by {
            if j > 0 {
                assert(ls[j] == ls.drop_first()[j - 1]);
            }
        }
    }
}

/// `lesson_index` reads only the ids.
pub proof fn lemma_lesson_index_same_ids(a: Seq<Lesson>, b: Seq<Lesson>, id: Seq<char>)
    requires
        a.len() == b.len(),
        forall|j: int| 0 <= j < a.len() ==> a[j].id@ == b[j].id@,
    ensures
        lesson_index(a, id) == lesson_index(b, id),
    decreases a.len(),
{
    if a.len() > 0 {
        lemma_lesson_index_same_ids(a.drop_first(), b.drop_first(), id);
    }
}

/// The index of the first lesson with id `id`.
pub fn find_lesson(ls: &Vec<Lesson>, id: &str) -> (r: Option<usize>)
    ensures
        match r {
            Some(i) => i as int == lesson_index(ls@, id@) && i < ls@.len(),
            None => lesson_index(ls@, id@) == -1,
        },
{
    proof {
        lemma_lesson_index(ls@, id@);
    }
    let key = id.to_owned();
    let mut i: usize = 0;
    while i < ls.len()
        invariant
            i <= ls@.len(),
            key@ == id@,
            forall|j: int| 0 <= j < i ==> ls@[j].id@ != id@,
            -1 <= lesson_index(ls@, id@) < ls@.len(),
            lesson_index(ls@, id@) >= 0 ==> ls@[lesson_index(ls@, id@)].id@ == id@,
            forall|j: int| 0 <= j < ls@.len() && (lesson_index(ls@, id@) < 0 || j < lesson_index(ls@, id@)) ==> ls@[j].id@ != id@,
        decreases ls@.len() - i,
    {
        if ls[i].id == key {
            return Some(i);
        }
        i = i + 1;
    }
    None
}

/// The lesson after one more successful use.
pub open spec fn succeeded(l: Lesson) -> Lesson {
    Lesson { applied_count: (l.applied_count + 1) as u32, success_count: (l.success_count + 1) as u32, ..l }
}

/// The lesson after one more failed use: it is no longer auto-solved.
pub open spec fn failed(l: Lesson) -> Lesson {
    Lesson { applied_count: (l.applied_count + 1) as u32, auto_solved: false, ..l }
}

/// `ls` with the first lesson of id `id` changed by `f`.
pub open spec fn update_lesson(ls: Seq<Lesson>, id: Seq<char>, f: spec_fn(Lesson) -> Lesson) -> Seq<Lesson> {
    let i = lesson_index(ls, id);
    if i >= 0 {
        ls.update(i, f(ls[i]))
    } else {
        ls
    }
}

impl LessonStore {
    /// An empty store.
    pub fn new() -> (r: LessonStore)
        ensures
            r.lessons@.len() == 0,
            r.patterns@.len() == 0,
            r.version == 1,
    {
        LessonStore { lessons: Vec::new(), patterns: Vec::new(), version: 1 }
    }

    /// Counts a successful use of the lesson `lesson_id`.
    pub fn record_success(&mut self, lesson_id: &str)
        requires
            lesson_index(old(self).lessons@, lesson_id@) >= 0 ==> {
                let l = old(self).lessons@[lesson_index(old(self).lessons@, lesson_id@)];
                l.applied_count < u32::MAX && l.success_count < u32::MAX
            },
        ensures
            final(self).lessons@ == update_lesson(old(self).lessons@, lesson_id@, |l: Lesson| succeeded(l)),
            final(self).patterns@ == old(self).patterns@,
            final(self).version == old(self).version,
    {
        match find_lesson(&self.lessons, lesson_id) {
            Some(i) => {
                let mut l = self.lessons[i].copy();
                l.applied_count = l.applied_count + 1;
                l.success_count = l.success_count + 1;
                self.lessons.set(i, l);
            },
            None => {},
        }
    }

    /// Counts a failed use of the lesson `lesson_id`; the lesson is no
    /// longer auto-solved.
    pub fn record_failure(&mut self, lesson_id: &str)
        requires
            lesson_index(old(self).lessons@, lesson_id@) >= 0 ==> old(self).lessons@[lesson_index(
                old(self).lessons@,
                lesson_id@,
            )].applied_count < u32::MAX,
        ensures
            final(self).lessons@ == update_lesson(old(self).lessons@, lesson_id@, |l: Lesson| failed(l)),
            final(self).patterns@ == old(self).patterns@,
            final(self).version == old(self).version,
    {
        match find_lesson(&self.lessons, lesson_id) {
            Some(i) => {
                let mut l = self.lessons[i].copy();
                l.applied_count = l.applied_count + 1;
                l.auto_solved = false;
                self.lessons.set(i, l);
            },
            None => {},
        }
    }
}


/// The text that a new lesson is matched with: its trigger and observation,
/// lower-cased.
pub open spec fn lesson_norm(trigger: Seq<char>, observation: Seq<char>) -> Seq<char> {
    lowercase(trigger + " "@ + observation)
}

/// Whether a pattern occurs (case-insensitively) in the lower-cased `norm`.
pub open spec fn pattern_hit(norm: Seq<char>, p: ErrorPattern) -> bool {
    contains(norm, lowercase(p.pattern@))
}

/// A pattern seen once more, at `ts`.
pub open spec fn bumped(p: ErrorPattern, ts: String) -> ErrorPattern {
    ErrorPattern { frequency: (p.frequency + 1) as u32, last_seen: ts, ..p }
}

/// The patterns after a text was seen at `ts`: each pattern in it is
/// counted once more.
pub open spec fn patterns_seen(ps: Seq<ErrorPattern>, norm: Seq<char>, ts: String) -> Seq<ErrorPattern> {
    Seq::new(ps.len(), |j: int| if pattern_hit(norm, ps[j]) { bumped(ps[j], ts) } else { ps[j] })
}

/// Whether one of the first `upto` patterns, seen in `norm` and reaching
/// three occurrences with it, points at lesson `i` (the first lesson with
/// its lesson id).
pub open spec fn marked_by(ls: Seq<Lesson>, ps: Seq<ErrorPattern>, norm: Seq<char>, i: int, upto: int) -> bool {
    exists|j: int|
        #![trigger ps[j]]
        0 <= j < upto && pattern_hit(norm, ps[j]) && ps[j].frequency + 1 >= 3 && lesson_index(
            ls,
            ps[j].lesson_id@,
        ) == i
}

/// The lessons after a text was seen: a lesson that a recurring pattern
/// points at becomes auto-solved.
pub open spec fn lessons_marked(ls: Seq<Lesson>, ps: Seq<ErrorPattern>, norm: Seq<char>, upto: int) -> Seq<Lesson> {
    Seq::new(
        ls.len(),
        |i: int|
            if marked_by(ls, ps, norm, i, upto) {
                Lesson { auto_solved: true, ..ls[i] }
            } else {
                ls[i]
            },
    )
}

/// The store keeps at most this many lessons, the newest.
pub const MAX_LESSONS: usize = 500;

/// The store keeps at most this many patterns, the most frequent.
pub const MAX_PATTERNS: usize = 100;

/// The newest `MAX_LESSONS` lessons, newest first, once there are more.
pub open spec fn keep_newest(ls: Seq<Lesson>) -> Seq<Lesson> {
    if ls.len() > MAX_LESSONS {
        ranked_sort(ls).take(MAX_LESSONS as int)
    } else {
        ls
    }
}

/// The `MAX_PATTERNS` most frequent patterns, most frequent first, once
/// there are more.
pub open spec fn keep_frequent(ps: Seq<ErrorPattern>) -> Seq<ErrorPattern> {
    if ps.len() > MAX_PATTERNS {
        ranked_sort(ps).take(MAX_PATTERNS as int)
    } else {
        ps
    }
}

/// The lessons after `l` was recorded.
pub open spec fn lessons_after_record(ls: Seq<Lesson>, ps: Seq<ErrorPattern>, l: Lesson) -> Seq<Lesson> {
    keep_newest(lessons_marked(ls, ps, lesson_norm(l.trigger@, l.observation@), ps.len() as int).push(l))
}

/// The patterns after `l` was recorded.
pub open spec fn patterns_after_record(ps: Seq<ErrorPattern>, l: Lesson) -> Seq<ErrorPattern> {
    keep_frequent(patterns_seen(ps, lesson_norm(l.trigger@, l.observation@), l.timestamp))
}

/// Whether recording a text can count every pattern in it once more.
pub open spec fn counts_have_room(ps: Seq<ErrorPattern>, norm: Seq<char>) -> bool {
    forall|j: int| 0 <= j < ps.len() && pattern_hit(norm, #[trigger] ps[j]) ==> ps[j].frequency < u32::MAX
}

/// `a`, a space and `b`.
pub fn join_space(a: &str, b: &str) -> (r: String)
    ensures
        r@ == a@ + " "@ + b@,
{
    let mut v = chars_of(a);
    v.push(' ');
    let w = chars_of(b);
    let mut i: usize = 0;
    let ghost v0 = v@;
    while i < w.len()
        invariant
            i <= w@.len(),
            v@ =~= v0 + w@.take(i as int),
        decreases w@.len() - i,
    {
        v.push(w[i]);
        i = i + 1;
    }
    proof {
        reveal_strlit(" ");
        assert(w@.take(w@.len() as int) =~= w@);
        assert(v0 =~= a@ + " "@);
    }
    string_of(&v)
}

impl LessonStore {
    /// Whether recording a lesson with this trigger and observation can
    /// count every pattern that it repeats.
    pub fn has_room_for(&self, trigger: &str, observation: &str) -> (r: bool)
        ensures
            r == counts_have_room(self.patterns@, lesson_norm(trigger@, observation@)),
    {
        let norm = chars_of(&to_lower(&join_space(trigger, observation)));
        let mut j: usize = 0;
        while j < self.patterns.len()
            invariant
                j <= self.patterns@.len(),
                norm@ == lesson_norm(trigger@, observation@),
                forall|t: int| 0 <= t < j && pattern_hit(norm@, #[trigger] self.patterns@[t]) ==> self.patterns@[t].frequency < u32::MAX,
            decreases self.patterns@.len() - j,
        {
            let p = chars_of(&to_lower(self.patterns[j].pattern.as_str()));
            if contains_exec(&norm, &p) && self.patterns[j].frequency == u32::MAX {
                return false;
            }
            j = j + 1;
        }
        true
    }

    /// Records a new lesson: every known pattern that its trigger and
    /// observation repeat is counted once more and stamped with its time,
    /// and a pattern that reaches three occurrences makes its lesson
    /// auto-solved; then the store is pruned to the newest lessons and the
    /// most frequent patterns.
    pub fn record_lesson(&mut self, lesson: Lesson)
        requires
            counts_have_room(old(self).patterns@, lesson_norm(lesson.trigger@, lesson.observation@)),
        ensures
            final(self).lessons@ == lessons_after_record(old(self).lessons@, old(self).patterns@, lesson),
            final(self).patterns@ == patterns_after_record(old(self).patterns@, lesson),
            final(self).version == old(self).version,
    {
        let ghost ls0 = self.lessons@;
        let ghost ps0 = self.patterns@;
        let ghost ver = self.version;
        let norm = chars_of(&to_lower(&join_space(lesson.trigger.as_str(), lesson.observation.as_str())));
        let ghost nv = norm@;
        let n = self.patterns.len();
        let mut j: usize = 0;
        assert(self.lessons@ =~= lessons_marked(ls0, ps0, nv, 0));
        while j < n
            invariant
                n == ps0.len(),
                j <= n,
                self.version == ver,
                nv == norm@,
                nv == lesson_norm(lesson.trigger@, lesson.observation@),
                counts_have_room(ps0, nv),
                self.patterns@.len() == n,
                forall|t: int| 0 <= t < j ==> #[trigger] self.patterns@[t] == patterns_seen(ps0, nv, lesson.timestamp)[t],
                forall|t: int| j <= t < n ==> #[trigger] self.patterns@[t] == ps0[t],
                self.lessons@ == lessons_marked(ls0, ps0, nv, j as int),
                self.lessons@.len() == ls0.len(),
                forall|i: int| 0 <= i < ls0.len() ==> #[trigger] self.lessons@[i].id@ == ls0[i].id@,
            decreases n - j,
        {
            let p = chars_of(&to_lower(self.patterns[j].pattern.as_str()));
            let ghost cur = self.lessons@;
            if contains_exec(&norm, &p) {
                assert(pattern_hit(nv, ps0[j as int]));
                let mut np = self.patterns[j].copy();
                np.frequency = np.frequency + 1;
                np.last_seen = lesson.timestamp.clone();
                let reached = np.frequency >= 3;
                let lid = np.lesson_id.clone();
                self.patterns.set(j, np);
                if reached {
                    proof {
                        lemma_lesson_index_same_ids(cur, ls0, lid@);
                    }
                    match find_lesson(&self.lessons, lid.as_str()) {
                        Some(i) => {
                            let mut l = self.lessons[i].copy();
                            l.auto_solved = true;
                            self.lessons.set(i, l);
                            proof {
                                assert forall|k: int| 0 <= k < ls0.len() implies #[trigger] self.lessons@[k]
                                    == lessons_marked(ls0, ps0, nv, j + 1)[k] by {
                                    if k == i {
                                        assert(marked_by(ls0, ps0, nv, k, j + 1));
                                    } else {
                                        if marked_by(ls0, ps0, nv, k, j + 1) {
                                            let w = choose|w: int|
                                                #![trigger ps0[w]]
                                                0 <= w < j + 1 && pattern_hit(nv, ps0[w]) && ps0[w].frequency + 1
                                                    >= 3 && lesson_index(ls0, ps0[w].lesson_id@) == k;
                                            assert(w != j);
                                            assert(marked_by(ls0, ps0, nv, k, j as int));
                                        }
                                    }
                                }
                                assert(self.lessons@ =~= lessons_marked(ls0, ps0, nv, j + 1));
                            }
                        },
                        None => {
                            proof {
                                assert forall|k: int| 0 <= k < ls0.len() implies #[trigger] self.lessons@[k]
                                    == lessons_marked(ls0, ps0, nv, j + 1)[k] by {
                                    if marked_by(ls0, ps0, nv, k, j + 1) {
                                        let w = choose|w: int|
                                            #![trigger ps0[w]]
                                            0 <= w < j + 1 && pattern_hit(nv, ps0[w]) && ps0[w].frequency + 1
                                                >= 3 && lesson_index(ls0, ps0[w].lesson_id@) == k;
                                        assert(w != j);
                                        assert(marked_by(ls0, ps0, nv, k, j as int));
                                    }
                                }
                                assert(self.lessons@ =~= lessons_marked(ls0, ps0, nv, j + 1));
                            }
                        },
                    }
                } else {
                    proof {
                        assert forall|k: int| 0 <= k < ls0.len() implies #[trigger] self.lessons@[k]
                            == lessons_marked(ls0, ps0, nv, j + 1)[k] by {
                            if marked_by(ls0, ps0, nv, k, j + 1) {
                                let w = choose|w: int|
                                    #![trigger ps0[w]]
                                    0 <= w < j + 1 && pattern_hit(nv, ps0[w]) && ps0[w].frequency + 1 >= 3
                                        && lesson_index(ls0, ps0[w].lesson_id@) == k;
                                assert(w != j);
                                assert(marked_by(ls0, ps0, nv, k, j as int));
                            }
                        }
                        assert(self.lessons@ =~= lessons_marked(ls0, ps0, nv, j + 1));
                    }
                }
            } else {
                proof {
                    assert(!pattern_hit(nv, ps0[j as int]));
                    assert forall|k: int| 0 <= k < ls0.len() implies #[trigger] self.lessons@[k]
                        == lessons_marked(ls0, ps0, nv, j + 1)[k] by {
                        if marked_by(ls0, ps0, nv, k, j + 1) {
                            let w = choose|w: int|
                                #![trigger ps0[w]]
                                0 <= w < j + 1 && pattern_hit(nv, ps0[w]) && ps0[w].frequency + 1 >= 3
                                    && lesson_index(ls0, ps0[w].lesson_id@) == k;
                            assert(w != j);
                            assert(marked_by(ls0, ps0, nv, k, j as int));
                        }
                    }
                    assert(self.lessons@ =~= lessons_marked(ls0, ps0, nv, j + 1));
                }
            }
            j = j + 1;
        }
        assert(self.patterns@ =~= patterns_seen(ps0, nv, lesson.timestamp));
        let ghost lv = lesson;
        let ghost marked = self.lessons@.push(lesson);
        assert(marked == lessons_marked(ls0, ps0, lesson_norm(lv.trigger@, lv.observation@), ps0.len() as int).push(lv));
        self.lessons.push(lesson);
        assert(self.lessons@ == marked);
        if self.lessons.len() > MAX_LESSONS {
            let mut ls = Vec::new();
            std::mem::swap(&mut ls, &mut self.lessons);
            let mut sorted = sort_ranked(ls);
            proof {
                crate::ranking::law_sort_permutes(marked);
            }
            assert(ls@ == marked);
            assert(sorted@ == ranked_sort(marked));
            sorted.truncate(MAX_LESSONS);
            assert(sorted@ =~= ranked_sort(marked).take(MAX_LESSONS as int));
            self.lessons = sorted;
        }
        assert(self.lessons@ == keep_newest(marked));
        if self.patterns.len() > MAX_PATTERNS {
            let mut ps = Vec::new();
            std::mem::swap(&mut ps, &mut self.patterns);
            let ghost seen = ps@;
            let mut sorted = sort_ranked(ps);
            proof {
                crate::ranking::law_sort_permutes(seen);
            }
            sorted.truncate(MAX_PATTERNS);
            assert(sorted@ =~= ranked_sort(seen).take(MAX_PATTERNS as int));
            self.patterns = sorted;
        }
    }
}


/// The category, plain-language observation and correction of an error
/// text, by the words its lower-cased form holds.
pub open spec fn error_class(text: Seq<char>) -> (Seq<char>, Seq<char>, Seq<char>) {
    let l = lowercase(text);
    if contains(l, "port"@) && (contains(l, "in use"@) || contains(l, "eaddrinuse"@)) {
        (
            "gateway"@,
            "Gateway port is already occupied by another process."@,
            "Auto-detect a free port and persist it in config."@,
        )
    } else if contains(l, "permission"@) || contains(l, "access denied"@) {
        (
            "system"@,
            "Insufficient permissions to perform the operation."@,
            "Run the shell as Administrator or check file permissions."@,
        )
    } else if contains(l, "node"@) && (contains(l, "not found"@) || contains(l, "command not found"@)) {
        (
            "install"@,
            "Node.js runtime is missing or not in PATH."@,
            "Install the managed Node.js runtime via the setup wizard."@,
        )
    } else if contains(l, "openclaw"@) && contains(l, "not found"@) {
        (
            "install"@,
            "OpenClaw CLI is not installed."@,
            "Install OpenClaw into the managed runtime directory."@,
        )
    } else if contains(l, "config"@) && (contains(l, "malformed"@) || contains(l, "invalid"@)) {
        (
            "config"@,
            "Configuration file is corrupted or has invalid JSON."@,
            "Restore from the shell's automatic backup or re-run setup."@,
        )
    } else if contains(l, "api key"@) || contains(l, "unauthorized"@) || contains(l, "auth"@) {
        (
            "api"@,
            "API key is missing, invalid, or expired."@,
            "Verify the key format and re-enter it in API Keys."@,
        )
    } else if contains(l, "timeout"@) || contains(l, "timed out"@) {
        ("network"@, "Network request timed out."@, "Check internet connection or increase timeout in settings."@)
    } else {
        ("general"@, text, "Review the error details and try again."@)
    }
}

/// Classifies an error text into a category, an observation and a
/// correction.
pub fn classify_error(text: &str) -> (r: (String, String, String))
    ensures
        (r.0@, r.1@, r.2@) == error_class(text@),
{
    let lower = to_lower(text);
    let l = lower.as_str();
    if str_contains(l, "port") && (str_contains(l, "in use") || str_contains(l, "eaddrinuse")) {
        return (
            "gateway".to_owned(),
            "Gateway port is already occupied by another process.".to_owned(),
            "Auto-detect a free port and persist it in config.".to_owned(),
        );
    }
    if str_contains(l, "permission") || str_contains(l, "access denied") {
        return (
            "system".to_owned(),
            "Insufficient permissions to perform the operation.".to_owned(),
            "Run the shell as Administrator or check file permissions.".to_owned(),
        );
    }
    if str_contains(l, "node") && (str_contains(l, "not found") || str_contains(l, "command not found")) {
        return (
            "install".to_owned(),
            "Node.js runtime is missing or not in PATH.".to_owned(),
            "Install the managed Node.js runtime via the setup wizard.".to_owned(),
        );
    }
    if str_contains(l, "openclaw") && str_contains(l, "not found") {
        return (
            "install".to_owned(),
            "OpenClaw CLI is not installed.".to_owned(),
            "Install OpenClaw into the managed runtime directory.".to_owned(),
        );
    }
    if str_contains(l, "config") && (str_contains(l, "malformed") || str_contains(l, "invalid")) {
        return (
            "config".to_owned(),
            "Configuration file is corrupted or has invalid JSON.".to_owned(),
            "Restore from the shell's automatic backup or re-run setup.".to_owned(),
        );
    }
    if str_contains(l, "api key") || str_contains(l, "unauthorized") || str_contains(l, "auth") {
        return (
            "api".to_owned(),
            "API key is missing, invalid, or expired.".to_owned(),
            "Verify the key format and re-enter it in API Keys.".to_owned(),
        );
    }
    if str_contains(l, "timeout") || str_contains(l, "timed out") {
        return (
            "network".to_owned(),
            "Network request timed out.".to_owned(),
            "Check internet connection or increase timeout in settings.".to_owned(),
        );
    }
    ("general".to_owned(), text.to_owned(), "Review the error details and try again.".to_owned())
}


/// A fresh random lesson id: `uuid::Uuid::new_v4()` in its hyphenated text
/// form. Nothing is promised of the value: it is random.
#[verifier::external_body]
fn new_lesson_id() -> String {
    uuid::Uuid::new_v4().to_string()
}

/// The current local time in RFC 3339 form: `chrono::Local::now()` written
/// with `to_rfc3339`. Nothing is promised of the value: it is the clock's.
#[verifier::external_body]
pub fn now_rfc3339() -> String {
    chrono::Local::now().to_rfc3339()
}

/// What a newly captured lesson holds besides its id and timestamp.
pub open spec fn fresh_lesson(
    l: Lesson,
    category: Seq<char>,
    trigger: Seq<char>,
    observation: Seq<char>,
    correction: Seq<char>,
    source: Seq<char>,
) -> bool {
    &&& l.category@ == category
    &&& l.trigger@ == trigger
    &&& l.observation@ == observation
    &&& l.correction@ == correction
    &&& l.source@ == source
    &&& l.applied_count == 0
    &&& l.success_count == 0
    &&& !l.auto_solved
}

/// Captures a lesson with a new id and the current time and records it in
/// the store (see `record_lesson`).
pub fn capture_lesson(
    store: &mut LessonStore,
    category: &str,
    trigger: &str,
    observation: &str,
    correction: &str,
    source: &str,
) -> (r: Lesson)
    requires
        counts_have_room(old(store).patterns@, lesson_norm(trigger@, observation@)),
    ensures
        fresh_lesson(r, category@, trigger@, observation@, correction@, source@),
        final(store).lessons@ == lessons_after_record(old(store).lessons@, old(store).patterns@, r),
        final(store).patterns@ == patterns_after_record(old(store).patterns@, r),
        final(store).version == old(store).version,
{
    let lesson = Lesson {
        id: new_lesson_id(),
        timestamp: now_rfc3339(),
        category: category.to_owned(),
        trigger: trigger.to_owned(),
        observation: observation.to_owned(),
        correction: correction.to_owned(),
        source: source.to_owned(),
        applied_count: 0,
        success_count: 0,
        auto_solved: false,
    };
    store.record_lesson(lesson.copy());
    lesson
}

/// Captures a lesson from an error text: its class gives the category,
/// observation and correction, and the text itself is the trigger.
pub fn record_error(store: &mut LessonStore, text: &str, source: &str) -> (r: Lesson)
    requires
        counts_have_room(old(store).patterns@, lesson_norm(text@, error_class(text@).1)),
    ensures
        fresh_lesson(r, error_class(text@).0, text@, error_class(text@).1, error_class(text@).2, source@),
        final(store).lessons@ == lessons_after_record(old(store).lessons@, old(store).patterns@, r),
        final(store).patterns@ == patterns_after_record(old(store).patterns@, r),
        final(store).version == old(store).version,
{
    let (category, observation, correction) = classify_error(text);
    capture_lesson(store, category.as_str(), text, observation.as_str(), correction.as_str(), source)
}


/// Records an error as `record_error` does where every pattern that it
/// repeats can be counted once more; otherwise (a count would overflow)
/// records nothing and answers `None`.
pub fn record_error_checked(store: &mut LessonStore, text: &str, source: &str) -> (r: Option<Lesson>)
    ensures
        counts_have_room(old(store).patterns@, lesson_norm(text@, error_class(text@).1)) ==> (r matches Some(l)
            && fresh_lesson(l, error_class(text@).0, text@, error_class(text@).1, error_class(text@).2, source@)
            && final(store).lessons@ == lessons_after_record(old(store).lessons@, old(store).patterns@, l)
            && final(store).patterns@ == patterns_after_record(old(store).patterns@, l)
            && final(store).version == old(store).version),
        !counts_have_room(old(store).patterns@, lesson_norm(text@, error_class(text@).1)) ==> (r is None
            && *final(store) == *old(store)),
{
    let (_, observation, _) = classify_error(text);
    if store.has_room_for(text, observation.as_str()) {
        Some(record_error(store, text, source))
    } else {
        None
    }
}

/// Captures a lesson as `capture_lesson` does where every pattern that it
/// repeats can be counted once more; otherwise records nothing and answers
/// `None`.
pub fn capture_lesson_checked(
    store: &mut LessonStore,
    category: &str,
    trigger: &str,
    observation: &str,
    correction: &str,
    source: &str,
) -> (r: Option<Lesson>)
    ensures
        counts_have_room(old(store).patterns@, lesson_norm(trigger@, observation@)) ==> (r matches Some(l)
            && fresh_lesson(l, category@, trigger@, observation@, correction@, source@)
            && final(store).lessons@ == lessons_after_record(old(store).lessons@, old(store).patterns@, l)
            && final(store).patterns@ == patterns_after_record(old(store).patterns@, l)
            && final(store).version == old(store).version),
        !counts_have_room(old(store).patterns@, lesson_norm(trigger@, observation@)) ==> (r is None
            && *final(store) == *old(store)),
{
    if store.has_room_for(trigger, observation) {
        Some(capture_lesson(store, category, trigger, observation, correction, source))
    } else {
        None
    }
}

/// The lessons of category `c`, in order.
pub open spec fn of_category(ls: Seq<Lesson>, c: Seq<char>) -> Seq<Lesson> {
    ls.filter(|l: Lesson| l.category@ == c)
}

/// The lesson list that is shown: the lessons of the category (all where
/// none is given), newest first, at most `limit` of them.
pub open spec fn lessons_shown(ls: Seq<Lesson>, category: Option<Seq<char>>, limit: nat) -> Seq<Lesson> {
    let picked = match category {
        Some(c) => of_category(ls, c),
        None => ls,
    };
    let sorted = ranked_sort(picked);
    if limit < sorted.len() {
        sorted.take(limit as int)
    } else {
        sorted
    }
}

/// The patterns seen at least twice.
pub open spec fn recurring(ps: Seq<ErrorPattern>) -> Seq<ErrorPattern> {
    ps.filter(|p: ErrorPattern| p.frequency >= 2)
}

fn lessons_of_category(ls: &Vec<Lesson>, c: &String) -> (r: Vec<Lesson>)
    ensures
        r@ == of_category(ls@, c@),
{
    let mut out: Vec<Lesson> = Vec::new();
    let mut i: usize = 0;
    assert(ls@.take(0) =~= Seq::<Lesson>::empty());
    proof {
        reveal(Seq::filter);
    }
    while i < ls.len()
        invariant
            i <= ls@.len(),
            out@ == of_category(ls@.take(i as int), c@),
        decreases ls@.len() - i,
    {
        proof {
            reveal(Seq::filter);
            assert(ls@.take(i + 1).drop_last() =~= ls@.take(i as int));
            assert(ls@.take(i + 1).last() == ls@[i as int]);
        }
        if ls[i].category == *c {
            out.push(ls[i].copy());
        }
        i = i + 1;
    }
    assert(ls@.take(ls@.len() as int) =~= ls@);
    out
}

fn copy_lessons(ls: &Vec<Lesson>) -> (r: Vec<Lesson>)
    ensures
        r@ == ls@,
{
    let mut out: Vec<Lesson> = Vec::new();
    let mut i: usize = 0;
    while i < ls.len()
        invariant
            i <= ls@.len(),
            out@ =~= ls@.take(i as int),
        decreases ls@.len() - i,
    {
        out.push(ls[i].copy());
        i = i + 1;
    }
    out
}

impl LessonStore {
    /// The lessons of a category (all where none is given), newest first,
    /// at most `limit` of them.
    pub fn get_lessons(&self, category: Option<String>, limit: usize) -> (r: Vec<Lesson>)
        ensures
            r@ == lessons_shown(
                self.lessons@,
                match category {
                    Some(c) => Some(c@),
                    None => None,
                },
                limit as nat,
            ),
    {
        let picked = match &category {
            Some(c) => lessons_of_category(&self.lessons, c),
            None => copy_lessons(&self.lessons),
        };
        let ghost pv = picked@;
        let mut sorted = sort_ranked(picked);
        proof {
            crate::ranking::law_sort_permutes(pv);
        }
        sorted.truncate(limit);
        assert(limit < ranked_sort(pv).len() ==> sorted@ =~= ranked_sort(pv).take(limit as int));
        sorted
    }

    /// The patterns seen at least twice, most frequent first.
    pub fn get_recurring_issues(&self) -> (r: Vec<ErrorPattern>)
        ensures
            r@ == ranked_sort(recurring(self.patterns@)),
    {
        let ps = &self.patterns;
        let mut out: Vec<ErrorPattern> = Vec::new();
        let mut i: usize = 0;
        assert(ps@.take(0) =~= Seq::<ErrorPattern>::empty());
        proof {
            reveal(Seq::filter);
        }
        while i < ps.len()
            invariant
                i <= ps@.len(),
                out@ == recurring(ps@.take(i as int)),
            decreases ps@.len() - i,
        {
            proof {
                reveal(Seq::filter);
                assert(ps@.take(i + 1).drop_last() =~= ps@.take(i as int));
                assert(ps@.take(i + 1).last() == ps@[i as int]);
            }
            if ps[i].frequency >= 2 {
                out.push(ps[i].copy());
            }
            i = i + 1;
        }
        assert(ps@.take(ps@.len() as int) =~= ps@);
        sort_ranked(out)
    }
}


/// The matches that the first `n` patterns give for the lower-cased text:
/// the lesson of each pattern found in it, scored by the pattern's
/// frequency.
pub open spec fn pattern_matches(ls: Seq<Lesson>, ps: Seq<ErrorPattern>, lower: Seq<char>, n: int) -> Seq<(Lesson, u32)>
    decreases n,
{
    if n <= 0 || n > ps.len() {
        Seq::empty()
    } else {
        let acc = pattern_matches(ls, ps, lower, n - 1);
        let p = ps[n - 1];
        let i = lesson_index(ls, p.lesson_id@);
        if contains(lower, lowercase(p.pattern@)) && i >= 0 {
            acc.push((ls[i], p.frequency))
        } else {
            acc
        }
    }
}

/// Whether a match for lesson `id` is already listed.
pub open spec fn has_match_for(ms: Seq<(Lesson, u32)>, id: Seq<char>) -> bool {
    exists|k: int| 0 <= k < ms.len() && (#[trigger] ms[k]).0.id@ == id
}

/// `start` followed by the matches of the first `n` lessons whose trigger or
/// observation occurs in the lower-cased text, scored 1, each lesson once.
pub open spec fn lesson_matches(ls: Seq<Lesson>, lower: Seq<char>, start: Seq<(Lesson, u32)>, n: int) -> Seq<(Lesson, u32)>
    decreases n,
{
    if n <= 0 || n > ls.len() {
        start
    } else {
        let acc = lesson_matches(ls, lower, start, n - 1);
        let l = ls[n - 1];
        if (contains(lower, lowercase(l.trigger@)) || contains(lower, lowercase(l.observation@))) && !has_match_for(acc, l.id@) {
            acc.push((l, 1u32))
        } else {
            acc
        }
    }
}

/// The lessons that an error text recalls, best score first.
pub open spec fn matches_for(ls: Seq<Lesson>, ps: Seq<ErrorPattern>, text: Seq<char>) -> Seq<(Lesson, u32)> {
    let lower = lowercase(text);
    ranked_sort(lesson_matches(ls, lower, pattern_matches(ls, ps, lower, ps.len() as int), ls.len() as int))
}

fn listed(ms: &Vec<(Lesson, u32)>, id: &String) -> (r: bool)
    ensures
        r == has_match_for(ms@, id@),
{
    let mut k: usize = 0;
    while k < ms.len()
        invariant
            k <= ms@.len(),
            forall|t: int| 0 <= t < k ==> (#[trigger] ms@[t]).0.id@ != id@,
        decreases ms@.len() - k,
    {
        if ms[k].0.id == *id {
            return true;
        }
        k = k + 1;
    }
    false
}

impl LessonStore {
    /// The lessons that an error text recalls: first the lesson of every
    /// pattern found in the text, scored by the pattern's frequency; then
    /// every other lesson whose trigger or observation occurs in the text,
    /// scored 1; best score first.
    pub fn match_pattern(&self, text: &str) -> (r: Vec<(Lesson, u32)>)
        ensures
            r@ == matches_for(self.lessons@, self.patterns@, text@),
    {
        let lower = chars_of(&to_lower(text));
        let ghost lv = lower@;
        let ls = &self.lessons;
        let ps = &self.patterns;
        let mut out: Vec<(Lesson, u32)> = Vec::new();
        let mut j: usize = 0;
        while j < ps.len()
            invariant
                j <= ps@.len(),
                lv == lower@,
                out@ == pattern_matches(ls@, ps@, lv, j as int),
            decreases ps@.len() - j,
        {
            let pat = chars_of(&to_lower(ps[j].pattern.as_str()));
            if contains_exec(&lower, &pat) {
                match find_lesson(ls, ps[j].lesson_id.as_str()) {
                    Some(i) => {
                        out.push((ls[i].copy(), ps[j].frequency));
                    },
                    None => {},
                }
            }
            j = j + 1;
        }
        let ghost start = out@;
        let mut i: usize = 0;
        while i < ls.len()
            invariant
                i <= ls@.len(),
                lv == lower@,
                out@ == lesson_matches(ls@, lv, start, i as int),
            decreases ls@.len() - i,
        {
            let t = chars_of(&to_lower(ls[i].trigger.as_str()));
            let o = chars_of(&to_lower(ls[i].observation.as_str()));
            if contains_exec(&lower, &t) || contains_exec(&lower, &o) {
                if !listed(&out, &ls[i].id) {
                    out.push((ls[i].copy(), 1));
                }
            }
            i = i + 1;
        }
        sort_ranked(out)
    }
}


/// The index of the first pattern found in the lower-cased `norm`, or -1.
pub open spec fn hit_index(ps: Seq<ErrorPattern>, norm: Seq<char>) -> int
    decreases ps.len(),
{
    if ps.len() == 0 {
        -1
    } else if pattern_hit(norm, ps[0]) {
        0
    } else {
        let r = hit_index(ps.drop_first(), norm);
        if r < 0 {
            -1
        } else {
            r + 1
        }
    }
}

pub proof fn lemma_hit_index(ps: Seq<ErrorPattern>, norm: Seq<char>)
    ensures
        -1 <= hit_index(ps, norm) < ps.len(),
        hit_index(ps, norm) >= 0 ==> pattern_hit(norm, ps[hit_index(ps, norm)]),
        forall|j: int| 0 <= j < ps.len() && (hit_index(ps, norm) < 0 || j < hit_index(ps, norm)) ==> !pattern_hit(norm, #[trigger] ps[j]),
    decreases ps.len(),
{
    if ps.len() > 0 && !pattern_hit(norm, ps[0]) {
        lemma_hit_index(ps.drop_first(), norm);
        assert forall|j: int| 0 <= j < ps.len() && (hit_index(ps, norm) < 0 || j < hit_index(ps, norm)) implies !pattern_hit(norm, #[trigger] ps[j]) by {
            if j > 0 {
                assert(ps[j] == ps.drop_first()[j - 1]);
            }
        }
    }
}

/// What observing an action's outcome at `ts` does to the patterns: the
/// first pattern found in the action and outcome (lower-cased) is seen once
/// more; failing that, an outcome that does not start with `success`
/// starts a pattern for the action, pointing at the newest lesson.
pub open spec fn outcome_applied(
    ps: Seq<ErrorPattern>,
    after: Seq<ErrorPattern>,
    ls: Seq<Lesson>,
    action: Seq<char>,
    outcome: Seq<char>,
    ts: String,
) -> bool {
    let norm = lowercase(action + " "@ + outcome);
    let i = hit_index(ps, norm);
    if i >= 0 {
        after == ps.update(i, bumped(ps[i], ts))
    } else if !starts_with(outcome, "success"@) {
        after.len() == ps.len() + 1 && after.drop_last() == ps && action_pattern(after.last(), action, ts, ls)
    } else {
        after == ps
    }
}

/// Whether `p` is the pattern that a failing `action` starts at `ts`.
pub open spec fn action_pattern(p: ErrorPattern, action: Seq<char>, ts: String, ls: Seq<Lesson>) -> bool {
    &&& p.pattern@ == action
    &&& p.category@ == "behavior"@
    &&& p.frequency == 1
    &&& p.last_seen == ts
    &&& p.suggested_fix@ == "Review the action context."@
    &&& p.lesson_id@ == if ls.len() > 0 {
        ls.last().id@
    } else {
        Seq::<char>::empty()
    }
}

/// Whether observing the outcome can count the pattern it repeats.
pub open spec fn outcome_has_room(ps: Seq<ErrorPattern>, action: Seq<char>, outcome: Seq<char>) -> bool {
    let i = hit_index(ps, lowercase(action + " "@ + outcome));
    i >= 0 ==> ps[i].frequency < u32::MAX
}

impl LessonStore {
    /// Updates the patterns with an action's outcome observed at `now`
    /// (see `patterns_after_outcome`).
    pub fn apply_outcome(&mut self, action: &str, outcome: &str, now: String)
        requires
            outcome_has_room(old(self).patterns@, action@, outcome@),
        ensures
            final(self).lessons@ == old(self).lessons@,
            final(self).version == old(self).version,
            outcome_applied(old(self).patterns@, final(self).patterns@, old(self).lessons@, action@, outcome@, now),
    {
        let norm = chars_of(&to_lower(&join_space(action, outcome)));
        let ghost nv = norm@;
        let ghost ps0 = self.patterns@;
        let ghost ls0 = self.lessons@;
        let ghost ver = self.version;
        proof {
            lemma_hit_index(ps0, nv);
        }
        let mut j: usize = 0;
        #[verifier::loop_isolation(false)]
        while j < self.patterns.len()
            invariant
                j <= self.patterns@.len(),
                self.patterns@ == ps0,
                self.lessons@ == ls0,
                self.version == ver,
                nv == norm@,
                nv == lowercase(action@ + " "@ + outcome@),
                outcome_has_room(ps0, action@, outcome@),
                forall|t: int| 0 <= t < j ==> !pattern_hit(nv, #[trigger] ps0[t]),
                -1 <= hit_index(ps0, nv) < ps0.len(),
                hit_index(ps0, nv) >= 0 ==> pattern_hit(nv, ps0[hit_index(ps0, nv)]),
                forall|t: int| 0 <= t < ps0.len() && (hit_index(ps0, nv) < 0 || t < hit_index(ps0, nv)) ==> !pattern_hit(nv, #[trigger] ps0[t]),
            decreases self.patterns@.len() - j,
        {
            let p = chars_of(&to_lower(self.patterns[j].pattern.as_str()));
            if contains_exec(&norm, &p) {
                assert(pattern_hit(nv, ps0[j as int]));
                assert(hit_index(ps0, nv) == j);
                let mut np = self.patterns[j].copy();
                np.frequency = np.frequency + 1;
                np.last_seen = now;
                self.patterns.set(j, np);
                return;
            }
            j = j + 1;
        }
        assert(hit_index(ps0, nv) == -1);
        if !str_starts_with(outcome, "success") {
            let lesson_id = if self.lessons.len() > 0 {
                self.lessons[self.lessons.len() - 1].id.clone()
            } else {
                String::new()
            };
            let fresh = ErrorPattern {
                pattern: action.to_owned(),
                category: "behavior".to_owned(),
                frequency: 1,
                last_seen: now,
                suggested_fix: "Review the action context.".to_owned(),
                lesson_id,
            };
            self.patterns.push(fresh);
            assert(self.patterns@.drop_last() =~= ps0);
        }
    }
}


impl LessonStore {
    /// Whether observing this outcome can count the pattern that it repeats.
    pub fn has_room_for_outcome(&self, action: &str, outcome: &str) -> (r: bool)
        ensures
            r == outcome_has_room(self.patterns@, action@, outcome@),
    {
        let norm = chars_of(&to_lower(&join_space(action, outcome)));
        let ghost nv = norm@;
        proof {
            lemma_hit_index(self.patterns@, nv);
        }
        let mut j: usize = 0;
        while j < self.patterns.len()
            invariant
                j <= self.patterns@.len(),
                nv == norm@,
                nv == lowercase(action@ + " "@ + outcome@),
                forall|t: int| 0 <= t < j ==> !pattern_hit(nv, #[trigger] self.patterns@[t]),
                -1 <= hit_index(self.patterns@, nv) < self.patterns@.len(),
                hit_index(self.patterns@, nv) >= 0 ==> pattern_hit(nv, self.patterns@[hit_index(self.patterns@, nv)]),
                forall|t: int| 0 <= t < self.patterns@.len() && (hit_index(self.patterns@, nv) < 0 || t < hit_index(self.patterns@, nv)) ==> !pattern_hit(nv, #[trigger] self.patterns@[t]),
            decreases self.patterns@.len() - j,
        {
            let p = chars_of(&to_lower(self.patterns[j].pattern.as_str()));
            if contains_exec(&norm, &p) {
                assert(pattern_hit(nv, self.patterns@[j as int]));
                assert(hit_index(self.patterns@, nv) == j);
                return self.patterns[j].frequency < u32::MAX;
            }
            j = j + 1;
        }
        assert(hit_index(self.patterns@, nv) == -1);
        true
    }

    /// Observes an outcome as `observe_outcome` does where the pattern that
    /// it repeats can be counted once more; otherwise changes nothing and
    /// answers `false`.
    pub fn observe_outcome_checked(&mut self, action: &str, outcome: &str) -> (r: bool)
        ensures
            r == outcome_has_room(old(self).patterns@, action@, outcome@),
            r ==> final(self).lessons@ == old(self).lessons@ && final(self).version == old(self).version
                && exists|ts: String|
                outcome_applied(old(self).patterns@, final(self).patterns@, old(self).lessons@, action@, outcome@, ts),
            !r ==> *final(self) == *old(self),
    {
        if self.has_room_for_outcome(action, outcome) {
            self.observe_outcome(action, outcome);
            true
        } else {
            false
        }
    }

    /// Updates the patterns with an action's outcome observed now (see
    /// `outcome_applied`).
    pub fn observe_outcome(&mut self, action: &str, outcome: &str)
        requires
            outcome_has_room(old(self).patterns@, action@, outcome@),
        ensures
            final(self).lessons@ == old(self).lessons@,
            final(self).version == old(self).version,
            exists|ts: String|
                outcome_applied(old(self).patterns@, final(self).patterns@, old(self).lessons@, action@, outcome@, ts),
    {
        let now = now_rfc3339();
        let ghost ts = now;
        self.apply_outcome(action, outcome, now);
        assert(outcome_applied(old(self).patterns@, self.patterns@, old(self).lessons@, action@, outcome@, ts));
    }
}

/// The preferences that an action teaches, as (key, value, category), in
/// the order they are recorded: the provider (the context up to its first
/// `:`) of a key that was set; an override of family mode where the safety
/// settings turned it off; the port of a gateway that started.
pub open spec fn preferences_learnt(action: Seq<char>, context: Seq<char>, outcome: Seq<char>) -> Seq<(Seq<char>, Seq<char>, Seq<char>)> {
    let a = if action == "set_api_key"@ {
        seq![("preferred_provider"@, split(context, ":"@)[0], "behavior"@)]
    } else {
        Seq::empty()
    };
    let b = if action == "set_safety"@ && contains(context, "family_mode=false"@) {
        seq![("family_mode_override"@, "true"@, "safety"@)]
    } else {
        Seq::empty()
    };
    let c = if action == "gateway_start"@ && outcome == "success"@ && starts_with(context, "port="@) {
        seq![("preferred_port"@, context.skip(5), "gateway"@)]
    } else {
        Seq::empty()
    };
    a + b + c
}

/// The views of a list of preference triples.
pub open spec fn triples_view(v: Seq<(String, String, String)>) -> Seq<(Seq<char>, Seq<char>, Seq<char>)> {
    v.map_values(|t: (String, String, String)| (t.0@, t.1@, t.2@))
}

/// The preferences that an action teaches (see `preferences_learnt`).
pub fn action_preferences(action: &str, context: &str, outcome: &str) -> (r: Vec<(String, String, String)>)
    ensures
        triples_view(r@) == preferences_learnt(action@, context@, outcome@),
{
    let mut r: Vec<(String, String, String)> = Vec::new();
    let ghost g = preferences_learnt(action@, context@, outcome@);
    let ctx = chars_of(context);
    if str_eq(action, "set_api_key") {
        let colon = chars_of(":");
        proof {
            reveal_strlit(":");
        }
        let pieces = split_exec(&ctx, &colon);
        proof {
            crate::text::lemma_find_from(ctx@, colon@, 0);
        }
        assert(seqs_view(pieces@).len() > 0);
        let first = string_of(&pieces[0]);
        r.push(("preferred_provider".to_owned(), first, "behavior".to_owned()));
    }
    if str_eq(action, "set_safety") && str_contains(context, "family_mode=false") {
        r.push(("family_mode_override".to_owned(), "true".to_owned(), "safety".to_owned()));
    }
    if str_eq(action, "gateway_start") && str_eq(outcome, "success") && str_starts_with(context, "port=") {
        proof {
            reveal_strlit("port=");
        }
        let rest = sub_chars(&ctx, 5, ctx.len());
        r.push(("preferred_port".to_owned(), string_of(&rest), "gateway".to_owned()));
    }
    assert(triples_view(r@) =~= g);
    r
}

/// The error text of an outcome that reports one (`error:` and the text).
pub open spec fn outcome_error(outcome: Seq<char>) -> Option<Seq<char>> {
    if starts_with(outcome, "error:"@) {
        Some(outcome.skip(6))
    } else {
        None
    }
}

/// Captures a lesson from an action whose outcome reports an error: the
/// error text's class, with the action as the trigger.
pub fn capture_outcome_error(store: &mut LessonStore, action: &str, outcome: &str) -> (r: Option<Lesson>)
    requires
        outcome_error(outcome@) matches Some(e) ==> counts_have_room(
            old(store).patterns@,
            lesson_norm(action@, error_class(e).1),
        ),
    ensures
        match outcome_error(outcome@) {
            None => r is None && *final(store) == *old(store),
            Some(e) => r matches Some(l) && fresh_lesson(
                l,
                error_class(e).0,
                action@,
                error_class(e).1,
                error_class(e).2,
                "observe_user_action"@,
            ) && final(store).lessons@ == lessons_after_record(old(store).lessons@, old(store).patterns@, l)
                && final(store).patterns@ == patterns_after_record(old(store).patterns@, l)
                && final(store).version == old(store).version,
        },
{
    if !str_starts_with(outcome, "error:") {
        return None;
    }
    proof {
        reveal_strlit("error:");
    }
    let v = chars_of(outcome);
    let err = string_of(&sub_chars(&v, 6, v.len()));
    let (category, observation, correction) = classify_error(err.as_str());
    Some(
        capture_lesson(
            store,
            category.as_str(),
            action,
            observation.as_str(),
            correction.as_str(),
            "observe_user_action",
        ),
    )
}

/// As `capture_outcome_error`, where the error's lesson can count every
/// pattern that it repeats; otherwise nothing is recorded and the answer is
/// `Err(())`.
pub fn capture_outcome_error_checked(store: &mut LessonStore, action: &str, outcome: &str) -> (r: Result<Option<Lesson>, ()>)
    ensures
        match outcome_error(outcome@) {
            None => r == Ok::<Option<Lesson>, ()>(None) && *final(store) == *old(store),
            Some(e) => if counts_have_room(old(store).patterns@, lesson_norm(action@, error_class(e).1)) {
                r matches Ok(Some(l)) && fresh_lesson(
                    l,
                    error_class(e).0,
                    action@,
                    error_class(e).1,
                    error_class(e).2,
                    "observe_user_action"@,
                ) && final(store).lessons@ == lessons_after_record(old(store).lessons@, old(store).patterns@, l)
                    && final(store).patterns@ == patterns_after_record(old(store).patterns@, l)
                    && final(store).version == old(store).version
            } else {
                r is Err && *final(store) == *old(store)
            },
        },
{
    if !str_starts_with(outcome, "error:") {
        return Ok(capture_outcome_error(store, action, outcome));
    }
    proof {
        reveal_strlit("error:");
    }
    let v = chars_of(outcome);
    let err = string_of(&sub_chars(&v, 6, v.len()));
    let (_, observation, _) = classify_error(err.as_str());
    if store.has_room_for(action, observation.as_str()) {
        Ok(capture_outcome_error(store, action, outcome))
    } else {
        Err(())
    }
}


/// The text of a lesson in the shared learnings file. Its heading holds the
/// first 19 bytes of the timestamp (date and time to the second).
pub open spec fn lesson_entry_text(l: Lesson, cut: int) -> Seq<char> {
    "\n## ["@ + l.timestamp@.take(cut) + "] "@ + l.category@ + " (from shell)\n\n**Trigger:** "@ + l.trigger@
        + "\n\n**Observation:** "@ + l.observation@ + "\n\n**Correction:** "@ + l.correction@
        + "\n\n**Source:** "@ + l.source@ + "\n\n**Auto-solved:** "@ + (if l.auto_solved {
        "Yes"@
    } else {
        "No"@
    }) + "\n\n---\n"@
}

/// Whether the timestamp can be cut after its first 19 bytes.
pub fn entry_cut_ok(timestamp: &str) -> (r: bool)
    ensures
        r == (char_index_at_byte(timestamp@, 19) is Some),
{
    char_index_at_byte_exec(&chars_of(timestamp), 19).is_some()
}

/// The entry of a lesson in the shared learnings file.
#[verifier::rlimit(40)]
pub fn lesson_entry(l: &Lesson) -> (r: String)
    requires
        char_index_at_byte(l.timestamp@, 19) is Some,
    ensures
        r@ == lesson_entry_text(*l, char_index_at_byte(l.timestamp@, 19)->Some_0),
{
    let ts = chars_of(l.timestamp.as_str());
    let cut = match char_index_at_byte_exec(&ts, 19) {
        Some(k) => k,
        None => 0,
    };
    assert(cut as int == char_index_at_byte(l.timestamp@, 19)->Some_0);
    let head = string_of(&sub_chars(&ts, 0, cut));
    let mut r = String::new();
    r.append("\n## [");
    r.append(head.as_str());
    r.append("] ");
    r.append(l.category.as_str());
    r.append(" (from shell)\n\n**Trigger:** ");
    r.append(l.trigger.as_str());
    r.append("\n\n**Observation:** ");
    r.append(l.observation.as_str());
    r.append("\n\n**Correction:** ");
    r.append(l.correction.as_str());
    r.append("\n\n**Source:** ");
    r.append(l.source.as_str());
    r.append("\n\n**Auto-solved:** ");
    r.append(if l.auto_solved {
        "Yes"
    } else {
        "No"
    });
    r.append("\n\n---\n");
    proof {
        assert(r@ =~= lesson_entry_text(*l, cut as int));
    }
    r
}

/// The date part of a timestamp: what comes before its first `T`.
pub open spec fn timestamp_date(ts: Seq<char>) -> Seq<char> {
    split(ts, "T"@)[0]
}

/// The date part of a timestamp.
pub fn learnings_date(ts: &str) -> (r: String)
    ensures
        r@ == timestamp_date(ts@),
{
    let v = chars_of(ts);
    let t = chars_of("T");
    proof {
        reveal_strlit("T");
        crate::text::lemma_find_from(v@, t@, 0);
    }
    let pieces = split_exec(&v, &t);
    assert(seqs_view(pieces@).len() > 0);
    string_of(&pieces[0])
}

/// The name of the shared learnings file of a date.
pub fn learnings_file_name(date: &str) -> (r: String)
    ensures
        r@ == "shell-"@ + date@ + ".md"@,
{
    let mut r = String::new();
    r.append("shell-");
    r.append(date);
    r.append(".md");
    r
}

/// The first lines of a new shared learnings file.
pub fn learnings_header(date: &str) -> (r: String)
    ensures
        r@ == "# Shell Learnings \u{2014} "@ + date@ + "\n\n"@,
{
    let mut r = String::new();
    r.append("# Shell Learnings \u{2014} ");
    r.append(date);
    r.append("\n\n");
    r
}

/// The index of the first line that, trimmed, starts with `marker`, or -1.
pub open spec fn marked_line(ls: Seq<Seq<char>>, marker: Seq<char>) -> int
    decreases ls.len(),
{
    if ls.len() == 0 {
        -1
    } else if starts_with(trim(ls[0]), marker) {
        0
    } else {
        let r = marked_line(ls.drop_first(), marker);
        if r < 0 {
            -1
        } else {
            r + 1
        }
    }
}

pub proof fn lemma_marked_line(ls: Seq<Seq<char>>, marker: Seq<char>)
    ensures
        -1 <= marked_line(ls, marker) < ls.len(),
        marked_line(ls, marker) >= 0 ==> starts_with(trim(ls[marked_line(ls, marker)]), marker),
        forall|j: int| 0 <= j < ls.len() && (marked_line(ls, marker) < 0 || j < marked_line(ls, marker)) ==> !starts_with(trim(#[trigger] ls[j]), marker),
    decreases ls.len(),
{
    if ls.len() > 0 && !starts_with(trim(ls[0]), marker) {
        lemma_marked_line(ls.drop_first(), marker);
        assert forall|j: int| 0 <= j < ls.len() && (marked_line(ls, marker) < 0 || j < marked_line(ls, marker)) implies !starts_with(trim(#[trigger] ls[j]), marker) by {
            if j > 0 {
                assert(ls[j] == ls.drop_first()[j - 1]);
            }
        }
    }
}

/// The marker of a field in a learnings block: `**Field:**`.
pub open spec fn field_marker(field: Seq<char>) -> Seq<char> {
    "**"@ + field + ":**"@
}

/// Whether the value of `field` can be cut out of its line: the marker's
/// length in bytes falls between two characters of the (untrimmed) line.
pub open spec fn field_cut_ok(block: Seq<char>, field: Seq<char>) -> bool {
    let ls = lines(block);
    let i = marked_line(ls, field_marker(field));
    i >= 0 ==> char_index_at_byte(ls[i], byte_len(field_marker(field)) as int) is Some
}

/// The value of `field` in a learnings block: on the first line that,
/// trimmed, starts with the field's marker, what follows as many bytes as
/// the marker has, trimmed.
pub open spec fn md_field(block: Seq<char>, field: Seq<char>) -> Option<Seq<char>> {
    let ls = lines(block);
    let i = marked_line(ls, field_marker(field));
    if i < 0 {
        None
    } else {
        Some(trim(ls[i].skip(char_index_at_byte(ls[i], byte_len(field_marker(field)) as int)->Some_0)))
    }
}

fn field_line(ls: &Vec<Vec<char>>, marker: &Vec<char>) -> (r: Option<usize>)
    ensures
        match r {
            Some(i) => i as int == marked_line(seqs_view(ls@), marker@) && i < ls@.len(),
            None => marked_line(seqs_view(ls@), marker@) == -1,
        },
{
    let ghost lv = seqs_view(ls@);
    proof {
        lemma_marked_line(lv, marker@);
    }
    let mut i: usize = 0;
    while i < ls.len()
        invariant
            i <= ls@.len(),
            lv == seqs_view(ls@),
            lv.len() == ls@.len(),
            forall|j: int| 0 <= j < i ==> !starts_with(trim(#[trigger] lv[j]), marker@),
            -1 <= marked_line(lv, marker@) < lv.len(),
            marked_line(lv, marker@) >= 0 ==> starts_with(trim(lv[marked_line(lv, marker@)]), marker@),
            forall|j: int| 0 <= j < lv.len() && (marked_line(lv, marker@) < 0 || j < marked_line(lv, marker@)) ==> !starts_with(trim(#[trigger] lv[j]), marker@),
        decreases ls@.len() - i,
    {
        let t = trim_exec(&ls[i]);
        assert(lv[i as int] == ls@[i as int]@);
        if crate::text::matches_at_exec(&t, marker, 0) {
            return Some(i);
        }
        i = i + 1;
    }
    None
}

/// Whether `extract_md_field` can cut the value of `field` out of `block`.
pub fn field_cut_ok_exec(block: &str, field: &str) -> (r: bool)
    ensures
        r == field_cut_ok(block@, field@),
{
    let mut m = String::new();
    m.append("**");
    m.append(field);
    m.append(":**");
    let marker = chars_of(m.as_str());
    let ls = lines_exec(&chars_of(block));
    match field_line(&ls, &marker) {
        Some(i) => {
            let n = byte_len_exec(&marker);
            char_index_at_byte_exec(&ls[i], n).is_some()
        },
        None => true,
    }
}

/// The value of a `**Field:**` line of a learnings block.
pub fn extract_md_field(block: &str, field: &str) -> (r: Option<String>)
    requires
        field_cut_ok(block@, field@),
    ensures
        match md_field(block@, field@) {
            Some(v) => r matches Some(s) && s@ == v,
            None => r is None,
        },
{
    let mut m = String::new();
    m.append("**");
    m.append(field);
    m.append(":**");
    let marker = chars_of(m.as_str());
    assert(marker@ =~= field_marker(field@));
    let ls = lines_exec(&chars_of(block));
    match field_line(&ls, &marker) {
        Some(i) => {
            let l = &ls[i];
            assert(l@ == lines(block@)[i as int]);
            let n = byte_len_exec(&marker);
            let k = char_index_at_byte_exec(l, n).unwrap();
            let rest = sub_chars(l, k, l.len());
            let v = trim_exec(&rest);
            Some(string_of(&v))
        },
        None => None,
    }
}


/// A field's value, or empty where the block has none.
pub open spec fn field_or_empty(block: Seq<char>, field: Seq<char>) -> Seq<char> {
    match md_field(block, field) {
        Some(v) => v,
        None => Seq::empty(),
    }
}

/// The learning (trigger, observation, correction) of a block that names a
/// trigger and an observation, both non-empty.
pub open spec fn block_learning(b: Seq<char>) -> Option<(Seq<char>, Seq<char>, Seq<char>)> {
    if contains(b, "Trigger:"@) && contains(b, "Observation:"@) {
        let t = field_or_empty(b, "Trigger"@);
        let o = field_or_empty(b, "Observation"@);
        let c = field_or_empty(b, "Correction"@);
        if t.len() > 0 && o.len() > 0 {
            Some((t, o, c))
        } else {
            None
        }
    } else {
        None
    }
}

/// Whether every field that is read from a block can be cut out of it.
pub open spec fn block_cut_ok(b: Seq<char>) -> bool {
    contains(b, "Trigger:"@) && contains(b, "Observation:"@) ==> {
        &&& field_cut_ok(b, "Trigger"@)
        &&& field_cut_ok(b, "Observation"@)
        &&& field_cut_ok(b, "Correction"@)
    }
}

/// The learnings of the first `n` blocks, in order.
pub open spec fn learnings_of(bs: Seq<Seq<char>>, n: int) -> Seq<(Seq<char>, Seq<char>, Seq<char>)>
    decreases n,
{
    if n <= 0 || n > bs.len() {
        Seq::empty()
    } else {
        match block_learning(bs[n - 1]) {
            Some(t) => learnings_of(bs, n - 1).push(t),
            None => learnings_of(bs, n - 1),
        }
    }
}

/// The learnings of a markdown file: its blocks are the pieces between
/// `---` lines.
pub open spec fn learnings_in(content: Seq<char>) -> Seq<(Seq<char>, Seq<char>, Seq<char>)> {
    learnings_of(split(content, "---"@), split(content, "---"@).len() as int)
}

/// Whether every block of the file can be read without a bad cut.
pub open spec fn learnings_cut_ok(content: Seq<char>) -> bool {
    forall|i: int| 0 <= i < split(content, "---"@).len() ==> block_cut_ok(#[trigger] split(content, "---"@)[i])
}

fn field_or_empty_exec(block: &str, field: &str) -> (r: String)
    requires
        field_cut_ok(block@, field@),
    ensures
        r@ == field_or_empty(block@, field@),
{
    match extract_md_field(block, field) {
        Some(v) => v,
        None => String::new(),
    }
}

/// Whether `parse_learnings` can read every block of `content`.
pub fn learnings_cut_ok_exec(content: &str) -> (r: bool)
    ensures
        r == learnings_cut_ok(content@),
{
    let sep = chars_of("---");
    proof {
        reveal_strlit("---");
    }
    let blocks = split_exec(&chars_of(content), &sep);
    let mut i: usize = 0;
    while i < blocks.len()
        invariant
            i <= blocks@.len(),
            seqs_view(blocks@) == split(content@, "---"@),
            forall|j: int| 0 <= j < i ==> block_cut_ok(#[trigger] split(content@, "---"@)[j]),
        decreases blocks@.len() - i,
    {
        let b = string_of(&blocks[i]);
        assert(b@ == split(content@, "---"@)[i as int]);
        if str_contains(b.as_str(), "Trigger:") && str_contains(b.as_str(), "Observation:") {
            if !(field_cut_ok_exec(b.as_str(), "Trigger") && field_cut_ok_exec(b.as_str(), "Observation")
                && field_cut_ok_exec(b.as_str(), "Correction")) {
                return false;
            }
        }
        i = i + 1;
    }
    true
}

/// The learnings (trigger, observation, correction) of a markdown file.
pub fn parse_learnings(content: &str) -> (r: Vec<(String, String, String)>)
    requires
        learnings_cut_ok(content@),
    ensures
        triples_view(r@) == learnings_in(content@),
{
    let sep = chars_of("---");
    proof {
        reveal_strlit("---");
    }
    let blocks = split_exec(&chars_of(content), &sep);
    let ghost bs = split(content@, "---"@);
    let mut out: Vec<(String, String, String)> = Vec::new();
    let mut i: usize = 0;
    while i < blocks.len()
        invariant
            i <= blocks@.len(),
            seqs_view(blocks@) == bs,
            bs == split(content@, "---"@),
            learnings_cut_ok(content@),
            triples_view(out@) == learnings_of(bs, i as int),
        decreases blocks@.len() - i,
    {
        let b = string_of(&blocks[i]);
        assert(b@ == bs[i as int]);
        assert(block_cut_ok(bs[i as int]));
        let ghost before = out@;
        if str_contains(b.as_str(), "Trigger:") && str_contains(b.as_str(), "Observation:") {
            let t = field_or_empty_exec(b.as_str(), "Trigger");
            let o = field_or_empty_exec(b.as_str(), "Observation");
            let c = field_or_empty_exec(b.as_str(), "Correction");
            if !t.as_str().is_empty() && !o.as_str().is_empty() {
                out.push((t, o, c));
                assert(triples_view(out@) =~= triples_view(before).push((t@, o@, c@)));
            }
        }
        i = i + 1;
    }
    out
}

impl LessonStore {
    /// Adds a learning read from the shared learnings, as a lesson of
    /// category `openclaw` with a new id and the current time. Nothing else
    /// of the store changes (no pattern is counted, nothing is pruned).
    pub fn import_learning(&mut self, trigger: &str, observation: &str, correction: &str)
        ensures
            final(self).lessons@.len() == old(self).lessons@.len() + 1,
            final(self).lessons@.drop_last() == old(self).lessons@,
            fresh_lesson(final(self).lessons@.last(), "openclaw"@, trigger@, observation@, correction@, "openclaw-sync"@),
            final(self).patterns@ == old(self).patterns@,
            final(self).version == old(self).version,
    {
        let lesson = Lesson {
            id: new_lesson_id(),
            timestamp: now_rfc3339(),
            category: "openclaw".to_owned(),
            trigger: trigger.to_owned(),
            observation: observation.to_owned(),
            correction: correction.to_owned(),
            source: "openclaw-sync".to_owned(),
            applied_count: 0,
            success_count: 0,
            auto_solved: false,
        };
        let ghost l0 = self.lessons@;
        self.lessons.push(lesson);
        assert(self.lessons@.drop_last() =~= l0);
    }
}

/// Whether a file of the shared learnings is read: a markdown file that the
/// shell did not write itself.
pub open spec fn learnings_file_wanted(name: Seq<char>) -> bool {
    !(starts_with(name, "shell-"@) || !crate::text::ends_with(name, ".md"@))
}

/// Whether a file of the shared learnings is read.
pub fn is_learnings_file(name: &str) -> (r: bool)
    ensures
        r == learnings_file_wanted(name@),
{
    let v = chars_of(name);
    let md = chars_of(".md");
    proof {
        reveal_strlit(".md");
    }
    let ends = md.len() <= v.len() && crate::text::matches_at_exec(&v, &md, v.len() - md.len());
    !(str_starts_with(name, "shell-") || !ends)
}


/// The store never grows past its limits: after a lesson is recorded it
/// holds at most `MAX_LESSONS` lessons and `MAX_PATTERNS` patterns (given
/// that it held no more patterns than that before).
pub proof fn law_record_respects_limits(ls: Seq<Lesson>, ps: Seq<ErrorPattern>, l: Lesson)
    requires
        ls.len() <= MAX_LESSONS,
    ensures
        lessons_after_record(ls, ps, l).len() <= MAX_LESSONS,
        patterns_after_record(ps, l).len() <= MAX_PATTERNS || patterns_after_record(ps, l).len() == ps.len(),
        ps.len() <= MAX_PATTERNS ==> patterns_after_record(ps, l).len() == ps.len(),
{
    let norm = lesson_norm(l.trigger@, l.observation@);
    let marked = lessons_marked(ls, ps, norm, ps.len() as int).push(l);
    law_sort_permutes(marked);
    let seen = patterns_seen(ps, norm, l.timestamp);
    law_sort_permutes(seen);
}

/// The third occurrence of an error makes its lesson auto-solved: when a
/// recorded lesson repeats a pattern seen twice before, the lesson that the
/// pattern points at is auto-solved afterwards (where the store was not
/// full, so that nothing was pruned).
pub proof fn law_third_occurrence_auto_solves(ls: Seq<Lesson>, ps: Seq<ErrorPattern>, l: Lesson, j: int)
    requires
        0 <= j < ps.len(),
        pattern_hit(lesson_norm(l.trigger@, l.observation@), ps[j]),
        ps[j].frequency + 1 >= 3,
        lesson_index(ls, ps[j].lesson_id@) >= 0,
        ls.len() < MAX_LESSONS,
    ensures
        lessons_after_record(ls, ps, l)[lesson_index(ls, ps[j].lesson_id@)].auto_solved,
{
    let norm = lesson_norm(l.trigger@, l.observation@);
    let i = lesson_index(ls, ps[j].lesson_id@);
    lemma_lesson_index(ls, ps[j].lesson_id@);
    assert(marked_by(ls, ps, norm, i, ps.len() as int));
}

/// Only a third occurrence marks a lesson: when no pattern found in the new
/// lesson's trigger and observation (lower-cased, case-insensitively) that
/// points at a stored lesson by its id reaches three occurrences with this
/// recording, that lesson comes out unchanged (where the store was not
/// full, so that nothing was pruned).
pub proof fn law_marking_needs_a_third_occurrence(ls: Seq<Lesson>, ps: Seq<ErrorPattern>, l: Lesson, i: int)
    requires
        ls.len() < MAX_LESSONS,
        0 <= i < ls.len(),
        forall|j: int|
            0 <= j < ps.len() && contains(
                lowercase(l.trigger@ + " "@ + l.observation@),
                lowercase((#[trigger] ps[j]).pattern@),
            ) && ps[j].lesson_id@ == ls[i].id@ ==> ps[j].frequency + 1 < 3,
    ensures
        lessons_after_record(ls, ps, l)[i] == ls[i],
        lessons_after_record(ls, ps, l)[i].auto_solved == ls[i].auto_solved,
{
    let norm = lesson_norm(l.trigger@, l.observation@);
    if marked_by(ls, ps, norm, i, ps.len() as int) {
        let w = choose|w: int|
            #![trigger ps[w]]
            0 <= w < ps.len() && pattern_hit(norm, ps[w]) && ps[w].frequency + 1 >= 3 && lesson_index(
                ls,
                ps[w].lesson_id@,
            ) == i;
        lemma_lesson_index(ls, ps[w].lesson_id@);
        assert(ps[w].lesson_id@ == ls[i].id@);
    }
    let marked = lessons_marked(ls, ps, norm, ps.len() as int).push(l);
    assert(lessons_after_record(ls, ps, l) == marked);
}

/// Recall by trigger or observation: every stored lesson whose trigger or
/// observation occurs (case-insensitively) in the error text is among the
/// recalled matches, by its id.
pub proof fn law_match_recalls_every_hit(ls: Seq<Lesson>, ps: Seq<ErrorPattern>, text: Seq<char>, k: int)
    requires
        0 <= k < ls.len(),
        contains(lowercase(text), lowercase(ls[k].trigger@)) || contains(
            lowercase(text),
            lowercase(ls[k].observation@),
        ),
    ensures
        exists|m: int|
            0 <= m < matches_for(ls, ps, text).len() && (#[trigger] matches_for(ls, ps, text)[m]).0.id@
                == ls[k].id@,
{
    let lower = lowercase(text);
    let start = pattern_matches(ls, ps, lower, ps.len() as int);
    let un = lesson_matches(ls, lower, start, ls.len() as int);
    lemma_lesson_matches_keep(ls, lower, start, k, ls.len() as int);
    let t = choose|t: int| 0 <= t < un.len() && (#[trigger] un[t]).0.id@ == ls[k].id@;
    law_sort_permutes(un);
    let sorted = ranked_sort(un);
    broadcast use vstd::seq_lib::group_to_multiset_ensures;
    assert(un.contains(un[t]));
    assert(un.to_multiset().count(un[t]) > 0);
    assert(sorted.to_multiset().count(un[t]) > 0);
    assert(sorted.contains(un[t]));
    let m = choose|m: int| 0 <= m < sorted.len() && sorted[m] == un[t];
    assert(matches_for(ls, ps, text) == sorted);
    assert(matches_for(ls, ps, text)[m].0.id@ == ls[k].id@);
}

/// Once lesson `k` is passed, `lesson_matches` lists a match for its id.
proof fn lemma_lesson_matches_keep(ls: Seq<Lesson>, lower: Seq<char>, start: Seq<(Lesson, u32)>, k: int, n: int)
    requires
        0 <= k < n <= ls.len(),
        contains(lower, lowercase(ls[k].trigger@)) || contains(lower, lowercase(ls[k].observation@)),
    ensures
        has_match_for(lesson_matches(ls, lower, start, n), ls[k].id@),
    decreases n,
{
    let acc = lesson_matches(ls, lower, start, n - 1);
    if n - 1 > k {
        lemma_lesson_matches_keep(ls, lower, start, k, n - 1);
        let t = choose|t: int| 0 <= t < acc.len() && (#[trigger] acc[t]).0.id@ == ls[k].id@;
        let r = lesson_matches(ls, lower, start, n);
        assert(r[t] == acc[t]);
    } else {
        let r = lesson_matches(ls, lower, start, n);
        if has_match_for(acc, ls[k].id@) {
            let t = choose|t: int| 0 <= t < acc.len() && (#[trigger] acc[t]).0.id@ == ls[k].id@;
            assert(r[t] == acc[t]);
        } else {
            assert(r == acc.push((ls[k], 1u32)));
            assert(r[acc.len() as int].0.id@ == ls[k].id@);
        }
    }
}

proof fn lemma_of_category_members(ls: Seq<Lesson>, c: Seq<char>)
    ensures
        forall|x: Lesson| of_category(ls, c).contains(x) ==> x.category@ == c,
    decreases ls.len(),
{
    reveal(Seq::filter);
    if ls.len() > 0 {
        lemma_of_category_members(ls.drop_last(), c);
        let sub = of_category(ls.drop_last(), c);
        assert forall|x: Lesson| of_category(ls, c).contains(x) implies x.category@ == c by {
            if ls.last().category@ == c {
                let k = choose|k: int| 0 <= k < of_category(ls, c).len() && of_category(ls, c)[k] == x;
                if k < sub.len() {
                    assert(sub.contains(x));
                }
            } else {
                assert(sub.contains(x));
            }
        }
    }
}

/// The lessons shown are newest first, of the asked category only, and no
/// more than asked for.
pub proof fn law_lessons_shown(ls: Seq<Lesson>, category: Option<Seq<char>>, limit: nat)
    ensures
        is_ranked(lessons_shown(ls, category, limit)),
        lessons_shown(ls, category, limit).len() <= limit,
        category matches Some(c) ==> forall|i: int|
            0 <= i < lessons_shown(ls, category, limit).len() ==> (#[trigger] lessons_shown(
                ls,
                category,
                limit,
            )[i]).category@ == c,
{
    let picked = match category {
        Some(c) => of_category(ls, c),
        None => ls,
    };
    law_sort_is_ranked(picked);
    law_sort_permutes(picked);
    let sorted = ranked_sort(picked);
    let shown = lessons_shown(ls, category, limit);
    assert(is_ranked(shown)) by {
        assert forall|i: int, j: int| 0 <= i < j < shown.len() implies !Lesson::ranks_above(#[trigger] shown[j], #[trigger] shown[i]) by {
            assert(shown[i] == sorted[i]);
            assert(shown[j] == sorted[j]);
        }
    }
    if let Some(c) = category {
        lemma_of_category_members(ls, c);
        assert forall|i: int| 0 <= i < shown.len() implies (#[trigger] shown[i]).category@ == c by {
            assert(shown[i] == sorted[i]);
            broadcast use vstd::seq_lib::group_to_multiset_ensures;
            assert(sorted.contains(sorted[i]));
            assert(sorted.to_multiset().count(sorted[i]) > 0);
            assert(picked.to_multiset().count(sorted[i]) > 0);
            assert(picked.contains(sorted[i]));
        }
    }
}


/// What an insight's confidence is drawn from.
pub enum InsightWeight {
    /// A pattern's frequency (confidence 0.15 per occurrence, at most 0.95).
    Frequency(u32),
    /// The confidence of the user preference with this key.
    Preference(String),
    /// A fixed confidence, in hundredths.
    Fixed(u32),
}

/// An insight before its confidence is worked out.
pub struct InsightDraft {
    pub kind: String,
    pub message: String,
    pub weight: InsightWeight,
    pub action: Option<String>,
}

pub enum WeightV {
    Frequency(u32),
    Preference(Seq<char>),
    Fixed(u32),
}

/// A draft as (kind, message, weight, action).
pub type DraftV = (Seq<char>, Seq<char>, WeightV, Option<Seq<char>>);

pub open spec fn draft_view(d: InsightDraft) -> DraftV {
    (
        d.kind@,
        d.message@,
        match d.weight {
            InsightWeight::Frequency(f) => WeightV::Frequency(f),
            InsightWeight::Preference(k) => WeightV::Preference(k@),
            InsightWeight::Fixed(c) => WeightV::Fixed(c),
        },
        match d.action {
            Some(a) => Some(a@),
            None => None,
        },
    )
}

pub open spec fn drafts_view(v: Seq<InsightDraft>) -> Seq<DraftV> {
    v.map_values(|d: InsightDraft| draft_view(d))
}

/// The insights of the first `n` patterns: one for each pattern seen at
/// least three times.
pub open spec fn recurring_drafts(ps: Seq<ErrorPattern>, n: int) -> Seq<DraftV>
    decreases n,
{
    if n <= 0 || n > ps.len() {
        Seq::empty()
    } else {
        let p = ps[n - 1];
        let rest = recurring_drafts(ps, n - 1);
        if p.frequency >= 3 {
            rest.push(
                (
                    "recurring_error"@,
                    "'"@ + p.pattern@ + "' has happened "@ + decimal(p.frequency as nat)
                        + " times. Consider applying the permanent fix."@,
                    WeightV::Frequency(p.frequency),
                    Some(p.suggested_fix@),
                ),
            )
        } else {
            rest
        }
    }
}

/// The insights of the first `n` strong preferences (key, value).
pub open spec fn preference_drafts(prefs: Seq<(Seq<char>, Seq<char>)>, n: int) -> Seq<DraftV>
    decreases n,
{
    if n <= 0 || n > prefs.len() {
        Seq::empty()
    } else {
        let (k, v) = prefs[n - 1];
        preference_drafts(prefs, n - 1).push(
            ("preference"@, "You consistently prefer "@ + k + " = "@ + v + "."@, WeightV::Preference(k), None),
        )
    }
}

/// The number of lessons of category `c`.
pub open spec fn category_count(ls: Seq<Lesson>, c: Seq<char>) -> nat {
    of_category(ls, c).len()
}

/// The insights that the store suggests: recurring errors, strong
/// preferences (those whose confidence is above one half, as (key, value),
/// in order), gateway crashes in the last day, repeated API key trouble,
/// and a family mode that is often turned off (where that preference is
/// strong).
pub open spec fn insight_drafts_spec(
    ls: Seq<Lesson>,
    ps: Seq<ErrorPattern>,
    strong: Seq<(Seq<char>, Seq<char>)>,
    recent_crashes: usize,
    override_strong: bool,
) -> Seq<DraftV> {
    recurring_drafts(ps, ps.len() as int) + preference_drafts(strong, strong.len() as int) + (if recent_crashes
        >= 2 {
        seq![
            (
                "stability"@,
                "Gateway crashed "@ + decimal(recent_crashes as nat) + " times in the last 24 hours."@,
                WeightV::Fixed(90),
                Some("Run Doctor and check the Debug panel for details."@),
            ),
        ]
    } else {
        Seq::empty()
    }) + (if category_count(ls, "api"@) >= 2 {
        seq![
            (
                "api_health"@,
                "Multiple API key issues detected. Verify your keys are active and have credits."@,
                WeightV::Fixed(80),
                Some("Go to API Keys and re-verify your providers."@),
            ),
        ]
    } else {
        Seq::empty()
    }) + (if override_strong {
        seq![
            (
                "safety"@,
                "You often disable family mode. If this is a personal machine, consider setting the default to off."@,
                WeightV::Preference("family_mode_override"@),
                Some("Go to Safety settings to change the default."@),
            ),
        ]
    } else {
        Seq::empty()
    })
}

/// The views of a list of (key, value) pairs.
pub open spec fn pairs_view(v: Seq<(String, String)>) -> Seq<(Seq<char>, Seq<char>)> {
    v.map_values(|p: (String, String)| (p.0@, p.1@))
}

pub open spec fn weight_view(w: InsightWeight) -> WeightV {
    match w {
        InsightWeight::Frequency(f) => WeightV::Frequency(f),
        InsightWeight::Preference(k) => WeightV::Preference(k@),
        InsightWeight::Fixed(c) => WeightV::Fixed(c),
    }
}

fn push_draft(out: &mut Vec<InsightDraft>, kind: &str, message: String, weight: InsightWeight, action: Option<&str>)
    ensures
        drafts_view(final(out)@) == drafts_view(old(out)@).push(
            (
                kind@,
                message@,
                weight_view(weight),
                match action {
                    Some(a) => Some(a@),
                    None => None,
                },
            ),
        ),
{
    let ghost before = out@;
    let d = InsightDraft {
        kind: kind.to_owned(),
        message,
        weight,
        action: match action {
            Some(a) => Some(a.to_owned()),
            None => None,
        },
    };
    out.push(d);
    assert(drafts_view(out@) =~= drafts_view(before).push(draft_view(out@.last())));
}

fn count_category(ls: &Vec<Lesson>, c: &str) -> (r: usize)
    ensures
        r == category_count(ls@, c@),
{
    let k = c.to_owned();
    let v = lessons_of_category(ls, &k);
    proof {
        ls@.lemma_filter_len(|l: Lesson| l.category@ == c@);
    }
    v.len()
}

impl LessonStore {
    /// The insights that the store suggests (see `insight_drafts_spec`),
    /// before their confidences are worked out and ordered.
    pub fn insight_drafts(&self, strong: &Vec<(String, String)>, recent_crashes: usize, override_strong: bool) -> (r: Vec<InsightDraft>)
        ensures
            drafts_view(r@) == insight_drafts_spec(self.lessons@, self.patterns@, pairs_view(strong@), recent_crashes, override_strong),
    {
        let ps = &self.patterns;
        let mut out: Vec<InsightDraft> = Vec::new();
        let mut j: usize = 0;
        while j < ps.len()
            invariant
                j <= ps@.len(),
                drafts_view(out@) == recurring_drafts(ps@, j as int),
            decreases ps@.len() - j,
        {
            let p = &ps[j];
            if p.frequency >= 3 {
                let mut m = String::new();
                m.append("'");
                m.append(p.pattern.as_str());
                m.append("' has happened ");
                let f = string_of(&decimal_exec(p.frequency as u64));
                m.append(f.as_str());
                m.append(" times. Consider applying the permanent fix.");
                push_draft(&mut out, "recurring_error", m, InsightWeight::Frequency(p.frequency), Some(p.suggested_fix.as_str()));
            }
            j = j + 1;
        }
        let ghost first = drafts_view(out@);
        let mut k: usize = 0;
        while k < strong.len()
            invariant
                k <= strong@.len(),
                drafts_view(out@) == first + preference_drafts(pairs_view(strong@), k as int),
            decreases strong@.len() - k,
        {
            let (key, value) = &strong[k];
            let mut m = String::new();
            m.append("You consistently prefer ");
            m.append(key.as_str());
            m.append(" = ");
            m.append(value.as_str());
            m.append(".");
            let ghost before = drafts_view(out@);
            push_draft(&mut out, "preference", m, InsightWeight::Preference(key.clone()), None);
            assert(pairs_view(strong@)[k as int] == (key@, value@));
            assert(first + preference_drafts(pairs_view(strong@), k + 1) =~= (first + preference_drafts(pairs_view(strong@), k as int)).push(drafts_view(out@).last()));
            k = k + 1;
        }
        let ghost second = drafts_view(out@);
        if recent_crashes >= 2 {
            let mut m = String::new();
            m.append("Gateway crashed ");
            let n = string_of(&decimal_exec(recent_crashes as u64));
            m.append(n.as_str());
            m.append(" times in the last 24 hours.");
            push_draft(&mut out, "stability", m, InsightWeight::Fixed(90), Some("Run Doctor and check the Debug panel for details."));
        }
        let ghost third = drafts_view(out@);
        if count_category(&self.lessons, "api") >= 2 {
            push_draft(
                &mut out,
                "api_health",
                "Multiple API key issues detected. Verify your keys are active and have credits.".to_owned(),
                InsightWeight::Fixed(80),
                Some("Go to API Keys and re-verify your providers."),
            );
        }
        let ghost fourth = drafts_view(out@);
        if override_strong {
            push_draft(
                &mut out,
                "safety",
                "You often disable family mode. If this is a personal machine, consider setting the default to off.".to_owned(),
                InsightWeight::Preference("family_mode_override".to_owned()),
                Some("Go to Safety settings to change the default."),
            );
        }
        assert(drafts_view(out@) =~= insight_drafts_spec(self.lessons@, self.patterns@, pairs_view(strong@), recent_crashes, override_strong));
        out
    }
}

} // verus!
