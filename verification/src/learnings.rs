use vstd::prelude::*;
use crate::self_improve::{
    Lesson, block_learning, field_marker, field_or_empty, learnings_in, learnings_of,
    lesson_entry_text, marked_line, md_field,
};
use crate::text::{
    byte_len, char_index_at_byte, contains, is_ws, lead_ws, lemma_char_index_after_ascii,
    lemma_contains_prefix, lemma_contains_suffix, lemma_find_first_char, lemma_find_first_dashes,
    lemma_no_char, lemma_no_char_concat, lemma_no_dashes, lemma_no_dashes_concat,
    lemma_split_first, lemma_split_none, lemma_trim_after_blank, lemma_trim_plain,
    lemma_trimmed_ends, lines, split, split_from, starts_with, strip_cr, trail_ws, trim,
};

verus! {

/// A field of a learnings entry that reads back as written: no line break
/// and no `---` in it.
pub open spec fn plain_field(s: Seq<char>) -> bool {
    !contains(s, seq!['\n']) && !contains(s, "---"@)
}

/// `marked_line` finds the line `i` when no earlier line is marked.
proof fn lemma_marked_line_at(ls: Seq<Seq<char>>, m: Seq<char>, i: int)
    requires
        0 <= i < ls.len(),
        forall|j: int| 0 <= j < i ==> !starts_with(trim(#[trigger] ls[j]), m),
        starts_with(trim(ls[i]), m),
    ensures
        marked_line(ls, m) == i,
    decreases i,
{
    if i > 0 {
        let rest = ls.drop_first();
        assert forall|j: int| 0 <= j < i - 1 implies !starts_with(trim(#[trigger] rest[j]), m) by {
            assert(rest[j] == ls[j + 1]);
        }
        assert(!starts_with(trim(ls[0]), m));
        lemma_marked_line_at(rest, m, i - 1);
    }
}

/// The line `m + " " + v` of a trimmed value `v`: marked by `m`, cut after
/// `m`'s bytes, and trimmed, it gives `v` back.
proof fn lemma_field_line(m: Seq<char>, v: Seq<char>)
    requires
        m.len() > 0,
        !is_ws(m[0]),
        !is_ws(m.last()),
        forall|i: int| 0 <= i < m.len() ==> (#[trigger] m[i] as u32) < 0x80,
        trim(v) == v,
    ensures
        starts_with(trim(m + seq![' '] + v), m),
        byte_len(m) == m.len(),
        char_index_at_byte(m + seq![' '] + v, m.len() as int) == Some(m.len() as int),
        trim((m + seq![' '] + v).skip(m.len() as int)) == v,
        strip_cr(m + seq![' '] + v) == m + seq![' '] + v,
        (m + seq![' '] + v)[0] == m[0],
{
    let s = m + seq![' '] + v;
    assert(s =~= m + (seq![' '] + v));
    lemma_char_index_after_ascii(m, seq![' '] + v);
    assert(s.skip(m.len() as int) =~= seq![' '] + v);
    lemma_trim_after_blank(v);
    assert(is_ws(' '));
    assert(is_ws('\r'));
    if v.len() > 0 {
        lemma_trimmed_ends(v);
        assert(s.last() == v.last());
        lemma_trim_plain(s);
        assert(s.subrange(0, m.len() as int) =~= m);
    } else {
        assert(s =~= m.push(' '));
        assert(lead_ws(s) == 0);
        assert(s.skip(0) =~= s);
        assert(s.drop_last() =~= m);
        assert(trail_ws(m) == 0);
        assert(trail_ws(s) == 1);
        assert(trim(s) =~= m);
        assert(m.subrange(0, m.len() as int) =~= m);
    }
}

/// A line that starts with a non-blank and differs from `m` at `k` is not
/// marked by `m`.
proof fn lemma_not_marked(s: Seq<char>, m: Seq<char>, k: int)
    requires
        0 <= k < m.len(),
        k < s.len(),
        !is_ws(s[0]),
        s[k] != m[k],
    ensures
        !starts_with(trim(s), m),
{
    assert(lead_ws(s) == 0);
    let a = s.skip(0);
    assert(a =~= s);
    crate::text::lemma_trail_bound(a);
    assert(trim(s) == a.take(a.len() - trail_ws(a)));
    if starts_with(trim(s), m) {
        assert(trim(s).subrange(0, m.len() as int)[k] == trim(s)[k]);
        assert(trim(s)[k] == a[k]);
    }
}

/// An empty line is not marked.
proof fn lemma_empty_not_marked(m: Seq<char>)
    requires
        m.len() > 0,
    ensures
        !starts_with(trim(Seq::<char>::empty()), m),
{
    let e = Seq::<char>::empty();
    assert(lead_ws(e) == 0);
    assert(e.skip(0) =~= e);
    assert(trail_ws(e) == 0);
    assert(trim(e).len() == 0);
}


/// `x`, a line break, then `y`.
pub open spec fn nl_join(x: Seq<char>, y: Seq<char>) -> Seq<char> {
    x + seq!['\n'] + y
}

/// The heading line of an entry.
pub open spec fn entry_heading(ts: Seq<char>, category: Seq<char>) -> Seq<char> {
    "## ["@ + ts + "] "@ + category + " (from shell)"@
}

/// A field line of an entry: the marker, a blank, the value.
pub open spec fn entry_field(marker: Seq<char>, value: Seq<char>) -> Seq<char> {
    marker + seq![' '] + value
}

/// What follows the correction line of an entry, up to its `---`.
pub open spec fn entry_tail(source: Seq<char>, solved: Seq<char>) -> Seq<char> {
    seq!['\n'] + ("**Source:** "@ + source) + seq!['\n'] + seq!['\n'] + ("**Auto-solved:** "@
        + solved) + seq!['\n'] + seq!['\n']
}

/// An entry up to its `---`, line by line.
pub open spec fn entry_block(l: Lesson, cut: int) -> Seq<char> {
    let e = Seq::<char>::empty();
    let solved = if l.auto_solved {
        "Yes"@
    } else {
        "No"@
    };
    nl_join(
        e,
        nl_join(
            entry_heading(l.timestamp@.take(cut), l.category@),
            nl_join(
                e,
                nl_join(
                    entry_field("**Trigger:**"@, l.trigger@),
                    nl_join(
                        e,
                        nl_join(
                            entry_field("**Observation:**"@, l.observation@),
                            nl_join(
                                e,
                                nl_join(
                                    entry_field("**Correction:**"@, l.correction@),
                                    entry_tail(l.source@, solved),
                                ),
                            ),
                        ),
                    ),
                ),
            ),
        ),
    )
}

/// An entry is its block, `---` and a line break.
proof fn lemma_entry_shape(l: Lesson, cut: int)
    ensures
        lesson_entry_text(l, cut) == entry_block(l, cut) + "---"@ + seq!['\n'],
{
    reveal_strlit("\n## [");
    reveal_strlit("## [");
    reveal_strlit("] ");
    reveal_strlit(" (from shell)\n\n**Trigger:** ");
    reveal_strlit(" (from shell)");
    reveal_strlit("**Trigger:**");
    reveal_strlit("\n\n**Observation:** ");
    reveal_strlit("**Observation:**");
    reveal_strlit("\n\n**Correction:** ");
    reveal_strlit("**Correction:**");
    reveal_strlit("\n\n**Source:** ");
    reveal_strlit("**Source:** ");
    reveal_strlit("\n\n**Auto-solved:** ");
    reveal_strlit("**Auto-solved:** ");
    reveal_strlit("\n\n---\n");
    reveal_strlit("---");
    let nl = seq!['\n'];
    let sp = seq![' '];
    assert("\n## ["@ =~= nl + "## ["@);
    assert(" (from shell)\n\n**Trigger:** "@ =~= " (from shell)"@ + nl + nl + "**Trigger:**"@ + sp);
    assert("\n\n**Observation:** "@ =~= nl + nl + "**Observation:**"@ + sp);
    assert("\n\n**Correction:** "@ =~= nl + nl + "**Correction:**"@ + sp);
    assert("\n\n**Source:** "@ =~= nl + nl + "**Source:** "@);
    assert("\n\n**Auto-solved:** "@ =~= nl + nl + "**Auto-solved:** "@);
    assert("\n\n---\n"@ =~= nl + nl + "---"@ + nl);
    assert(lesson_entry_text(l, cut) =~= entry_block(l, cut) + "---"@ + nl);
}


/// Splitting `nl_join(x, y)` at line breaks, where `x` has none.
proof fn lemma_split_join(x: Seq<char>, y: Seq<char>)
    requires
        !contains(x, seq!['\n']),
    ensures
        split(nl_join(x, y), seq!['\n']) == seq![x] + split(y, seq!['\n']),
{
    lemma_find_first_char(x, '\n', y);
    lemma_split_first(x, seq!['\n'], y);
}

/// The first eight lines of an entry's block: a blank line, the heading, a
/// blank line, the trigger, a blank line, the observation, a blank line and
/// the correction.
proof fn lemma_block_lines(l: Lesson, cut: int)
    requires
        !contains(entry_heading(l.timestamp@.take(cut), l.category@), seq!['\n']),
        !contains(entry_field("**Trigger:**"@, l.trigger@), seq!['\n']),
        !contains(entry_field("**Observation:**"@, l.observation@), seq!['\n']),
        !contains(entry_field("**Correction:**"@, l.correction@), seq!['\n']),
    ensures
        lines(entry_block(l, cut)).len() >= 8,
        lines(entry_block(l, cut))[0] == strip_cr(Seq::<char>::empty()),
        lines(entry_block(l, cut))[1] == strip_cr(entry_heading(l.timestamp@.take(cut), l.category@)),
        lines(entry_block(l, cut))[2] == strip_cr(Seq::<char>::empty()),
        lines(entry_block(l, cut))[3] == strip_cr(entry_field("**Trigger:**"@, l.trigger@)),
        lines(entry_block(l, cut))[4] == strip_cr(Seq::<char>::empty()),
        lines(entry_block(l, cut))[5] == strip_cr(entry_field("**Observation:**"@, l.observation@)),
        lines(entry_block(l, cut))[6] == strip_cr(Seq::<char>::empty()),
        lines(entry_block(l, cut))[7] == strip_cr(entry_field("**Correction:**"@, l.correction@)),
{
    let nl = seq!['\n'];
    let e = Seq::<char>::empty();
    let solved = if l.auto_solved {
        "Yes"@
    } else {
        "No"@
    };
    let h = entry_heading(l.timestamp@.take(cut), l.category@);
    let tl = entry_field("**Trigger:**"@, l.trigger@);
    let ol = entry_field("**Observation:**"@, l.observation@);
    let cl = entry_field("**Correction:**"@, l.correction@);
    let r = entry_tail(l.source@, solved);
    lemma_no_char(e, '\n');
    let y7 = nl_join(cl, r);
    let y6 = nl_join(e, y7);
    let y5 = nl_join(ol, y6);
    let y4 = nl_join(e, y5);
    let y3 = nl_join(tl, y4);
    let y2 = nl_join(e, y3);
    let y1 = nl_join(h, y2);
    let y0 = nl_join(e, y1);
    assert(y0 == entry_block(l, cut));
    lemma_split_join(cl, r);
    lemma_split_join(e, y7);
    lemma_split_join(ol, y6);
    lemma_split_join(e, y5);
    lemma_split_join(tl, y4);
    lemma_split_join(e, y3);
    lemma_split_join(h, y2);
    lemma_split_join(e, y1);
    let rest = split(r, nl);
    assert(rest.len() > 0) by {
        assert(rest == split_from(r, nl, 0));
    }
    let p = split(y0, nl);
    assert(p =~= seq![e, h, e, tl, e, ol, e, cl] + rest);
    assert(p.len() >= 9);
}


/// Joining two lines without `---` gives none.
proof fn lemma_join_no_dashes(x: Seq<char>, y: Seq<char>)
    requires
        !contains(x, "---"@),
        !contains(y, "---"@),
    ensures
        !contains(nl_join(x, y), "---"@),
{
    let nl = seq!['\n'];
    lemma_no_dashes(nl);
    lemma_no_dashes_concat(x, nl);
    assert((x + nl).last() == '\n');
    lemma_no_dashes_concat(x + nl, y);
}

/// Joining two lines without a line break in the first.
proof fn lemma_join_no_nl(x: Seq<char>, y: Seq<char>)
    requires
        !contains(x, seq!['\n']),
        !contains(y, seq!['\n']),
    ensures
        !contains(x + y, seq!['\n']),
{
    lemma_no_char_concat(x, y, '\n');
}

/// The heading and field lines of an entry are single lines without
/// `---`.
proof fn lemma_entry_lines_plain(l: Lesson, cut: int)
    requires
        plain_field(l.timestamp@.take(cut)),
        plain_field(l.category@),
        plain_field(l.trigger@),
        plain_field(l.observation@),
        plain_field(l.correction@),
    ensures
        plain_field(entry_heading(l.timestamp@.take(cut), l.category@)),
        plain_field(entry_field("**Trigger:**"@, l.trigger@)),
        plain_field(entry_field("**Observation:**"@, l.observation@)),
        plain_field(entry_field("**Correction:**"@, l.correction@)),
{
    reveal_strlit("## [");
    reveal_strlit("] ");
    reveal_strlit(" (from shell)");
    reveal_strlit("**Trigger:**");
    reveal_strlit("**Observation:**");
    reveal_strlit("**Correction:**");
    let ts = l.timestamp@.take(cut);
    let sp = seq![' '];
    let a = "## ["@;
    let b = "] "@;
    let c = " (from shell)"@;
    lemma_no_char(a, '\n');
    lemma_no_char(b, '\n');
    lemma_no_char(c, '\n');
    lemma_no_char(sp, '\n');
    lemma_no_dashes(a);
    lemma_no_dashes(b);
    lemma_no_dashes(c);
    lemma_no_dashes(sp);
    lemma_join_no_nl(a, ts);
    lemma_join_no_nl(a + ts, b);
    lemma_join_no_nl(a + ts + b, l.category@);
    lemma_join_no_nl(a + ts + b + l.category@, c);
    lemma_no_dashes_concat(a, ts);
    lemma_no_dashes_concat(a + ts, b);
    assert((a + ts + b).last() == ' ');
    lemma_no_dashes_concat(a + ts + b, l.category@);
    lemma_no_dashes_concat(a + ts + b + l.category@, c);
    let ms = seq!["**Trigger:**"@, "**Observation:**"@, "**Correction:**"@];
    let vs = seq![l.trigger@, l.observation@, l.correction@];
    assert forall|k: int| 0 <= k < 3 implies plain_field(entry_field(#[trigger] ms[k], vs[k])) by {
        let m = ms[k];
        lemma_no_char(m, '\n');
        lemma_no_dashes(m);
        lemma_join_no_nl(m, sp);
        lemma_join_no_nl(m + sp, vs[k]);
        lemma_no_dashes_concat(m, sp);
        assert((m + sp).last() == ' ');
        lemma_no_dashes_concat(m + sp, vs[k]);
    }
    assert(ms[0] == "**Trigger:**"@);
    assert(ms[1] == "**Observation:**"@);
    assert(ms[2] == "**Correction:**"@);
}

/// The tail of an entry holds no `---`.
proof fn lemma_tail_no_dashes(source: Seq<char>, solved: Seq<char>)
    requires
        !contains(source, "---"@),
        !contains(solved, "---"@),
    ensures
        !contains(entry_tail(source, solved), "---"@),
{
    reveal_strlit("**Source:** ");
    reveal_strlit("**Auto-solved:** ");
    let nl = seq!['\n'];
    let s0 = "**Source:** "@;
    let a0 = "**Auto-solved:** "@;
    lemma_no_dashes(nl);
    lemma_no_dashes(s0);
    lemma_no_dashes(a0);
    lemma_no_dashes_concat(s0, source);
    lemma_no_dashes_concat(a0, solved);
    let s = s0 + source;
    let a = a0 + solved;
    lemma_no_dashes_concat(nl, s);
    lemma_no_dashes_concat(nl + s, nl);
    lemma_no_dashes_concat(nl + s + nl, nl);
    lemma_no_dashes_concat(nl + s + nl + nl, a);
    lemma_no_dashes_concat(nl + s + nl + nl + a, nl);
    lemma_no_dashes_concat(nl + s + nl + nl + a + nl, nl);
}

/// A match in the first line of a join is a match of the join.
proof fn lemma_join_contains_left(x: Seq<char>, y: Seq<char>, n: Seq<char>)
    requires
        contains(x, n),
    ensures
        contains(nl_join(x, y), n),
{
    lemma_contains_prefix(x, seq!['\n'], n);
    lemma_contains_prefix(x + seq!['\n'], y, n);
}

/// A match in the rest of a join is a match of the join.
proof fn lemma_join_contains_right(x: Seq<char>, y: Seq<char>, n: Seq<char>)
    requires
        contains(y, n),
    ensures
        contains(nl_join(x, y), n),
{
    lemma_contains_suffix(x + seq!['\n'], y, n);
}


/// What the law asks of a lesson's fields.
pub open spec fn entry_readable(l: Lesson, cut: int) -> bool {
    &&& 0 <= cut <= l.timestamp@.len()
    &&& plain_field(l.timestamp@.take(cut))
    &&& plain_field(l.category@)
    &&& plain_field(l.trigger@)
    &&& plain_field(l.observation@)
    &&& plain_field(l.correction@)
    &&& plain_field(l.source@)
    &&& trim(l.trigger@) == l.trigger@
    &&& trim(l.observation@) == l.observation@
    &&& trim(l.correction@) == l.correction@
    &&& l.trigger@.len() > 0
    &&& l.observation@.len() > 0
}

/// The Yes or No of an entry.
pub open spec fn solved_text(l: Lesson) -> Seq<char> {
    if l.auto_solved {
        "Yes"@
    } else {
        "No"@
    }
}

/// An entry splits at `---` into its block and a final line break.
proof fn lemma_entry_blocks(l: Lesson, cut: int)
    requires
        entry_readable(l, cut),
    ensures
        split(lesson_entry_text(l, cut), "---"@) == seq![entry_block(l, cut), seq!['\n']],
{
    reveal_strlit("---");
    reveal_strlit("Yes");
    reveal_strlit("No");
    let nl = seq!['\n'];
    let d = "---"@;
    let e = Seq::<char>::empty();
    let solved = solved_text(l);
    let h = entry_heading(l.timestamp@.take(cut), l.category@);
    let tl = entry_field("**Trigger:**"@, l.trigger@);
    let ol = entry_field("**Observation:**"@, l.observation@);
    let cl = entry_field("**Correction:**"@, l.correction@);
    let r = entry_tail(l.source@, solved);
    let b = entry_block(l, cut);
    lemma_entry_shape(l, cut);
    lemma_entry_lines_plain(l, cut);
    lemma_no_dashes(e);
    lemma_no_dashes(solved);
    lemma_tail_no_dashes(l.source@, solved);
    let y7 = nl_join(cl, r);
    let y6 = nl_join(e, y7);
    let y5 = nl_join(ol, y6);
    let y4 = nl_join(e, y5);
    let y3 = nl_join(tl, y4);
    let y2 = nl_join(e, y3);
    let y1 = nl_join(h, y2);
    assert(b == nl_join(e, y1));
    lemma_join_no_dashes(cl, r);
    lemma_join_no_dashes(e, y7);
    lemma_join_no_dashes(ol, y6);
    lemma_join_no_dashes(e, y5);
    lemma_join_no_dashes(tl, y4);
    lemma_join_no_dashes(e, y3);
    lemma_join_no_dashes(h, y2);
    lemma_join_no_dashes(e, y1);
    assert(r.last() == '\n');
    assert(b.last() == '\n');
    lemma_find_first_dashes(b, nl);
    lemma_split_first(b, d, nl);
    lemma_no_dashes(nl);
    lemma_split_none(nl, d);
    assert(split(lesson_entry_text(l, cut), d) =~= seq![b, nl]);
}

/// The block of an entry names a trigger and an observation.
proof fn lemma_block_names(l: Lesson, cut: int)
    ensures
        contains(entry_block(l, cut), "Trigger:"@),
        contains(entry_block(l, cut), "Observation:"@),
{
    reveal_strlit("Trigger:");
    reveal_strlit("Observation:");
    reveal_strlit("**Trigger:**");
    reveal_strlit("**Observation:**");
    let e = Seq::<char>::empty();
    let h = entry_heading(l.timestamp@.take(cut), l.category@);
    let tl = entry_field("**Trigger:**"@, l.trigger@);
    let ol = entry_field("**Observation:**"@, l.observation@);
    let cl = entry_field("**Correction:**"@, l.correction@);
    let r = entry_tail(l.source@, solved_text(l));
    let y7 = nl_join(cl, r);
    let y6 = nl_join(e, y7);
    let y5 = nl_join(ol, y6);
    let y4 = nl_join(e, y5);
    let y3 = nl_join(tl, y4);
    let y2 = nl_join(e, y3);
    let y1 = nl_join(h, y2);
    assert(entry_block(l, cut) == nl_join(e, y1));
    assert(tl.subrange(2, 10) =~= "Trigger:"@);
    assert(crate::text::matches_at(tl, "Trigger:"@, 2));
    assert(ol.subrange(2, 14) =~= "Observation:"@);
    assert(crate::text::matches_at(ol, "Observation:"@, 2));
    lemma_join_contains_left(tl, y4, "Trigger:"@);
    lemma_join_contains_right(e, y3, "Trigger:"@);
    lemma_join_contains_right(h, y2, "Trigger:"@);
    lemma_join_contains_right(e, y1, "Trigger:"@);
    lemma_join_contains_left(ol, y6, "Observation:"@);
    lemma_join_contains_right(e, y5, "Observation:"@);
    lemma_join_contains_right(tl, y4, "Observation:"@);
    lemma_join_contains_right(e, y3, "Observation:"@);
    lemma_join_contains_right(h, y2, "Observation:"@);
    lemma_join_contains_right(e, y1, "Observation:"@);
}

/// The fields of an entry's block read back as the lesson's.
#[verifier::rlimit(30)]
proof fn lemma_block_fields(l: Lesson, cut: int)
    requires
        entry_readable(l, cut),
    ensures
        md_field(entry_block(l, cut), "Trigger"@) == Some(l.trigger@),
        md_field(entry_block(l, cut), "Observation"@) == Some(l.observation@),
        md_field(entry_block(l, cut), "Correction"@) == Some(l.correction@),
{
    reveal_strlit("**Trigger:**");
    reveal_strlit("**Observation:**");
    reveal_strlit("**Correction:**");
    reveal_strlit("**");
    reveal_strlit(":**");
    reveal_strlit("Trigger");
    reveal_strlit("Observation");
    reveal_strlit("Correction");
    reveal_strlit("## [");
    reveal_strlit(" (from shell)");
    let e = Seq::<char>::empty();
    let t = l.trigger@;
    let o = l.observation@;
    let c = l.correction@;
    let mt = "**Trigger:**"@;
    let mo = "**Observation:**"@;
    let mc = "**Correction:**"@;
    let h = entry_heading(l.timestamp@.take(cut), l.category@);
    let tl = entry_field(mt, t);
    let ol = entry_field(mo, o);
    let cl = entry_field(mc, c);
    let b = entry_block(l, cut);
    lemma_entry_lines_plain(l, cut);
    lemma_block_lines(l, cut);
    let ls = lines(b);
    assert(ls[0] == e);
    assert(ls[2] == e);
    assert(ls[4] == e);
    assert(ls[6] == e);
    assert(h.last() == ')');
    assert(ls[1] == h);
    assert(h[0] == '#');
    assert(!is_ws('#'));
    assert(!is_ws('*'));
    assert(forall|i: int| 0 <= i < mt.len() ==> (#[trigger] mt[i] as u32) < 0x80);
    assert(forall|i: int| 0 <= i < mo.len() ==> (#[trigger] mo[i] as u32) < 0x80);
    assert(forall|i: int| 0 <= i < mc.len() ==> (#[trigger] mc[i] as u32) < 0x80);
    lemma_field_line(mt, t);
    lemma_field_line(mo, o);
    lemma_field_line(mc, c);
    assert(ls[3] == tl);
    assert(ls[5] == ol);
    assert(ls[7] == cl);
    assert(tl[2] == 'T');
    assert(ol[2] == 'O');
    lemma_empty_not_marked(mt);
    lemma_empty_not_marked(mo);
    lemma_empty_not_marked(mc);
    lemma_not_marked(h, mt, 0);
    lemma_not_marked(h, mo, 0);
    lemma_not_marked(h, mc, 0);
    lemma_not_marked(tl, mo, 2);
    lemma_not_marked(tl, mc, 2);
    lemma_not_marked(ol, mc, 2);
    assert(field_marker("Trigger"@) =~= mt);
    assert(field_marker("Observation"@) =~= mo);
    assert(field_marker("Correction"@) =~= mc);
    lemma_marked_line_at(ls, mt, 3);
    lemma_marked_line_at(ls, mo, 5);
    lemma_marked_line_at(ls, mc, 7);
}

/// An entry that the shell writes to the shared learnings reads back as
/// the lesson's trigger, observation and correction: where no field of the
/// entry holds a line break or `---`, the three values have no white space
/// at either end, and the trigger and the observation are not empty.
pub proof fn law_entry_reads_back(l: Lesson, cut: int)
    requires
        entry_readable(l, cut),
    ensures
        learnings_in(lesson_entry_text(l, cut)) == seq![(l.trigger@, l.observation@, l.correction@)],
{
    reveal_strlit("Trigger:");
    let nl = seq!['\n'];
    let b = entry_block(l, cut);
    let t = l.trigger@;
    let o = l.observation@;
    let c = l.correction@;
    lemma_entry_blocks(l, cut);
    let bs = split(lesson_entry_text(l, cut), "---"@);
    assert(!contains(nl, "Trigger:"@));
    assert(block_learning(nl) is None);
    lemma_block_names(l, cut);
    lemma_block_fields(l, cut);
    assert(field_or_empty(b, "Trigger"@) == t);
    assert(field_or_empty(b, "Observation"@) == o);
    assert(field_or_empty(b, "Correction"@) == c);
    assert(block_learning(b) == Some((t, o, c)));
    reveal_with_fuel(learnings_of, 3);
    assert(learnings_of(bs, 2) =~= seq![(t, o, c)]);
}

} // verus!
