//! Properties of the cleaning function as a whole.
use vstd::prelude::*;
use crate::border::{
    borderish, border_dominated, pure_border_line, frame_glyph, border_count, alnum_count,
    visible_count, framed_by_border, border_frames_text, titled_border_line,
};
use crate::frame::{
    strip_bom, trim_end_border, unwrapped, wrapper_content, scrub_raw, scrubbed, wrapper_bar,
    border_prefix_len,
};
use crate::pipeline::{
    cleaned_line, step, Assembly, emit, assemble, initial_assembly, join, lines, lines_from,
    line_end, strip_cr, strip_tui, cleaned_variant, clean,
};
use crate::ansi::ansi_stripped;
use crate::cp1252::{variants, cp1252_decoded, lemma_mojibake_round_trip};
use vstd::utf8::encode_utf8;
use crate::text::{
    alphanumeric, control, white_space, trim_ws, trim_end_ws, trim_start_ws,
    lemma_trim_end_is_prefix, lemma_trim_start_is_suffix,
};

verus! {

proof fn lemma_no_alnum_count(t: Seq<char>)
    requires
        forall|i: int| 0 <= i < t.len() ==> !alphanumeric(#[trigger] t[i]),
    ensures
        alnum_count(t) == 0,
    decreases t.len(),
{
    if t.len() > 0 {
        lemma_no_alnum_count(t.drop_last());
    }
}

/// `trim_ws(s)` is `s` from `b` for its length, and neither of its ends is
/// whitespace.
proof fn lemma_trim_ws_range(s: Seq<char>) -> (b: int)
    ensures
        0 <= b,
        b + trim_ws(s).len() <= s.len(),
        trim_ws(s) == s.subrange(b, b + trim_ws(s).len()),
        trim_ws(s).len() > 0 ==> !white_space(trim_ws(s)[0]) && !white_space(trim_ws(s).last()),
        trim_ws(s).len() == 0 ==> forall|i: int| 0 <= i < s.len() ==> white_space(#[trigger] s[i]),
{
    lemma_trim_end_is_prefix(s);
    let e = trim_end_ws(s);
    lemma_trim_start_is_suffix(e);
    let t = trim_ws(s);
    let b = e.len() - t.len();
    assert(t == s.subrange(b, b + t.len()));
    if t.len() > 0 {
        assert(t.last() == e.last());
    } else {
        assert forall|i: int| 0 <= i < s.len() implies white_space(#[trigger] s[i]) by {
            if i < e.len() {
                assert(s[i] == e.take(b)[i]);
            } else {
                assert(s[i] == s.skip(e.len() as int)[i - e.len()]);
            }
        }
    }
    b
}

/// A line made only of whitespace and border-ish characters, none of them
/// alphanumeric, is dropped whole: the assembler writes nothing for it.
pub proof fn lemma_border_only_line_dropped(line: Seq<char>, st: Assembly)
    requires
        line.len() > 0,
        forall|i: int| 0 <= i < line.len() ==> white_space(#[trigger] line[i]) || borderish(line[i]),
        forall|i: int| 0 <= i < line.len() ==> !alphanumeric(#[trigger] line[i]),
    ensures
        cleaned_line(line) is None,
        step(st, line) == st,
{
    let b = lemma_trim_ws_range(line);
    let t = trim_ws(line);
    if t.len() == 0 {
        assert(pure_border_line(line));
    } else {
        assert(t[0] == line[b]);
        assert(t.last() == line[b + t.len() - 1]);
        assert(framed_by_border(t));
        assert forall|i: int| 0 <= i < t.len() implies !alphanumeric(#[trigger] t[i]) by {
            assert(t[i] == line[b + i]);
        }
        lemma_no_alnum_count(t);
        assert(!control(t.last()));
        assert(border_count(t) >= 1);
        assert(visible_count(t) >= 1);
        assert(border_frames_text(t));
        assert(border_dominated(line));
    }
}


/// `s` holds no line feed.
pub open spec fn no_lf(s: Seq<char>) -> bool {
    forall|i: int| 0 <= i < s.len() ==> #[trigger] s[i] != '\n'
}

/// `s` holds no border-ish character.
pub open spec fn no_border(s: Seq<char>) -> bool {
    forall|i: int| 0 <= i < s.len() ==> !borderish(#[trigger] s[i])
}

/// A line as the assembler writes it: no line feed, no border-ish
/// character, no trailing whitespace.
pub open spec fn clean_piece(p: Seq<char>) -> bool {
    &&& no_lf(p)
    &&& no_border(p)
    &&& p.len() > 0 ==> !white_space(p.last())
}

pub open spec fn all_clean(ps: Seq<Seq<char>>) -> bool {
    forall|i: int| 0 <= i < ps.len() ==> clean_piece(#[trigger] ps[i])
}

/// No three empty lines in a row.
pub open spec fn blank_runs_capped(ps: Seq<Seq<char>>) -> bool {
    forall|i: int|
        0 <= i && i + 2 < ps.len() ==> !((#[trigger] ps[i]).len() == 0 && ps[i + 1].len() == 0
            && ps[i + 2].len() == 0)
}

/// Number of empty lines at the end.
pub open spec fn trailing_blanks(ps: Seq<Seq<char>>) -> nat
    decreases ps.len(),
{
    if ps.len() > 0 && ps.last().len() == 0 {
        trailing_blanks(ps.drop_last()) + 1
    } else {
        0
    }
}

/// The lines without the empty lines at the end.
pub open spec fn drop_blank_tail(ps: Seq<Seq<char>>) -> Seq<Seq<char>>
    decreases ps.len(),
{
    if ps.len() > 0 && ps.last().len() == 0 {
        drop_blank_tail(ps.drop_last())
    } else {
        ps
    }
}

pub open spec fn well_assembled(st: Assembly) -> bool {
    &&& all_clean(st.pieces)
    &&& blank_runs_capped(st.pieces)
    &&& st.blanks == trailing_blanks(st.pieces)
    &&& st.blanks <= 2
}

proof fn lemma_trim_end_keeps(s: Seq<char>)
    requires
        no_lf(s),
    ensures
        no_border(s) ==> clean_piece(trim_end_ws(s)),
        no_lf(trim_end_ws(s)),
{
    lemma_trim_end_is_prefix(s);
    let t = trim_end_ws(s);
    assert forall|i: int| 0 <= i < t.len() implies #[trigger] t[i] == s[i] by {}
}

proof fn lemma_scrub_raw_chars(t: Seq<char>)
    requires
        no_lf(t),
    ensures
        no_lf(scrub_raw(t)),
        no_border(scrub_raw(t)),
    decreases t.len(),
{
    if t.len() > 0 {
        assert(no_lf(t.drop_last()));
        lemma_scrub_raw_chars(t.drop_last());
    }
}

proof fn lemma_scrub_raw_identity(t: Seq<char>)
    requires
        no_border(t),
    ensures
        scrub_raw(t) == t,
    decreases t.len(),
{
    if t.len() > 0 {
        assert(no_border(t.drop_last()));
        lemma_scrub_raw_identity(t.drop_last());
        assert(t.drop_last().push(t.last()) == t);
    }
}

proof fn lemma_strip_bom_suffix(s: Seq<char>) -> (k: int)
    ensures
        0 <= k <= s.len(),
        strip_bom(s) == s.skip(k),
        forall|i: int| 0 <= i < k ==> s[i] == '\u{feff}',
    decreases s.len(),
{
    if s.len() > 0 && s[0] == '\u{feff}' {
        let k1 = lemma_strip_bom_suffix(s.drop_first());
        assert(s.drop_first().skip(k1) == s.skip(k1 + 1));
        assert forall|i: int| 0 <= i < k1 + 1 implies s[i] == '\u{feff}' by {
            if i > 0 {
                assert(s[i] == s.drop_first()[i - 1]);
            }
        }
        k1 + 1
    } else {
        assert(s.skip(0) == s);
        0
    }
}

proof fn lemma_trim_end_border_prefix(s: Seq<char>)
    ensures
        trim_end_border(s).len() <= s.len(),
        trim_end_border(s) == s.take(trim_end_border(s).len() as int),
    decreases s.len(),
{
    if s.len() > 0 && borderish(s.last()) {
        lemma_trim_end_border_prefix(s.drop_last());
        assert(s.drop_last().take(trim_end_border(s).len() as int) == s.take(
            trim_end_border(s).len() as int,
        ));
    } else {
        assert(s.take(s.len() as int) == s);
    }
}

proof fn lemma_border_prefix_len_bound(s: Seq<char>)
    ensures
        border_prefix_len(s) <= s.len(),
    decreases s.len(),
{
    if s.len() > 0 && borderish(s[0]) {
        lemma_border_prefix_len_bound(s.drop_first());
    }
}

proof fn lemma_no_lf_subrange(s: Seq<char>, a: int, b: int)
    requires
        no_lf(s),
        0 <= a <= b <= s.len(),
    ensures
        no_lf(s.subrange(a, b)),
{
    assert forall|i: int| 0 <= i < b - a implies #[trigger] s.subrange(a, b)[i] != '\n' by {
        assert(s.subrange(a, b)[i] == s[a + i]);
    }
}

/// Whatever the assembler keeps of a line without line feeds is, trimmed, a
/// clean line.
proof fn lemma_cleaned_line_piece(line: Seq<char>)
    requires
        no_lf(line),
    ensures
        cleaned_line(line) matches Some(c) ==> clean_piece(trim_end_ws(c)),
{
    let u: Seq<char> = if unwrapped(line) is Some {
        unwrapped(line)->0
    } else if wrapper_content(line) is Some {
        wrapper_content(line)->0
    } else {
        line
    };
    if unwrapped(line) is Some {
        let k = lemma_strip_bom_suffix(line);
        let s = strip_bom(line);
        lemma_no_lf_subrange(line, k, line.len() as int);
        assert(s == line.subrange(k, line.len() as int));
        if s.len() > 0 {
            lemma_border_prefix_len_bound(s);
            let l = border_prefix_len(s);
            let left: int = if l < s.len() && s[l as int] == ' ' {
                (l + 1) as int
            } else {
                l as int
            };
            if left <= s.len() {
                lemma_no_lf_subrange(s, left, s.len() as int);
                assert(s.skip(left) == s.subrange(left, s.len() as int));
                let tb = trim_end_border(s.skip(left));
                lemma_trim_end_border_prefix(s.skip(left));
                lemma_no_lf_subrange(s.skip(left), 0, tb.len() as int);
                assert(tb == s.skip(left).subrange(0, tb.len() as int));
                lemma_trim_end_keeps(tb);
            }
        }
        assert(no_lf(u));
    } else if wrapper_content(line) is Some {
        lemma_trim_start_is_suffix(line);
        let w = line.len() - trim_start_ws(line).len();
        assert(w < line.len());
        let rest = line.skip(w + 1);
        lemma_no_lf_subrange(line, w + 1, line.len() as int);
        assert(rest == line.subrange(w + 1, line.len() as int));
        let body = if rest.len() > 0 && rest[0] == ' ' {
            rest.skip(1)
        } else {
            rest
        };
        if rest.len() > 0 && rest[0] == ' ' {
            lemma_no_lf_subrange(rest, 1, rest.len() as int);
            assert(rest.skip(1) == rest.subrange(1, rest.len() as int));
        }
        let k = crate::frame::shortest_content_len(body, 0);
        lemma_shortest_content_len_bound(body, 0);
        lemma_no_lf_subrange(body, 0, k as int);
        assert(body.take(k as int) == body.subrange(0, k as int));
        assert(no_lf(u));
    }
    lemma_scrub_raw_chars(u);
    lemma_trim_end_keeps(scrub_raw(u));
    let c = scrubbed(u);
    lemma_trim_end_keeps(c);
    lemma_trim_end_is_prefix(scrub_raw(u));
    assert forall|i: int| 0 <= i < c.len() implies !borderish(#[trigger] c[i]) by {
        assert(c[i] == scrub_raw(u)[i]);
    }
    lemma_trim_end_keeps(c);
}

proof fn lemma_shortest_content_len_bound(body: Seq<char>, from: nat)
    requires
        from <= body.len(),
    ensures
        from <= crate::frame::shortest_content_len(body, from) <= body.len(),
    decreases body.len() - from,
{
    if from < body.len() && !crate::frame::wrapper_tail(body.skip(from as int)) {
        lemma_shortest_content_len_bound(body, from + 1);
    }
}

proof fn lemma_step_well_assembled(st: Assembly, line: Seq<char>)
    requires
        well_assembled(st),
        no_lf(line),
    ensures
        well_assembled(step(st, line)),
{
    lemma_cleaned_line_piece(line);
    match cleaned_line(line) {
        Some(c) => {
            let t = trim_end_ws(c);
            let ps = st.pieces.push(t);
            let nst = emit(st, c);
            if t.len() == 0 && st.blanks >= 2 {
            } else {
                assert(ps.drop_last() == st.pieces);
                assert forall|i: int| 0 <= i < ps.len() implies clean_piece(#[trigger] ps[i]) by {
                    if i < st.pieces.len() {
                        assert(ps[i] == st.pieces[i]);
                    }
                }
                assert forall|i: int|
                    0 <= i && i + 2 < ps.len() implies !((#[trigger] ps[i]).len() == 0 && ps[i
                    + 1].len() == 0 && ps[i + 2].len() == 0) by {
                    if i + 2 < st.pieces.len() {
                        assert(ps[i] == st.pieces[i]);
                        assert(ps[i + 1] == st.pieces[i + 1]);
                        assert(ps[i + 2] == st.pieces[i + 2]);
                    } else if t.len() == 0 {
                        // The last two lines before this blank one are not both blank.
                        let q = st.pieces;
                        if q.len() >= 2 && q.last().len() == 0 && q[q.len() - 2].len() == 0 {
                            assert(q.drop_last().last() == q[q.len() - 2]);
                            assert(trailing_blanks(q.drop_last()) >= 1);
                            assert(trailing_blanks(q) >= 2);
                        }
                        assert(ps[i] == q[i]);
                        assert(ps[i + 1] == q[i + 1]);
                    }
                }
            }
        },
        None => {},
    }
}

proof fn lemma_lines_no_lf(s: Seq<char>, p: int)
    ensures
        forall|i: int| 0 <= i < lines_from(s, p).len() ==> no_lf(#[trigger] lines_from(s, p)[i]),
    decreases s.len() - p,
{
    if 0 <= p < s.len() {
        crate::pipeline::lemma_line_end_bounds(s, p);
        let e = line_end(s, p);
        assert forall|i: int| 0 <= i < e - p implies #[trigger] s.subrange(p, e)[i] != '\n' by {
            assert(s.subrange(p, e)[i] == s[p + i]);
        }
        if e < s.len() {
            lemma_lines_no_lf(s, e + 1);
            let first = strip_cr(s.subrange(p, e));
            assert forall|i: int| 0 <= i < first.len() implies #[trigger] first[i] != '\n' by {
                assert(first[i] == s.subrange(p, e)[i]);
            }
            let ls = lines_from(s, p);
            assert forall|i: int| 0 <= i < ls.len() implies no_lf(#[trigger] ls[i]) by {
                if i > 0 {
                    assert(ls[i] == lines_from(s, e + 1)[i - 1]);
                }
            }
        }
    }
}

proof fn lemma_assemble_well_assembled(st: Assembly, ls: Seq<Seq<char>>)
    requires
        well_assembled(st),
        forall|i: int| 0 <= i < ls.len() ==> no_lf(#[trigger] ls[i]),
    ensures
        well_assembled(assemble(st, ls)),
    decreases ls.len(),
{
    if ls.len() > 0 {
        assert(no_lf(ls[0]));
        lemma_step_well_assembled(st, ls[0]);
        assert forall|i: int| 0 <= i < ls.drop_first().len() implies no_lf(
            #[trigger] ls.drop_first()[i],
        ) by {
            assert(ls.drop_first()[i] == ls[i + 1]);
        }
        lemma_assemble_well_assembled(step(st, ls[0]), ls.drop_first());
    }
}

proof fn lemma_join_cons(a: Seq<char>, r: Seq<Seq<char>>)
    requires
        r.len() > 0,
    ensures
        join(seq![a] + r) == a + seq!['\n'] + join(r),
    decreases r.len(),
{
    let ps = seq![a] + r;
    assert(ps.drop_last() == seq![a] + r.drop_last());
    assert(ps.last() == r.last());
    assert(ps.len() >= 2);
    assert(join(ps) == join(ps.drop_last()) + seq!['\n'] + ps.last());
    if r.len() == 1 {
        assert(seq![a] + r.drop_last() == seq![a]);
        assert(join(seq![a]) == a);
        assert(join(r) == r[0]);
    } else {
        assert(join(r) == join(r.drop_last()) + seq!['\n'] + r.last());
        lemma_join_cons(a, r.drop_last());
        assert(a + seq!['\n'] + join(r.drop_last()) + seq!['\n'] + r.last() == a + seq!['\n'] + (
        join(r.drop_last()) + seq!['\n'] + r.last()));
    }
}

proof fn lemma_line_end_shift(x: Seq<char>, y: Seq<char>, q: int)
    requires
        0 <= q <= y.len(),
    ensures
        line_end(x + y, x.len() + q) == x.len() + line_end(y, q),
    decreases y.len() - q,
{
    if q < y.len() && y[q] != '\n' {
        assert((x + y)[x.len() + q] == y[q]);
        lemma_line_end_shift(x, y, q + 1);
    } else if q < y.len() {
        assert((x + y)[x.len() + q] == y[q]);
    }
}

proof fn lemma_lines_shift(x: Seq<char>, y: Seq<char>, q: int)
    requires
        0 <= q <= y.len(),
    ensures
        lines_from(x + y, x.len() + q) == lines_from(y, q),
    decreases y.len() - q,
{
    if q < y.len() {
        lemma_line_end_shift(x, y, q);
        crate::pipeline::lemma_line_end_bounds(y, q);
        let e = line_end(y, q);
        assert((x + y).subrange(x.len() + q, x.len() + e) == y.subrange(q, e));
        if e < y.len() {
            lemma_lines_shift(x, y, e + 1);
        }
    }
}

proof fn lemma_line_end_no_lf(s: Seq<char>, p: int)
    requires
        0 <= p <= s.len(),
        no_lf(s),
    ensures
        line_end(s, p) == s.len(),
    decreases s.len() - p,
{
    if p < s.len() {
        lemma_line_end_no_lf(s, p + 1);
    }
}

/// A line that a text can be rebuilt from: no line feed, and no carriage
/// return at its end.
pub open spec fn joinable(l: Seq<char>) -> bool {
    no_lf(l) && (l.len() > 0 ==> l.last() != '\r')
}

proof fn lemma_clean_joinable(ps: Seq<Seq<char>>)
    requires
        all_clean(ps),
    ensures
        forall|i: int| 0 <= i < ps.len() ==> joinable(#[trigger] ps[i]),
{
    assert forall|i: int| 0 <= i < ps.len() implies joinable(#[trigger] ps[i]) by {
        assert(clean_piece(ps[i]));
    }
}

/// The lines of joined lines are those lines, where the last is not
/// empty.
proof fn lemma_lines_join(ps: Seq<Seq<char>>)
    requires
        forall|i: int| 0 <= i < ps.len() ==> joinable(#[trigger] ps[i]),
        ps.len() == 0 || ps.last().len() > 0,
    ensures
        lines(join(ps)) == ps,
    decreases ps.len(),
{
    if ps.len() == 0 {
        return;
    }
    let a = ps[0];
    let r = ps.drop_first();
    assert(joinable(a));
    assert(ps == seq![a] + r);
    if r.len() == 0 {
        assert(ps == seq![a]);
        lemma_line_end_no_lf(a, 0);
        assert(a.subrange(0, a.len() as int) == a);
    } else {
        assert forall|i: int| 0 <= i < r.len() implies joinable(#[trigger] r[i]) by {
            assert(r[i] == ps[i + 1]);
        }
        lemma_lines_join(r);
        lemma_join_cons(a, r);
        let x = a + seq!['\n'];
        let s = x + join(r);
        assert(join(ps) == s);
        lemma_line_end_shift(a, seq!['\n'] + join(r), 0);
        assert(a + (seq!['\n'] + join(r)) == s);
        assert((seq!['\n'] + join(r))[0] == '\n');
        lemma_line_end_no_lf(a, 0);
        // The first line feed stands right after `a`.
        assert forall|k: int| 0 <= k <= a.len() implies line_end(s, k) == a.len() by {
            lemma_line_end_at(s, k, a.len() as int);
        }
        assert(s.subrange(0, a.len() as int) == a);
        assert(strip_cr(a) == a);
        lemma_lines_shift(x, join(r), 0);
        assert(lines_from(s, 0) == seq![a] + lines_from(s, a.len() as int + 1));
    }
}

/// `line_end` from `p` is `e` where `e` holds the first line feed from `p`.
proof fn lemma_line_end_at(s: Seq<char>, p: int, e: int)
    requires
        0 <= p <= e < s.len(),
        s[e] == '\n',
        forall|k: int| p <= k < e ==> s[k] != '\n',
    ensures
        line_end(s, p) == e,
    decreases e - p,
{
    if p < e {
        lemma_line_end_at(s, p + 1, e);
    }
}

proof fn lemma_drop_blank_tail(ps: Seq<Seq<char>>)
    requires
        all_clean(ps),
    ensures
        trim_end_ws(join(ps)) == join(drop_blank_tail(ps)),
        drop_blank_tail(ps).len() <= ps.len(),
        drop_blank_tail(ps) == ps.take(drop_blank_tail(ps).len() as int),
        drop_blank_tail(ps).len() == 0 || drop_blank_tail(ps).last().len() > 0,
    decreases ps.len(),
{
    if ps.len() > 0 && ps.last().len() == 0 {
        let q = ps.drop_last();
        assert forall|i: int| 0 <= i < q.len() implies clean_piece(#[trigger] q[i]) by {
            assert(q[i] == ps[i]);
        }
        lemma_drop_blank_tail(q);
        if ps.len() >= 2 {
            let j = join(q) + seq!['\n'] + ps.last();
            assert(j == join(q).push('\n'));
            assert(j.drop_last() == join(q));
        }
        assert(q.take(drop_blank_tail(q).len() as int) == ps.take(drop_blank_tail(q).len() as int));
    } else {
        assert(ps.take(ps.len() as int) == ps);
        if ps.len() > 0 {
            lemma_join_last(ps);
        }
    }
}

/// The joined text ends with the last line, when that is not empty.
proof fn lemma_join_last(ps: Seq<Seq<char>>)
    requires
        ps.len() > 0,
        ps.last().len() > 0,
        clean_piece(ps.last()),
    ensures
        join(ps).len() > 0,
        join(ps).last() == ps.last().last(),
        trim_end_ws(join(ps)) == join(ps),
{
}

/// The assembler's output is its lines joined, with no empty line at
/// the end; those lines are clean and hold no three empty lines in a row.
proof fn lemma_strip_tui_shape(a: Seq<char>) -> (ps: Seq<Seq<char>>)
    ensures
        strip_tui(a) == join(ps),
        trim_end_ws(join(ps)) == join(ps),
        all_clean(ps),
        blank_runs_capped(ps),
        ps.len() == 0 || ps.last().len() > 0,
{
    lemma_lines_no_lf(a, 0);
    lemma_assemble_well_assembled(initial_assembly(), lines(a));
    let full = assemble(initial_assembly(), lines(a)).pieces;
    lemma_drop_blank_tail(full);
    let ps = drop_blank_tail(full);
    assert forall|i: int| 0 <= i < ps.len() implies clean_piece(#[trigger] ps[i]) by {
        assert(ps[i] == full[i]);
    }
    assert forall|i: int|
        0 <= i && i + 2 < ps.len() implies !((#[trigger] ps[i]).len() == 0 && ps[i + 1].len()
        == 0 && ps[i + 2].len() == 0) by {
        assert(ps[i] == full[i]);
        assert(ps[i + 1] == full[i + 1]);
        assert(ps[i + 2] == full[i + 2]);
    }
    if ps.len() > 0 {
        lemma_join_last(ps);
    }
    ps
}

/// The cleaned text never holds more than two blank lines in a row.
pub proof fn lemma_blank_lines_capped(x: Seq<char>)
    ensures
        forall|i: int|
            0 <= i && i + 2 < lines(clean(x)).len() ==> !((#[trigger] lines(clean(x))[i]).len()
                == 0 && lines(clean(x))[i + 1].len() == 0 && lines(clean(x))[i + 2].len() == 0),
{
    let vs = variants(x);
    let ps0 = lemma_strip_tui_shape(ansi_stripped(vs[0]));
    if vs.len() > 1 {
        let ps1 = lemma_strip_tui_shape(ansi_stripped(vs[1]));
        lemma_clean_joinable(ps1);
        lemma_lines_join(ps1);
    }
    lemma_clean_joinable(ps0);
    lemma_lines_join(ps0);
}

/// A non-empty line of byte-order marks only.
pub open spec fn bom_only(l: Seq<char>) -> bool {
    l.len() > 0 && forall|k: int| 0 <= k < l.len() ==> l[k] == '\u{feff}'
}

proof fn lemma_no_border_count(t: Seq<char>)
    requires
        no_border(t),
    ensures
        border_count(t) == 0,
    decreases t.len(),
{
    if t.len() > 0 {
        assert(no_border(t.drop_last()));
        lemma_no_border_count(t.drop_last());
    }
}

proof fn lemma_clean_piece_trim(p: Seq<char>)
    requires
        clean_piece(p),
    ensures
        trim_end_ws(p) == p,
{
}

/// A line that the assembler keeps whole but for its trailing whitespace:
/// no line feed, no border-ish character, not made of byte-order marks only,
/// and not whitespace only unless it is empty.
pub open spec fn plain_content_line(l: Seq<char>) -> bool {
    &&& no_lf(l)
    &&& no_border(l)
    &&& !bom_only(l)
    &&& l.len() == 0 || !crate::text::all_white(l)
}

/// The lines with their trailing whitespace dropped.
pub open spec fn trimmed_lines(ls: Seq<Seq<char>>) -> Seq<Seq<char>> {
    ls.map_values(|l: Seq<char>| trim_end_ws(l))
}

/// The assembler keeps a plain content line, trailing whitespace aside.
proof fn lemma_plain_line_kept(p: Seq<char>)
    requires
        plain_content_line(p),
    ensures
        cleaned_line(p) == Some(trim_end_ws(p)),
        trim_end_ws(p).len() == 0 <==> p.len() == 0,
        trim_end_ws(trim_end_ws(p)) == trim_end_ws(p),
        clean_piece(trim_end_ws(p)),
{
    lemma_trim_end_is_prefix(p);
    lemma_trim_end_keeps(p);
    let tp = trim_end_ws(p);
    if tp.len() == 0 && p.len() > 0 {
        assert forall|i: int| 0 <= i < p.len() implies white_space(#[trigger] p[i]) by {
            assert(p[i] == p.skip(0)[i]);
        }
    }
    let b = lemma_trim_ws_range(p);
    let t = trim_ws(p);
    assert forall|i: int| 0 <= i < t.len() implies !borderish(#[trigger] t[i]) by {
        assert(t[i] == p[b + i]);
    }
    lemma_no_border_count(t);
    assert(!border_dominated(p));
    if p.len() > 0 {
        let k = choose|k: int| 0 <= k < p.len() && !white_space(p[k]);
        assert(!frame_glyph(p[k]));
        assert(!pure_border_line(p));
    }
    assert forall|j: int| 0 <= j < p.len() implies !crate::border::closing_corner(
        #[trigger] p[j],
    ) by {
        assert(!borderish(p[j]));
    }
    assert(!titled_border_line(p));
    let k = lemma_strip_bom_suffix(p);
    let st = strip_bom(p);
    if st.len() == 0 {
        assert(p.len() == 0);
        assert(scrub_raw(Seq::<char>::empty()) == Seq::<char>::empty());
        assert(p == Seq::<char>::empty());
    } else {
        assert(st[0] == p[k]);
        assert(border_prefix_len(st) == 0);
        assert(unwrapped(p) is None);
        lemma_trim_start_is_suffix(p);
        let w = p.len() - trim_start_ws(p).len();
        if w < p.len() {
            assert(!wrapper_bar(p[w]));
        }
        assert(wrapper_content(p) is None);
        lemma_scrub_raw_identity(p);
    }
}

proof fn lemma_trailing_blanks_two(q: Seq<Seq<char>>)
    requires
        trailing_blanks(q) >= 2,
    ensures
        q.len() >= 2,
        q[q.len() - 1].len() == 0,
        q[q.len() - 2].len() == 0,
{
    assert(q.len() > 0 && q.last().len() == 0);
    let r = q.drop_last();
    assert(trailing_blanks(r) >= 1);
    assert(r.len() > 0 && r.last().len() == 0);
    assert(r.last() == q[q.len() - 2]);
}

proof fn lemma_assemble_reproduces(st: Assembly, ls: Seq<Seq<char>>)
    requires
        well_assembled(st),
        forall|i: int| 0 <= i < ls.len() ==> plain_content_line(#[trigger] ls[i]),
        blank_runs_capped(st.pieces + trimmed_lines(ls)),
    ensures
        assemble(st, ls).pieces == st.pieces + trimmed_lines(ls),
    decreases ls.len(),
{
    let tls = trimmed_lines(ls);
    if ls.len() == 0 {
        assert(st.pieces + tls == st.pieces);
        return;
    }
    let p = ls[0];
    assert(plain_content_line(p));
    lemma_plain_line_kept(p);
    let tp = trim_end_ws(p);
    let q = st.pieces;
    let all = q + tls;
    assert(tls[0] == tp);
    if tp.len() == 0 && st.blanks >= 2 {
        lemma_trailing_blanks_two(q);
        assert(all[q.len() - 2] == q[q.len() - 2]);
        assert(all[q.len() - 1] == q[q.len() - 1]);
        assert(all[q.len() as int] == tp);
        assert(false);
    }
    let nst = step(st, p);
    assert(nst.pieces == q.push(tp));
    assert(no_lf(p));
    lemma_step_well_assembled(st, p);
    let rest = ls.drop_first();
    assert(tls.drop_first() == trimmed_lines(rest));
    assert(q.push(tp) + trimmed_lines(rest) == all);
    assert forall|i: int| 0 <= i < rest.len() implies plain_content_line(#[trigger] rest[i]) by {
        assert(rest[i] == ls[i + 1]);
    }
    lemma_assemble_reproduces(nst, rest);
}

/// Cleaning is idempotent on texts whose cleaning leaves no escape sequence
/// behind: cleaning the cleaned text again changes nothing. Left out are the
/// texts on which it is not: those whose cleaned form starts with a
/// byte-order mark or holds a line of byte-order marks only (a second pass
/// drops them), and those whose cleaned form is itself mojibake that a
/// second pass would recover.
pub proof fn lemma_clean_idempotent(x: Seq<char>)
    requires
        ansi_stripped(clean(x)) == clean(x),
        clean(x).len() > 0 ==> clean(x)[0] != '\u{feff}',
        forall|i: int| 0 <= i < lines(clean(x)).len() ==> !bom_only(#[trigger] lines(clean(x))[i]),
        variants(clean(x)).len() > 1 ==> crate::pipeline::score(
            cleaned_variant(variants(clean(x))[1]),
        ) <= crate::pipeline::score(clean(x)),
    ensures
        clean(clean(x)) == clean(x),
{
    let vs = variants(x);
    let ps0 = lemma_strip_tui_shape(ansi_stripped(vs[0]));
    let ps = if vs.len() > 1 && crate::pipeline::score(cleaned_variant(vs[1]))
        > crate::pipeline::score(cleaned_variant(vs[0])) {
        lemma_strip_tui_shape(ansi_stripped(vs[1]))
    } else {
        ps0
    };
    let y = clean(x);
    assert(y == join(ps));
    lemma_clean_joinable(ps);
    lemma_lines_join(ps);
    assert(strip_bom(y) == y);
    assert(variants(y)[0] == y);
    assert forall|i: int| 0 <= i < ps.len() implies plain_content_line(#[trigger] ps[i]) by {
        let p = ps[i];
        assert(clean_piece(p));
        assert(!bom_only(lines(y)[i]));
        if p.len() > 0 {
            assert(!white_space(p[p.len() - 1]));
        }
    }
    assert(trimmed_lines(ps) == ps) by {
        assert forall|i: int| 0 <= i < ps.len() implies #[trigger] trimmed_lines(ps)[i] == ps[i] by {
            lemma_clean_piece_trim(ps[i]);
        }
    }
    assert(initial_assembly().pieces + ps == ps);
    lemma_assemble_reproduces(initial_assembly(), ps);
    assert(strip_tui(y) == y);
    assert(cleaned_variant(y) == y);
}

proof fn lemma_join_no_border(ps: Seq<Seq<char>>)
    requires
        all_clean(ps),
    ensures
        no_border(join(ps)),
    decreases ps.len(),
{
    if ps.len() > 1 {
        let q = ps.drop_last();
        assert forall|i: int| 0 <= i < q.len() implies clean_piece(#[trigger] q[i]) by {
            assert(q[i] == ps[i]);
        }
        lemma_join_no_border(q);
        let j = join(q) + seq!['\n'] + ps.last();
        assert(clean_piece(ps.last()));
        assert forall|i: int| 0 <= i < j.len() implies !borderish(#[trigger] j[i]) by {
            if i < join(q).len() {
                assert(j[i] == join(q)[i]);
            } else if i > join(q).len() {
                assert(j[i] == ps.last()[i - join(q).len() - 1]);
            }
        }
    } else if ps.len() == 1 {
        assert(clean_piece(ps[0]));
    }
}

/// The cleaned text never holds a border-ish character: no border glyph and
/// none of the Latin-1 letters that mojibake makes of one.
pub proof fn lemma_clean_has_no_border(x: Seq<char>)
    ensures
        forall|i: int| 0 <= i < clean(x).len() ==> !borderish(#[trigger] clean(x)[i]),
{
    let vs = variants(x);
    let ps0 = lemma_strip_tui_shape(ansi_stripped(vs[0]));
    lemma_join_no_border(ps0);
    if vs.len() > 1 {
        let ps1 = lemma_strip_tui_shape(ansi_stripped(vs[1]));
        lemma_join_no_border(ps1);
    }
}

/// Where UTF-8 text has been read as Windows-1252, cleaning the corrupted
/// text weighs the original text itself as its second reading.
pub proof fn lemma_mojibake_original_is_a_reading(t: Seq<char>)
    requires
        cp1252_decoded(encode_utf8(t)) != t,
    ensures
        variants(cp1252_decoded(encode_utf8(t))) == seq![cp1252_decoded(encode_utf8(t)), t],
{
    let m = cp1252_decoded(encode_utf8(t));
    lemma_mojibake_round_trip(t);
    if m.len() > 0 {
        assert(m[0] != '\u{feff}');
    }
    assert(strip_bom(m) == m);
}

/// The line assembler's output never holds more than two blank lines in a
/// row.
pub proof fn lemma_strip_tui_blank_lines_capped(s: Seq<char>)
    ensures
        forall|i: int|
            0 <= i && i + 2 < lines(strip_tui(s)).len() ==> !((#[trigger] lines(
                strip_tui(s),
            )[i]).len() == 0 && lines(strip_tui(s))[i + 1].len() == 0 && lines(strip_tui(s))[i
                + 2].len() == 0),
{
    let ps = lemma_strip_tui_shape(s);
    lemma_clean_joinable(ps);
    lemma_lines_join(ps);
}

/// The line assembler's output holds no border-ish character.
pub proof fn lemma_strip_tui_has_no_border(s: Seq<char>)
    ensures
        forall|i: int| 0 <= i < strip_tui(s).len() ==> !borderish(#[trigger] strip_tui(s)[i]),
{
    let ps = lemma_strip_tui_shape(s);
    lemma_join_no_border(ps);
}

/// A text whose lines hold no border-ish character (nor only byte-order
/// marks, nor only whitespace unless empty), with no three empty lines in a
/// row, passes the assembler with nothing changed but trailing whitespace:
/// unframed lines, such as table rows with `|`, are kept verbatim.
pub proof fn lemma_plain_lines_kept(s: Seq<char>)
    requires
        forall|i: int| 0 <= i < lines(s).len() ==> plain_content_line(#[trigger] lines(s)[i]),
        blank_runs_capped(lines(s)),
    ensures
        strip_tui(s) == trim_end_ws(join(trimmed_lines(lines(s)))),
{
    let ls = lines(s);
    let tls = trimmed_lines(ls);
    assert forall|i: int|
        0 <= i && i + 2 < tls.len() implies !((#[trigger] tls[i]).len() == 0 && tls[i + 1].len()
        == 0 && tls[i + 2].len() == 0) by {
        lemma_plain_line_kept(ls[i]);
        lemma_plain_line_kept(ls[i + 1]);
        lemma_plain_line_kept(ls[i + 2]);
    }
    assert(initial_assembly().pieces + tls == tls);
    lemma_assemble_reproduces(initial_assembly(), ls);
}

/// A non-empty line of whitespace and border-ish characters, none of them
/// alphanumeric.
pub open spec fn border_only(line: Seq<char>) -> bool {
    &&& line.len() > 0
    &&& forall|i: int| 0 <= i < line.len() ==> white_space(#[trigger] line[i]) || borderish(line[i])
    &&& forall|i: int| 0 <= i < line.len() ==> !alphanumeric(#[trigger] line[i])
}

/// What the assembler makes of a sequence of lines.
pub open spec fn lines_text(ls: Seq<Seq<char>>) -> Seq<char> {
    trim_end_ws(join(assemble(initial_assembly(), ls).pieces))
}

proof fn lemma_assemble_skips(st: Assembly, ls: Seq<Seq<char>>, i: int)
    requires
        0 <= i < ls.len(),
        border_only(ls[i]),
    ensures
        assemble(st, ls) == assemble(st, ls.remove(i)),
    decreases i,
{
    if i == 0 {
        lemma_border_only_line_dropped(ls[0], st);
        assert(ls.remove(0) == ls.drop_first());
    } else {
        let r = ls.drop_first();
        assert(r[i - 1] == ls[i]);
        lemma_assemble_skips(step(st, ls[0]), r, i - 1);
        assert(ls.remove(i).drop_first() == r.remove(i - 1));
        assert(ls.remove(i)[0] == ls[0]);
    }
}

/// A line of whitespace and border glyphs is removed entirely: the text
/// cleans as if the line were not there, adding no text, no line feed and
/// no blank line. Where the remaining lines can be joined back into a text,
/// that text cleans the same.
pub proof fn lemma_border_only_line_removed(s: Seq<char>, i: int)
    requires
        0 <= i < lines(s).len(),
        border_only(lines(s)[i]),
    ensures
        strip_tui(s) == lines_text(lines(s).remove(i)),
        ({
            let r = lines(s).remove(i);
            (forall|k: int| 0 <= k < r.len() ==> joinable(#[trigger] r[k])) && (r.len() == 0
                || r.last().len() > 0) ==> strip_tui(s) == strip_tui(join(r))
        }),
{
    lemma_assemble_skips(initial_assembly(), lines(s), i);
    let r = lines(s).remove(i);
    if (forall|k: int| 0 <= k < r.len() ==> joinable(#[trigger] r[k])) && (r.len() == 0
        || r.last().len() > 0) {
        lemma_lines_join(r);
    }
}

} // verus!
