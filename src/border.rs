//! Deciding whether a character, or a whole line, is border drawing.
use vstd::prelude::*;
use crate::text::{
    all_white, control, alphanumeric, white_space, trim_ws, trim_end_index, trim_start_index,
    lemma_trim_end_is_prefix, is_white_space, is_control_char,
};

verus! {

/// Box-drawing and block glyphs, the intersection sign, and the Latin-1
/// letters that those glyphs turn into when their UTF-8 bytes are read as
/// Windows-1252. The question mark is deliberately not among them.
pub open spec fn borderish(c: char) -> bool {
    let u = c as u32;
    ||| 0x2500 <= u <= 0x257F  // box drawing, the junction and corner glyphs included
    ||| 0x2580 <= u <= 0x259F  // block elements and shades
    ||| c == '∩'
    ||| c == 'â' || c == 'Ã' || c == 'ã' || c == 'Â' || c == 'ï' || c == '»' || c == '¿'
}

/// The question mark is punctuation, never border-ish, though it turns up
/// among corrupted border fragments.
pub proof fn lemma_question_mark_not_borderish()
    ensures
        !borderish('?'),
{
}

pub fn is_borderish(ch: char) -> (r: bool)
    ensures
        r == borderish(ch),
{
    let u = ch as u32;
    (0x2500 <= u && u <= 0x257F) || (0x2580 <= u && u <= 0x259F) || ch == '∩' || ch == 'â' || ch
        == 'Ã' || ch == 'ã' || ch == 'Â' || ch == 'ï' || ch == '»' || ch == '¿'
}

/// Number of non-control characters.
pub open spec fn visible_count(t: Seq<char>) -> nat
    decreases t.len(),
{
    if t.len() == 0 {
        0
    } else {
        visible_count(t.drop_last()) + if control(t.last()) {
            0nat
        } else {
            1nat
        }
    }
}

/// Number of non-control border-ish characters.
pub open spec fn border_count(t: Seq<char>) -> nat
    decreases t.len(),
{
    if t.len() == 0 {
        0
    } else {
        border_count(t.drop_last()) + if !control(t.last()) && borderish(t.last()) {
            1nat
        } else {
            0nat
        }
    }
}

/// Number of non-control alphanumeric characters.
pub open spec fn alnum_count(t: Seq<char>) -> nat
    decreases t.len(),
{
    if t.len() == 0 {
        0
    } else {
        alnum_count(t.drop_last()) + if !control(t.last()) && alphanumeric(t.last()) {
            1nat
        } else {
            0nat
        }
    }
}

/// Length of the run of border-ish characters that `t` ends with, control
/// characters being passed over.
pub open spec fn border_run_at_end(t: Seq<char>) -> nat
    decreases t.len(),
{
    if t.len() == 0 {
        0
    } else if control(t.last()) {
        border_run_at_end(t.drop_last())
    } else if borderish(t.last()) {
        border_run_at_end(t.drop_last()) + 1
    } else {
        0
    }
}

/// Longest run of border-ish characters in `t`, control characters being
/// passed over.
pub open spec fn longest_border_run(t: Seq<char>) -> nat
    decreases t.len(),
{
    if t.len() == 0 {
        0
    } else {
        let before = longest_border_run(t.drop_last());
        let here = border_run_at_end(t);
        if here > before {
            here
        } else {
            before
        }
    }
}

/// `t` starts and ends with a border-ish character.
pub open spec fn framed_by_border(t: Seq<char>) -> bool {
    t.len() > 0 && borderish(t[0]) && borderish(t.last())
}

/// Border-ish characters make up at least three quarters of the visible ones.
pub open spec fn border_ratio_high(t: Seq<char>) -> bool {
    border_count(t) * 4 >= visible_count(t) * 3
}

/// Framed, with more border-ish than alphanumeric characters.
pub open spec fn border_frames_text(t: Seq<char>) -> bool {
    framed_by_border(t) && border_count(t) > alnum_count(t)
}

/// Framed, with border-ish characters at least half of the visible ones.
pub open spec fn border_dominates(t: Seq<char>) -> bool {
    framed_by_border(t) && border_count(t) * 2 >= visible_count(t)
}

/// Framed, with a run of three border-ish characters and border-ish
/// characters more than half of the visible ones.
pub open spec fn strong_border_run(t: Seq<char>) -> bool {
    framed_by_border(t) && longest_border_run(t) >= 3 && border_count(t) * 2 > visible_count(t)
}

/// The line, trimmed, has visible characters and meets one of the four
/// alternatives.
pub open spec fn border_dominated(line: Seq<char>) -> bool {
    let t = trim_ws(line);
    &&& t.len() > 0
    &&& visible_count(t) > 0
    &&& {
        ||| border_ratio_high(t)
        ||| border_frames_text(t)
        ||| border_dominates(t)
        ||| strong_border_run(t)
    }
}

proof fn lemma_counts_bounded(t: Seq<char>)
    ensures
        border_count(t) <= visible_count(t) <= t.len(),
        alnum_count(t) <= visible_count(t),
        border_run_at_end(t) <= t.len(),
        longest_border_run(t) <= t.len(),
    decreases t.len(),
{
    if t.len() > 0 {
        lemma_counts_bounded(t.drop_last());
    }
}

pub fn is_mostly_borderish(line: &Vec<char>) -> (r: bool)
    ensures
        r == border_dominated(line@),
{
    let e = trim_end_index(line, 0, line.len());
    let b = trim_start_index(line, 0, e);
    proof {
        assert(line@.subrange(0, line.len() as int) == line@);
        assert(line@.subrange(0, e as int).subrange(b as int, e as int) == line@.subrange(
            b as int,
            e as int,
        ));
    }
    let ghost t = line@.subrange(b as int, e as int);
    assert(t == trim_ws(line@));
    if b == e {
        return false;
    }
    let mut border: usize = 0;
    let mut alnum: usize = 0;
    let mut printable: usize = 0;
    let mut longest_run: usize = 0;
    let mut current_run: usize = 0;
    let mut i = b;
    while i < e
        invariant
            b <= i <= e <= line.len(),
            t == line@.subrange(b as int, e as int),
            border == border_count(line@.subrange(b as int, i as int)),
            alnum == alnum_count(line@.subrange(b as int, i as int)),
            printable == visible_count(line@.subrange(b as int, i as int)),
            current_run == border_run_at_end(line@.subrange(b as int, i as int)),
            longest_run == longest_border_run(line@.subrange(b as int, i as int)),
        decreases e - i,
    {
        let ghost before = line@.subrange(b as int, i as int);
        let ch = line[i];
        proof {
            let after = line@.subrange(b as int, i + 1);
            assert(after.drop_last() == before);
            lemma_counts_bounded(before);
        }
        if !is_control_char(ch) {
            printable += 1;
            if is_borderish(ch) {
                border += 1;
                current_run += 1;
                if current_run > longest_run {
                    longest_run = current_run;
                }
            } else {
                current_run = 0;
            }
            if ch.is_alphanumeric() {
                alnum += 1;
            }
        }
        i += 1;
    }
    assert(line@.subrange(b as int, i as int) == t);
    if printable == 0 {
        return false;
    }
    let starts_with_border = is_borderish(line[b]);
    let ends_with_border = is_borderish(line[e - 1]);
    let framed = starts_with_border && ends_with_border;
    let border_ratio_high = border as u128 * 4 >= printable as u128 * 3;
    let border_frames_text = framed && border > alnum;
    let border_dominates = framed && border as u128 * 2 >= printable as u128;
    let strong_border_run = framed && longest_run >= 3 && border as u128 * 2
        > printable as u128;
    border_ratio_high || border_frames_text || border_dominates || strong_border_run
}

/// The corner and straight glyphs that a pure border line is drawn with.
pub open spec fn frame_glyph(c: char) -> bool {
    c == '╭' || c == '╮' || c == '╰' || c == '╯' || c == '─' || c == '═' || c == '━' || c == '┌'
        || c == '┐' || c == '└' || c == '┘'
}

/// A non-empty line of whitespace and frame glyphs only.
pub open spec fn pure_border_line(line: Seq<char>) -> bool {
    line.len() > 0 && forall|i: int| 0 <= i < line.len() ==> white_space(#[trigger] line[i])
        || frame_glyph(line[i])
}

pub fn is_pure_border_line(line: &Vec<char>) -> (r: bool)
    ensures
        r == pure_border_line(line@),
{
    if line.len() == 0 {
        return false;
    }
    let mut i: usize = 0;
    while i < line.len()
        invariant
            i <= line.len(),
            forall|k: int| 0 <= k < i ==> white_space(#[trigger] line@[k]) || frame_glyph(
                line@[k],
            ),
        decreases line.len() - i,
    {
        let c = line[i];
        if !(is_white_space(c) || c == '╭' || c == '╮' || c == '╰' || c == '╯' || c == '─' || c
            == '═' || c == '━' || c == '┌' || c == '┐' || c == '└' || c == '┘') {
            return false;
        }
        i += 1;
    }
    true
}

/// A corner that opens a titled border line.
pub open spec fn opening_corner(c: char) -> bool {
    c == '╭' || c == '┌' || c == '╰' || c == '└'
}

/// A corner that closes a titled border line.
pub open spec fn closing_corner(c: char) -> bool {
    c == '╮' || c == '┐' || c == '╯' || c == '┘'
}

/// A horizontal bar glyph.
pub open spec fn bar_glyph(c: char) -> bool {
    c == '─' || c == '═' || c == '━'
}

/// A line that opens with whitespace or a corner, holds a run of three
/// horizontal bars after that, and closes with a corner followed by nothing
/// but whitespace; any title text may stand around the bars.
pub open spec fn titled_border_line(line: Seq<char>) -> bool {
    &&& line.len() > 0
    &&& white_space(line[0]) || opening_corner(line[0])
    &&& exists|i: int, j: int|
        1 <= i && i + 3 <= j < line.len() && bar_glyph(#[trigger] line[i]) && bar_glyph(line[i + 1])
            && bar_glyph(line[i + 2]) && closing_corner(#[trigger] line[j]) && all_white(
            line.skip(j + 1),
        )
}

pub fn is_titled_border_line(line: &Vec<char>) -> (r: bool)
    ensures
        r == titled_border_line(line@),
{
    if line.len() == 0 {
        return false;
    }
    if !(is_white_space(line[0]) || line[0] == '╭' || line[0] == '┌' || line[0] == '╰' || line[0]
        == '└') {
        return false;
    }
    let e = trim_end_index(line, 0, line.len());
    proof {
        assert(line@.subrange(0, line.len() as int) == line@);
        lemma_trim_end_is_prefix(line@);
        assert(line@.subrange(0, e as int) == line@.take(e as int));
    }
    // The closing corner can only be the last character that is not whitespace.
    assert forall|j: int| 0 <= j < line.len() && closing_corner(line@[j]) && all_white(
        line@.skip(j + 1),
    ) implies j == e - 1 by {
        if j >= e {
            assert(line@.skip(e as int)[j - e] == line@[j]);
        } else if j < e - 1 {
            assert(line@.skip(j + 1)[e - 1 - (j + 1)] == line@[e - 1]);
        }
    }
    if e < 4 {
        return false;
    }
    let j = e - 1;
    if !(line[j] == '╮' || line[j] == '┐' || line[j] == '╯' || line[j] == '┘') {
        return false;
    }
    assert(line@.skip(e as int) == line@.skip(j + 1));
    let mut i: usize = 1;
    while j - i >= 3
        invariant
            1 <= i <= j,
            j == e - 1,
            white_space(line@[0]) || opening_corner(line@[0]),
            e <= line.len(),
            closing_corner(line@[j as int]),
            all_white(line@.skip(j + 1)),
            forall|k: int|
                1 <= k < i ==> !(bar_glyph(#[trigger] line@[k]) && bar_glyph(line@[k + 1])
                    && bar_glyph(line@[k + 2])),
        decreases j - i,
    {
        let c0 = line[i];
        let c1 = line[i + 1];
        let c2 = line[i + 2];
        if (c0 == '─' || c0 == '═' || c0 == '━') && (c1 == '─' || c1 == '═' || c1 == '━') && (c2
            == '─' || c2 == '═' || c2 == '━') {
            let ghost (gi, gj) = (i as int, j as int);
            assert(1 <= gi && gi + 3 <= gj < line@.len() && bar_glyph(line@[gi]) && bar_glyph(
                line@[gi + 1],
            ) && bar_glyph(line@[gi + 2]) && closing_corner(line@[gj]) && all_white(
                line@.skip(gj + 1),
            ));
            return true;
        }
        i += 1;
    }
    false
}

} // verus!
