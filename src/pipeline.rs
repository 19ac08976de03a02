//! The line assembler, the candidate scorer and the cleaning function that
//! picks the best reading of a text.
use vstd::prelude::*;
use crate::ansi::{ansi_stripped, strip_ansi};
use crate::border::{
    borderish, border_dominated, pure_border_line, titled_border_line, is_borderish,
    is_mostly_borderish, is_pure_border_line, is_titled_border_line,
};
use crate::cp1252::{variants, normalize_variants};
use crate::frame::{
    unwrapped, wrapper_content, scrubbed, unwrap_wrapped_line, match_content_wrapper,
    scrub_inline_borderish,
};
use crate::text::{
    alphanumeric, ascii_punctuation, white_space, trim_end_ws, trim_end, copy_range, chars_of,
    string_of, is_ascii_punctuation, is_white_space,
};

verus! {

/// First position from `p` on that holds a line feed, or the end of `s`.
pub open spec fn line_end(s: Seq<char>, p: int) -> int
    decreases s.len() - p,
{
    if p < 0 || p >= s.len() || s[p] == '\n' {
        p
    } else {
        line_end(s, p + 1)
    }
}

/// `line` without one carriage return at its end.
pub open spec fn strip_cr(line: Seq<char>) -> Seq<char> {
    if line.len() > 0 && line.last() == '\r' {
        line.drop_last()
    } else {
        line
    }
}

/// The lines of `s` from `p` on: split at line feeds, a carriage return
/// before a line feed dropped, and no empty line after a final line feed.
pub open spec fn lines_from(s: Seq<char>, p: int) -> Seq<Seq<char>>
    decreases s.len() - p via lines_from_decreases
{
    if p < 0 || p >= s.len() {
        Seq::empty()
    } else {
        let e = line_end(s, p);
        if e < s.len() {
            seq![strip_cr(s.subrange(p, e))] + lines_from(s, e + 1)
        } else {
            seq![s.subrange(p, e)]
        }
    }
}

#[via_fn]
proof fn lines_from_decreases(s: Seq<char>, p: int) {
    if 0 <= p < s.len() {
        lemma_line_end_bounds(s, p);
    }
}

pub open spec fn lines(s: Seq<char>) -> Seq<Seq<char>> {
    lines_from(s, 0)
}

/// What the assembler keeps of one line: `None` for a border line, else
/// its content with inline borders scrubbed. The tests go in order: pure or
/// titled border and border-dominated lines are dropped; then a line framed
/// on its left gives its unwrapped content; then one matching the
/// single-border wrapper gives its captured content; any other line is kept
/// whole.
pub open spec fn cleaned_line(line: Seq<char>) -> Option<Seq<char>> {
    if border_dominated(line) || pure_border_line(line) || titled_border_line(line) {
        None
    } else if unwrapped(line) is Some {
        Some(scrubbed(unwrapped(line)->0))
    } else if wrapper_content(line) is Some {
        Some(scrubbed(wrapper_content(line)->0))
    } else {
        Some(scrubbed(line))
    }
}

/// The assembler's state: the lines written so far and how many blank lines
/// were written last in a row.
pub struct Assembly {
    pub pieces: Seq<Seq<char>>,
    pub blanks: nat,
}

/// Writes one line of content, without its trailing whitespace. A blank
/// line is left out once two blank lines have been written in a row.
pub open spec fn emit(st: Assembly, content: Seq<char>) -> Assembly {
    let t = trim_end_ws(content);
    if t.len() == 0 {
        if st.blanks >= 2 {
            st
        } else {
            Assembly { pieces: st.pieces.push(t), blanks: st.blanks + 1 }
        }
    } else {
        Assembly { pieces: st.pieces.push(t), blanks: 0 }
    }
}

pub open spec fn step(st: Assembly, line: Seq<char>) -> Assembly {
    match cleaned_line(line) {
        Some(c) => emit(st, c),
        None => st,
    }
}

/// The state after the lines `ls`, from `st`.
pub open spec fn assemble(st: Assembly, ls: Seq<Seq<char>>) -> Assembly
    decreases ls.len(),
{
    if ls.len() == 0 {
        st
    } else {
        assemble(step(st, ls[0]), ls.drop_first())
    }
}

pub open spec fn initial_assembly() -> Assembly {
    Assembly { pieces: Seq::empty(), blanks: 0 }
}

/// The lines joined with line feeds.
pub open spec fn join(ps: Seq<Seq<char>>) -> Seq<char>
    decreases ps.len(),
{
    if ps.len() == 0 {
        Seq::empty()
    } else if ps.len() == 1 {
        ps[0]
    } else {
        join(ps.drop_last()) + seq!['\n'] + ps.last()
    }
}

/// The text with border lines dropped, framed lines unwrapped, blank runs
/// capped at two lines, and no trailing whitespace.
pub open spec fn strip_tui(s: Seq<char>) -> Seq<char> {
    trim_end_ws(join(assemble(initial_assembly(), lines(s)).pieces))
}

/// What a character adds to a candidate's score.
pub open spec fn char_score(c: char) -> int {
    if c == '\u{FFFD}' {
        -10
    } else if borderish(c) {
        -2
    } else if alphanumeric(c) {
        4
    } else if ascii_punctuation(c) {
        2
    } else if white_space(c) {
        1
    } else {
        -1
    }
}

pub open spec fn score(s: Seq<char>) -> int
    decreases s.len(),
{
    if s.len() == 0 {
        0
    } else {
        score(s.drop_last()) + char_score(s.last())
    }
}

/// A reading cleaned: escape sequences out, then the line assembler.
pub open spec fn cleaned_variant(v: Seq<char>) -> Seq<char> {
    strip_tui(ansi_stripped(v))
}

/// The cleaned text: of the cleaned readings, the one with the highest
/// score, the earlier one on a tie.
pub open spec fn clean(s: Seq<char>) -> Seq<char> {
    let vs = variants(s);
    let c0 = cleaned_variant(vs[0]);
    if vs.len() > 1 && score(cleaned_variant(vs[1])) > score(c0) {
        trim_end_ws(cleaned_variant(vs[1]))
    } else {
        trim_end_ws(c0)
    }
}

/// Writes one line of content to `output` as the assembler does.
pub fn push_content_line(
    output: &mut Vec<char>,
    first: &mut bool,
    consecutive_empty: &mut usize,
    content: &Vec<char>,
)
    requires
        *old(consecutive_empty) <= 2,
    ensures
        ({
            let t = trim_end_ws(content@);
            if t.len() == 0 && *old(consecutive_empty) >= 2 {
                &&& final(output)@ == old(output)@
                &&& *final(first) == *old(first)
                &&& *final(consecutive_empty) == *old(consecutive_empty)
            } else {
                &&& final(output)@ == (if *old(first) {
                    old(output)@
                } else {
                    old(output)@.push('\n')
                }) + t
                &&& !*final(first)
                &&& *final(consecutive_empty) == if t.len() == 0 {
                    *old(consecutive_empty) + 1
                } else {
                    0
                }
            }
        }),
        *final(consecutive_empty) <= 2,
{
    let trimmed = trim_end(content);
    if trimmed.len() == 0 {
        if *consecutive_empty >= 2 {
            return ;
        }
        *consecutive_empty += 1;
    } else {
        *consecutive_empty = 0;
    }
    if !*first {
        output.push('\n');
    }
    let mut i: usize = 0;
    let ghost start = output@;
    while i < trimmed.len()
        invariant
            i <= trimmed.len(),
            output@ == start + trimmed@.take(i as int),
        decreases trimmed.len() - i,
    {
        output.push(trimmed[i]);
        assert(trimmed@.take(i + 1) == trimmed@.take(i as int).push(trimmed@[i as int]));
        i += 1;
    }
    assert(trimmed@.take(trimmed.len() as int) == trimmed@);
    *first = false;
}

/// What the assembler keeps of one line, `None` for a border line.
pub fn clean_line(line: &Vec<char>) -> (r: Option<Vec<char>>)
    ensures
        match r {
            Some(c) => cleaned_line(line@) == Some(c@),
            None => cleaned_line(line@) is None,
        },
{
    if is_mostly_borderish(line) || is_pure_border_line(line) || is_titled_border_line(line) {
        return None;
    }
    if let Some(unwrapped) = unwrap_wrapped_line(line) {
        return Some(scrub_inline_borderish(&unwrapped));
    }
    if let Some(content) = match_content_wrapper(line) {
        return Some(scrub_inline_borderish(&content));
    }
    Some(scrub_inline_borderish(line))
}

pub proof fn lemma_line_end_bounds(s: Seq<char>, p: int)
    requires
        0 <= p <= s.len(),
    ensures
        p <= line_end(s, p) <= s.len(),
        line_end(s, p) < s.len() ==> s[line_end(s, p)] == '\n',
        forall|k: int| p <= k < line_end(s, p) ==> s[k] != '\n',
    decreases s.len() - p,
{
    if p < s.len() && s[p] != '\n' {
        lemma_line_end_bounds(s, p + 1);
    }
}

proof fn lemma_join_push(ps: Seq<Seq<char>>, t: Seq<char>)
    ensures
        join(ps.push(t)) == if ps.len() == 0 {
            t
        } else {
            join(ps) + seq!['\n'] + t
        },
{
    assert(ps.push(t).drop_last() == ps);
}

/// Drops border lines, unwraps framed lines, caps blank runs at two lines
/// and trims the end.
pub fn strip_tui_lines(input: &Vec<char>) -> (r: Vec<char>)
    ensures
        r@ == strip_tui(input@),
{
    let ghost s = input@;
    let mut output: Vec<char> = Vec::new();
    let mut first = true;
    let mut consecutive_empty: usize = 0;
    let ghost mut st = initial_assembly();
    let len = input.len();
    let mut p: usize = 0;
    while p < len
        invariant
            p <= len == input.len(),
            s == input@,
            assemble(initial_assembly(), lines(s)) == assemble(st, lines_from(s, p as int)),
            output@ == join(st.pieces),
            first == (st.pieces.len() == 0),
            consecutive_empty == st.blanks,
            st.blanks <= 2,
        decreases len - p,
    {
        let mut e = p;
        while e < len && input[e] != '\n'
            invariant
                p <= e <= len == input.len(),
                line_end(input@, p as int) == line_end(input@, e as int),
            decreases len - e,
        {
            e += 1;
        }
        proof {
            lemma_line_end_bounds(s, p as int);
        }
        let mut stop = e;
        if e < len && e > p && input[e - 1] == '\r' {
            stop = e - 1;
        }
        let line = copy_range(input, p, stop);
        let ghost rest = if e < len {
            lines_from(s, e + 1)
        } else {
            Seq::empty()
        };
        proof {
            if e < len {
                assert(line@ == strip_cr(s.subrange(p as int, e as int)));
            }
            assert(lines_from(s, p as int) == seq![line@] + rest);
            assert((seq![line@] + rest).drop_first() == rest);
        }
        match clean_line(&line) {
            Some(content) => {
                proof {
                    lemma_join_push(st.pieces, trim_end_ws(content@));
                }
                push_content_line(&mut output, &mut first, &mut consecutive_empty, &content);
            },
            None => {},
        }
        proof {
            st = step(st, line@);
        }
        if e < len {
            p = e + 1;
        } else {
            p = len;
            assert(lines_from(s, len as int) == Seq::<Seq<char>>::empty());
        }
    }
    trim_end(&output)
}

/// The candidate's score: −10 per replacement character, −2 per border-ish
/// character, +4 per alphanumeric, +2 per ASCII punctuation, +1 per
/// whitespace and −1 for anything else.
pub fn score_candidate(text: &Vec<char>) -> (r: i128)
    ensures
        r == score(text@),
{
    let mut total: i128 = 0;
    let mut i: usize = 0;
    while i < text.len()
        invariant
            i <= text.len(),
            total == score(text@.take(i as int)),
            -10 * i <= total <= 4 * i,
        decreases text.len() - i,
    {
        assert(text@.take(i + 1).drop_last() == text@.take(i as int));
        let ch = text[i];
        if ch == '\u{FFFD}' {
            total -= 10;
        } else if is_borderish(ch) {
            total -= 2;
        } else if ch.is_alphanumeric() {
            total += 4;
        } else if is_ascii_punctuation(ch) {
            total += 2;
        } else if is_white_space(ch) {
            total += 1;
        } else {
            total -= 1;
        }
        i += 1;
    }
    assert(text@.take(text.len() as int) == text@);
    total
}

fn clean_variant(variant: &String) -> (r: Vec<char>)
    ensures
        r@ == cleaned_variant(variant@),
{
    let chars = chars_of(variant.as_str());
    let ansi_free = strip_ansi(&chars);
    strip_tui_lines(&ansi_free)
}

/// Cleans text taken from a terminal user interface: for each reading of
/// it, escape sequences are taken out and the line assembler run; the
/// highest-scoring result wins, the earlier reading on a tie.
pub fn clean_text(input: &str) -> (r: String)
    ensures
        r@ == clean(input@),
{
    let vs = normalize_variants(input);
    let mut best = clean_variant(&vs[0]);
    if vs.len() > 1 {
        let candidate = clean_variant(&vs[1]);
        if score_candidate(&candidate) > score_candidate(&best) {
            best = candidate;
        }
    }
    string_of(&trim_end(&best))
}

} // verus!
