//! Removing ANSI escape sequences.
//!
//! A sequence is an escape introducer (ESC or the C1 control CSI), any number
//! of intermediate characters (`[ ( ) # ; ?`), an optional parameter list of
//! up to four digits followed by `;`-groups of up to four digits each, and a
//! final character. Where several readings are possible, the one taken is the
//! one a backtracking matcher tries first: as many intermediates, digits and
//! groups as possible, giving back a digit to serve as the final character
//! where nothing else does.
use vstd::prelude::*;

verus! {

pub open spec fn escape_introducer(c: char) -> bool {
    c == '\u{1b}' || c == '\u{9b}'
}

pub open spec fn intermediate(c: char) -> bool {
    c == '[' || c == '(' || c == ')' || c == '#' || c == ';' || c == '?'
}

pub open spec fn ascii_digit(c: char) -> bool {
    '0' <= c <= '9'
}

/// The characters that end a sequence: digits, `A`-`O`, `R`, `Z`, `c`,
/// `f`-`n`, `q`, `r`, `y`, `=`, `>` and `<`.
pub open spec fn final_char(c: char) -> bool {
    ||| ascii_digit(c)
    ||| 'A' <= c <= 'O'
    ||| c == 'R' || c == 'Z' || c == 'c'
    ||| 'f' <= c <= 'n'
    ||| c == 'q' || c == 'r' || c == 'y' || c == '=' || c == '>' || c == '<'
}

/// First position from `x` on that is not an intermediate character.
pub open spec fn intermediate_end(s: Seq<char>, x: int) -> int
    decreases s.len() - x,
{
    if 0 <= x < s.len() && intermediate(s[x]) {
        intermediate_end(s, x + 1)
    } else {
        x
    }
}

/// Number of digits from `x` on, counting at most `cap`.
pub open spec fn digit_run(s: Seq<char>, x: int, cap: nat) -> nat
    decreases cap,
{
    if cap > 0 && 0 <= x < s.len() && ascii_digit(s[x]) {
        digit_run(s, x + 1, (cap - 1) as nat) + 1
    } else {
        0
    }
}

/// The end of a sequence whose parameter digits stop at `x`: further
/// `;`-groups, then a final character. Where the groups cannot be closed, the
/// last digit read serves as the final character; `None` where there is none.
pub open spec fn ansi_tail(s: Seq<char>, x: int) -> Option<int>
    decreases s.len() - x via ansi_tail_decreases
{
    if x < 0 || x >= s.len() {
        None
    } else if s[x] == ';' {
        let k = digit_run(s, x + 1, 4);
        match ansi_tail(s, x + 1 + k) {
            Some(e) => Some(e),
            None => if k >= 1 {
                Some(x + 1 + k)
            } else {
                None
            },
        }
    } else if final_char(s[x]) {
        Some(x + 1)
    } else {
        None
    }
}

#[via_fn]
proof fn ansi_tail_decreases(s: Seq<char>, x: int) {
    if 0 <= x < s.len() && s[x] == ';' {
        lemma_digit_run_bounds(s, x + 1, 4);
    }
}

/// The end of the escape sequence that starts at `p`, if one does.
pub open spec fn ansi_match(s: Seq<char>, p: int) -> Option<int> {
    if 0 <= p < s.len() && escape_introducer(s[p]) {
        let q = intermediate_end(s, p + 1);
        let m = digit_run(s, q, 4);
        if m >= 1 {
            match ansi_tail(s, q + m) {
                Some(e) => Some(e),
                None => Some(q + m),
            }
        } else if q < s.len() && final_char(s[q]) {
            Some(q + 1)
        } else {
            None
        }
    } else {
        None
    }
}

/// `s` from `p` on, with the escape sequences taken out, left to right.
pub open spec fn strip_ansi_from(s: Seq<char>, p: int) -> Seq<char>
    decreases s.len() - p,
{
    if p < 0 || p >= s.len() {
        Seq::empty()
    } else {
        match ansi_match(s, p) {
            Some(e) => if p < e <= s.len() {
                strip_ansi_from(s, e)
            } else {
                seq![s[p]] + strip_ansi_from(s, p + 1)
            },
            None => seq![s[p]] + strip_ansi_from(s, p + 1),
        }
    }
}

/// `s` with its escape sequences taken out.
pub open spec fn ansi_stripped(s: Seq<char>) -> Seq<char> {
    strip_ansi_from(s, 0)
}

proof fn lemma_intermediate_end_bounds(s: Seq<char>, x: int)
    requires
        0 <= x <= s.len(),
    ensures
        x <= intermediate_end(s, x) <= s.len(),
    decreases s.len() - x,
{
    if x < s.len() && intermediate(s[x]) {
        lemma_intermediate_end_bounds(s, x + 1);
    }
}

proof fn lemma_digit_run_bounds(s: Seq<char>, x: int, cap: nat)
    requires
        0 <= x <= s.len(),
    ensures
        x + digit_run(s, x, cap) <= s.len(),
        digit_run(s, x, cap) <= cap,
    decreases cap,
{
    if cap > 0 && x < s.len() && ascii_digit(s[x]) {
        lemma_digit_run_bounds(s, x + 1, (cap - 1) as nat);
    }
}

proof fn lemma_ansi_tail_bounds(s: Seq<char>, x: int)
    ensures
        ansi_tail(s, x) matches Some(e) ==> x < e <= s.len(),
    decreases s.len() - x,
{
    if 0 <= x < s.len() && s[x] == ';' {
        lemma_digit_run_bounds(s, x + 1, 4);
        lemma_ansi_tail_bounds(s, x + 1 + digit_run(s, x + 1, 4));
    }
}

pub proof fn lemma_ansi_match_bounds(s: Seq<char>, p: int)
    ensures
        ansi_match(s, p) matches Some(e) ==> p < e <= s.len(),
{
    if 0 <= p < s.len() && escape_introducer(s[p]) {
        lemma_intermediate_end_bounds(s, p + 1);
        let q = intermediate_end(s, p + 1);
        lemma_digit_run_bounds(s, q, 4);
        lemma_ansi_tail_bounds(s, q + digit_run(s, q, 4));
    }
}

fn count_digits(v: &Vec<char>, x: usize, cap: usize) -> (r: usize)
    requires
        x <= v.len(),
    ensures
        r == digit_run(v@, x as int, cap as nat),
        x + r <= v.len(),
{
    let mut n: usize = 0;
    while n < cap && x + n < v.len() && '0' <= v[x + n] && v[x + n] <= '9'
        invariant
            x + n <= v.len(),
            n <= cap,
            digit_run(v@, x as int, cap as nat) == n + digit_run(
                v@,
                x + n,
                (cap - n) as nat,
            ),
        decreases cap - n,
    {
        n += 1;
    }
    n
}

/// The end of the escape sequence that starts at `p`, if one does.
pub fn match_ansi_at(v: &Vec<char>, p: usize) -> (r: Option<usize>)
    requires
        p < v.len(),
    ensures
        match r {
            Some(e) => ansi_match(v@, p as int) == Some(e as int),
            None => ansi_match(v@, p as int) is None,
        },
{
    let len = v.len();
    if !(v[p] == '\u{1b}' || v[p] == '\u{9b}') {
        return None;
    }
    let mut q = p + 1;
    while q < len && (v[q] == '[' || v[q] == '(' || v[q] == ')' || v[q] == '#' || v[q] == ';'
        || v[q] == '?')
        invariant
            p < q <= len == v.len(),
            intermediate_end(v@, p + 1) == intermediate_end(v@, q as int),
        decreases len - q,
    {
        q += 1;
    }
    let m = count_digits(v, q, 4);
    if m == 0 {
        if q < len && is_final_char(v[q]) {
            return Some(q + 1);
        } else {
            return None;
        }
    }
    let mut x = q + m;
    let mut best = q + m;
    loop
        invariant
            x <= len == v.len(),
            ansi_match(v@, p as int) == match ansi_tail(v@, x as int) {
                Some(e) => Some(e),
                None => Some(best as int),
            },
        decreases len - x,
    {
        if x >= len {
            return Some(best);
        }
        if v[x] == ';' {
            let k = count_digits(v, x + 1, 4);
            if k >= 1 {
                best = x + 1 + k;
            }
            x = x + 1 + k;
        } else if is_final_char(v[x]) {
            return Some(x + 1);
        } else {
            return Some(best);
        }
    }
}

fn is_final_char(c: char) -> (r: bool)
    ensures
        r == final_char(c),
{
    ('0' <= c && c <= '9') || ('A' <= c && c <= 'O') || c == 'R' || c == 'Z' || c == 'c' || ('f'
        <= c && c <= 'n') || c == 'q' || c == 'r' || c == 'y' || c == '=' || c == '>' || c == '<'
}

/// Removes every escape sequence, keeping all other characters in order.
pub fn strip_ansi(text: &Vec<char>) -> (r: Vec<char>)
    ensures
        r@ == ansi_stripped(text@),
{
    let mut out: Vec<char> = Vec::new();
    let mut p: usize = 0;
    while p < text.len()
        invariant
            p <= text.len(),
            ansi_stripped(text@) == out@ + strip_ansi_from(text@, p as int),
        decreases text.len() - p,
    {
        proof {
            lemma_ansi_match_bounds(text@, p as int);
        }
        match match_ansi_at(text, p) {
            Some(e) => {
                p = e;
            },
            None => {
                let ghost before = out@;
                out.push(text[p]);
                assert(before + strip_ansi_from(text@, p as int) == out@ + strip_ansi_from(
                    text@,
                    p + 1,
                ));
                p += 1;
            },
        }
    }
    assert(out@ + Seq::<char>::empty() == out@);
    out
}

} // verus!
