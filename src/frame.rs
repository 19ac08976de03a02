//! Taking the frame off one line: the side borders, the padding inside them,
//! and border fragments left within the content.
use vstd::prelude::*;
use crate::border::{borderish, is_borderish};
use crate::text::{
    all_white, white_space, trim_end_ws, trim_start_ws, trim_end_index, trim_start_index,
    copy_range, trim_end, lemma_trim_end_is_prefix, lemma_trim_start_is_suffix,
};

verus! {

/// `s` without the byte-order marks it starts with.
pub open spec fn strip_bom(s: Seq<char>) -> Seq<char>
    decreases s.len(),
{
    if s.len() > 0 && s[0] == '\u{feff}' {
        strip_bom(s.drop_first())
    } else {
        s
    }
}

/// Number of border-ish characters that `s` starts with.
pub open spec fn border_prefix_len(s: Seq<char>) -> nat
    decreases s.len(),
{
    if s.len() > 0 && borderish(s[0]) {
        border_prefix_len(s.drop_first()) + 1
    } else {
        0
    }
}

/// `s` without the border-ish characters it ends with.
pub open spec fn trim_end_border(s: Seq<char>) -> Seq<char>
    decreases s.len(),
{
    if s.len() > 0 && borderish(s.last()) {
        trim_end_border(s.drop_last())
    } else {
        s
    }
}

/// The content of a line framed by border-ish characters on its left, or
/// `None` when the line (byte-order marks aside) does not start with one. One
/// space of padding after the left border is dropped, as are the right border
/// and the whitespace before it.
pub open spec fn unwrapped(line: Seq<char>) -> Option<Seq<char>> {
    let s = strip_bom(line);
    if s.len() == 0 {
        Some(Seq::empty())
    } else {
        let l = border_prefix_len(s);
        if l == 0 {
            None
        } else {
            let left = if l < s.len() && s[l as int] == ' ' {
                l + 1
            } else {
                l
            };
            Some(trim_end_ws(trim_end_border(s.skip(left as int))))
        }
    }
}

pub fn unwrap_wrapped_line(line: &Vec<char>) -> (r: Option<Vec<char>>)
    ensures
        match r {
            Some(c) => unwrapped(line@) == Some(c@),
            None => unwrapped(line@) is None,
        },
{
    let len = line.len();
    let mut a: usize = 0;
    assert(line@.skip(0) == line@);
    while a < len && line[a] == '\u{feff}'
        invariant
            a <= len == line.len(),
            strip_bom(line@.skip(a as int)) == strip_bom(line@),
        decreases len - a,
    {
        assert(line@.skip(a as int).drop_first() == line@.skip(a + 1));
        a += 1;
    }
    let ghost s = line@.skip(a as int);
    assert(strip_bom(s) == s);
    if a == len {
        return Some(Vec::new());
    }
    let mut left = a;
    while left < len && is_borderish(line[left])
        invariant
            a <= left <= len == line.len(),
            s == line@.skip(a as int),
            border_prefix_len(s) == (left - a) + border_prefix_len(line@.skip(left as int)),
        decreases len - left,
    {
        assert(line@.skip(left as int).drop_first() == line@.skip(left + 1));
        left += 1;
    }
    assert(border_prefix_len(s) == left - a);
    if left == a {
        return None;
    }
    if left < len && line[left] == ' ' {
        left += 1;
    }
    assert(s.skip(left - a) == line@.subrange(left as int, len as int));
    let mut right = len;
    while right > left && is_borderish(line[right - 1])
        invariant
            a < left <= right <= len == line.len(),
            trim_end_border(line@.subrange(left as int, right as int)) == trim_end_border(
                line@.subrange(left as int, len as int),
            ),
        decreases right,
    {
        assert(line@.subrange(left as int, right as int).drop_last() == line@.subrange(
            left as int,
            right - 1,
        ));
        right -= 1;
    }
    let end = trim_end_index(line, left, right);
    Some(copy_range(line, left, end))
}

/// One of the two bars that the single-border wrapper pattern knows.
pub open spec fn wrapper_bar(c: char) -> bool {
    c == '│' || c == '║'
}

/// What may follow the content in the wrapper pattern: an optional space, an
/// optional bar, then whitespace.
pub open spec fn wrapper_tail(t: Seq<char>) -> bool {
    ||| all_white(t)
    ||| t.len() > 0 && wrapper_bar(t[0]) && all_white(t.skip(1))
    ||| t.len() > 1 && t[0] == ' ' && wrapper_bar(t[1]) && all_white(t.skip(2))
}

/// The least `k`, from `from` on, after which `body` ends in a wrapper tail.
pub open spec fn shortest_content_len(body: Seq<char>, from: nat) -> nat
    decreases body.len() - from,
{
    if from >= body.len() || wrapper_tail(body.skip(from as int)) {
        from
    } else {
        shortest_content_len(body, from + 1)
    }
}

/// The content that the single-border wrapper pattern captures: after
/// leading whitespace, a bar and one optional space, the shortest text that
/// leaves a wrapper tail behind it. `None` where the line does not open that
/// way.
pub open spec fn wrapper_content(line: Seq<char>) -> Option<Seq<char>> {
    let w = line.len() - trim_start_ws(line).len();
    if w < line.len() && wrapper_bar(line[w]) {
        let rest = line.skip(w + 1);
        let body = if rest.len() > 0 && rest[0] == ' ' {
            rest.skip(1)
        } else {
            rest
        };
        Some(body.take(shortest_content_len(body, 0) as int))
    } else {
        None
    }
}

proof fn lemma_shortest_content_len(body: Seq<char>, from: nat, k: nat)
    requires
        from <= k <= body.len(),
        wrapper_tail(body.skip(k as int)),
        forall|m: int| from <= m < k ==> !wrapper_tail(#[trigger] body.skip(m)),
    ensures
        shortest_content_len(body, from) == k,
    decreases k - from,
{
    if from < k {
        assert(!wrapper_tail(body.skip(from as int)));
        lemma_shortest_content_len(body, from + 1, k);
    }
}

/// Where `body` ends in whitespace from `te` on, the content stops before
/// the bar (and the space before it) that ends the text, or at `te`.
proof fn lemma_shortest_content_closed_form(body: Seq<char>, te: int)
    requires
        0 <= te <= body.len(),
        all_white(body.skip(te)),
        te > 0 ==> !white_space(body[te - 1]),
    ensures
        shortest_content_len(body, 0) == if te >= 2 && wrapper_bar(body[te - 1]) && body[te - 2]
            == ' ' {
            te - 2
        } else if te >= 1 && wrapper_bar(body[te - 1]) {
            te - 1
        } else {
            te
        },
{
    let kk = if te >= 2 && wrapper_bar(body[te - 1]) && body[te - 2] == ' ' {
        te - 2
    } else if te >= 1 && wrapper_bar(body[te - 1]) {
        te - 1
    } else {
        te
    };
    if kk == te - 1 {
        assert(body.skip(kk).skip(1) == body.skip(te));
    } else if kk == te - 2 {
        assert(body.skip(kk).skip(2) == body.skip(te));
    }
    assert(wrapper_tail(body.skip(kk)));
    assert forall|m: int| 0 <= m < kk implies !wrapper_tail(#[trigger] body.skip(m)) by {
        let t = body.skip(m);
        assert(t[te - 1 - m] == body[te - 1]);
        if te - 1 - m >= 2 {
            assert(t.skip(2)[te - 1 - m - 2] == body[te - 1]);
        }
        if te - 1 - m >= 1 {
            assert(t.skip(1)[te - 1 - m - 1] == body[te - 1]);
        }
    }
    lemma_shortest_content_len(body, 0, kk as nat);
}

/// Matches the single-border wrapper pattern and returns the content it
/// captures.
pub fn match_content_wrapper(line: &Vec<char>) -> (r: Option<Vec<char>>)
    ensures
        match r {
            Some(c) => wrapper_content(line@) == Some(c@),
            None => wrapper_content(line@) is None,
        },
{
    let len = line.len();
    let w = trim_start_index(line, 0, len);
    proof {
        assert(line@.subrange(0, len as int) == line@);
        assert(line@.subrange(w as int, len as int) == line@.skip(w as int));
        lemma_trim_start_is_suffix(line@);
    }
    if !(w < len && (line[w] == '│' || line[w] == '║')) {
        return None;
    }
    let mut lo = w + 1;
    if lo < len && line[lo] == ' ' {
        lo += 1;
    }
    let ghost body = line@.skip(lo as int);
    proof {
        let rest = line@.skip(w + 1);
        assert(trim_start_ws(line@).len() == len - w);
        if lo == w + 2 {
            assert(rest[0] == line@[w + 1]);
            assert(rest.skip(1) == body);
        } else {
            assert(rest == body);
        }
    }
    assert(body == line@.subrange(lo as int, len as int));
    let e = trim_end_index(line, lo, len);
    proof {
        lemma_trim_end_is_prefix(body);
    }
    let ghost te = (e - lo) as int;
    assert(body.take(te) == trim_end_ws(body));
    let k: usize = if e - lo >= 2 && (line[e - 1] == '│' || line[e - 1] == '║') && line[e - 2]
        == ' ' {
        e - 2
    } else if e - lo >= 1 && (line[e - 1] == '│' || line[e - 1] == '║') {
        e - 1
    } else {
        e
    };
    proof {
        if te >= 1 {
            assert(body[te - 1] == line@[e - 1]);
        }
        if te >= 2 {
            assert(body[te - 2] == line@[e - 2]);
        }
        lemma_shortest_content_closed_form(body, te);
        assert(body.take(k - lo) == line@.subrange(lo as int, k as int));
    }
    Some(copy_range(line, lo, k))
}

/// The text as it is built up by the inline scrubber: each border-ish
/// character is dropped, and the first of a run leaves one space behind
/// unless nothing has been written yet or a space was written last.
pub open spec fn scrub_raw(t: Seq<char>) -> Seq<char>
    decreases t.len(),
{
    if t.len() == 0 {
        Seq::empty()
    } else {
        let r = scrub_raw(t.drop_last());
        if borderish(t.last()) {
            if r.len() > 0 && r.last() != ' ' {
                r.push(' ')
            } else {
                r
            }
        } else {
            r.push(t.last())
        }
    }
}

/// `t` with every run of border-ish characters replaced by one separating
/// space, and without trailing whitespace.
pub open spec fn scrubbed(t: Seq<char>) -> Seq<char> {
    trim_end_ws(scrub_raw(t))
}

pub fn scrub_inline_borderish(text: &Vec<char>) -> (r: Vec<char>)
    ensures
        r@ == scrubbed(text@),
{
    let mut result: Vec<char> = Vec::new();
    let mut i: usize = 0;
    while i < text.len()
        invariant
            i <= text.len(),
            result@ == scrub_raw(text@.take(i as int)),
        decreases text.len() - i,
    {
        assert(text@.take(i + 1).drop_last() == text@.take(i as int));
        let ch = text[i];
        if is_borderish(ch) {
            if result.len() > 0 && result[result.len() - 1] != ' ' {
                result.push(' ');
            }
        } else {
            result.push(ch);
        }
        i += 1;
    }
    assert(text@.take(text.len() as int) == text@);
    trim_end(&result)
}

} // verus!
