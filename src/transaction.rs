//! The write-back of a cleaned text to the one shared text resource, as a
//! transaction: snapshot, validate, commit, verify, and roll back on failure.
//!
//! The resource itself is reached by the caller. A commit is a state
//! machine: it asks for a write or a read, the caller performs it and
//! reports what happened, and the machine decides the next request or the
//! outcome.
use vstd::prelude::*;
use vstd::utf8::encode_utf8;
use crate::pipeline::{clean, clean_text};
use crate::text::{
    trim_end_ws, trim_ws, chars_of, string_of, trim_end, trim_end_index, trim_start_index,
    copy_range,
};

verus! {

/// Why a cleaned text is not written.
#[derive(Clone, Copy, Debug, PartialEq, Eq, Structural)]
pub enum ValidationError {
    /// The text holds U+FFFD, the mark of a decoding failure.
    ReplacementCharacter,
    /// The original had content and the cleaned text has none.
    ContentErased,
}

/// A non-fatal finding of validation.
#[derive(Clone, Copy, Debug, PartialEq, Eq, Structural)]
pub enum SizeCheck {
    Proportionate,
    /// The original is over 200 characters and the cleaned text under a
    /// tenth of that.
    LargeReduction,
}

/// What went wrong before a rollback.
#[derive(Clone, Copy, Debug, PartialEq, Eq, Structural)]
pub enum AbortCause {
    WriteFailed,
    /// The text read back after the write differs from the one written.
    VerifyMismatch,
}

/// How a commit ended.
#[derive(Clone, Copy, Debug, PartialEq, Eq, Structural)]
pub enum Outcome {
    /// The cleaned text equals the original: nothing was written.
    Unchanged,
    /// Written and read back equal.
    Committed,
    /// Written, but the read-back failed.
    Unverified,
    /// The original was restored.
    Aborted(AbortCause),
    /// The restore failed too: the resource may hold neither text.
    CriticalFailure(AbortCause),
}

/// What the commit asks of the caller next.
#[derive(Debug)]
pub enum Action {
    Write(String),
    Read,
    Finish(Outcome),
}

/// What happened to the caller's last write or read.
#[derive(Debug)]
pub enum Event {
    Written,
    WriteFailed,
    ReadBack(String),
    ReadFailed,
}

/// An action, with its text as a sequence of characters.
pub enum Step {
    Write(Seq<char>),
    Read,
    Finish(Outcome),
}

/// An event, with its text as a sequence of characters.
pub enum Reply {
    Written,
    WriteFailed,
    ReadBack(Seq<char>),
    ReadFailed,
}

impl View for Action {
    type V = Step;

    open spec fn view(&self) -> Step {
        match self {
            Action::Write(s) => Step::Write(s@),
            Action::Read => Step::Read,
            Action::Finish(o) => Step::Finish(*o),
        }
    }
}

impl View for Event {
    type V = Reply;

    open spec fn view(&self) -> Reply {
        match self {
            Event::Written => Reply::Written,
            Event::WriteFailed => Reply::WriteFailed,
            Event::ReadBack(s) => Reply::ReadBack(s@),
            Event::ReadFailed => Reply::ReadFailed,
        }
    }
}

/// Where a commit stands.
#[derive(Clone, Copy, Debug, PartialEq, Eq, Structural)]
pub enum Phase {
    /// The cleaned text is being written.
    Writing,
    /// The resource is being read back.
    Verifying,
    /// The original is being written back.
    Restoring(AbortCause),
    Done(Outcome),
}

/// The byte length of a text in UTF-8.
pub open spec fn byte_len(s: Seq<char>) -> nat {
    encode_utf8(s).len()
}

pub open spec fn holds_replacement_char(s: Seq<char>) -> bool {
    exists|i: int| 0 <= i < s.len() && s[i] == '\u{FFFD}'
}

/// The verdict on writing `modified` in place of `original`.
pub open spec fn validation(original: Seq<char>, modified: Seq<char>) -> Result<
    SizeCheck,
    ValidationError,
> {
    if holds_replacement_char(modified) {
        Err(ValidationError::ReplacementCharacter)
    } else if byte_len(trim_ws(original)) > 10 && trim_ws(modified).len() == 0 {
        Err(ValidationError::ContentErased)
    } else if original.len() > 200 && modified.len() < original.len() / 10 {
        Ok(SizeCheck::LargeReduction)
    } else {
        Ok(SizeCheck::Proportionate)
    }
}

/// The first request of a commit.
pub open spec fn start(original: Seq<char>, modified: Seq<char>) -> (Phase, Step) {
    if modified == original {
        (Phase::Done(Outcome::Unchanged), Step::Finish(Outcome::Unchanged))
    } else {
        (Phase::Writing, Step::Write(modified))
    }
}

/// The events that answer the request of a phase.
pub open spec fn answers(phase: Phase, e: Reply) -> bool {
    match phase {
        Phase::Writing | Phase::Restoring(_) => e is Written || e is WriteFailed,
        Phase::Verifying => e is ReadBack || e is ReadFailed,
        Phase::Done(_) => false,
    }
}

/// The phase and request that follow an event. A failed write, or a
/// read-back that differs from the cleaned text beyond trailing whitespace,
/// leads to writing the original back.
pub open spec fn next(phase: Phase, original: Seq<char>, modified: Seq<char>, e: Reply) -> (
    Phase,
    Step,
) {
    match phase {
        Phase::Writing => match e {
            Reply::Written => (Phase::Verifying, Step::Read),
            _ => (Phase::Restoring(AbortCause::WriteFailed), Step::Write(original)),
        },
        Phase::Verifying => match e {
            Reply::ReadBack(r) => if trim_end_ws(r) == trim_end_ws(modified) {
                (Phase::Done(Outcome::Committed), Step::Finish(Outcome::Committed))
            } else {
                (Phase::Restoring(AbortCause::VerifyMismatch), Step::Write(original))
            },
            _ => (Phase::Done(Outcome::Unverified), Step::Finish(Outcome::Unverified)),
        },
        Phase::Restoring(cause) => match e {
            Reply::Written => (Phase::Done(Outcome::Aborted(cause)), Step::Finish(Outcome::Aborted(cause))),
            _ => (
                Phase::Done(Outcome::CriticalFailure(cause)),
                Step::Finish(Outcome::CriticalFailure(cause)),
            ),
        },
        Phase::Done(o) => (phase, Step::Finish(o)),
    }
}

/// A snapshot of the resource and the one cleaned text meant to replace it.
pub struct ClipboardTransaction {
    original: String,
    modified: Option<String>,
    validated: bool,
}

impl ClipboardTransaction {
    pub closed spec fn original_text(&self) -> Seq<char> {
        self.original@
    }

    pub closed spec fn modified_text(&self) -> Option<Seq<char>> {
        match self.modified {
            Some(m) => Some(m@),
            None => None,
        }
    }

    pub closed spec fn is_validated(&self) -> bool {
        self.validated
    }

    /// Starts a transaction on the text read from the resource.
    pub fn new(original: String) -> (r: Self)
        ensures
            r.original_text() == original@,
            r.modified_text() is None,
            !r.is_validated(),
    {
        ClipboardTransaction { original, modified: None, validated: false }
    }

    pub fn original(&self) -> (r: &str)
        ensures
            r@ == self.original_text(),
    {
        self.original.as_str()
    }

    pub fn modified(&self) -> (r: Option<&str>)
        ensures
            match r {
                Some(m) => self.modified_text() == Some(m@),
                None => self.modified_text() is None,
            },
    {
        match &self.modified {
            Some(m) => Some(m.as_str()),
            None => None,
        }
    }

    /// Records the cleaned text; a transaction takes one.
    pub fn set_modified(&mut self, modified: String)
        requires
            old(self).modified_text() is None,
        ensures
            final(self).modified_text() == Some(modified@),
            final(self).original_text() == old(self).original_text(),
            !final(self).is_validated(),
    {
        self.modified = Some(modified);
        self.validated = false;
    }

    /// Checks the cleaned text before it may be committed.
    pub fn validate(&mut self) -> (r: Result<SizeCheck, ValidationError>)
        requires
            old(self).modified_text() is Some,
            byte_len(old(self).original_text()) <= usize::MAX,
        ensures
            r == validation(old(self).original_text(), old(self).modified_text()->0),
            final(self).original_text() == old(self).original_text(),
            final(self).modified_text() == old(self).modified_text(),
            final(self).is_validated() == r is Ok,
    {
        let verdict = match &self.modified {
            Some(m) => check(&self.original, m),
            None => Err(ValidationError::ContentErased),
        };
        self.validated = verdict.is_ok();
        verdict
    }

    /// Starts the commit of a validated transaction, which it consumes.
    pub fn commit(self) -> (r: (Commit, Action))
        requires
            self.is_validated(),
            self.modified_text() is Some,
        ensures
            r.0.original_text() == self.original_text(),
            r.0.modified_text() == self.modified_text()->0,
            (r.0.phase(), r.1@) == start(self.original_text(), self.modified_text()->0),
    {
        let ClipboardTransaction { original, modified, validated: _ } = self;
        let modified = match modified {
            Some(m) => m,
            None => String::new(),
        };
        if modified == original {
            let c = Commit { original, modified, phase: Phase::Done(Outcome::Unchanged) };
            (c, Action::Finish(Outcome::Unchanged))
        } else {
            let w = modified.clone();
            (Commit { original, modified, phase: Phase::Writing }, Action::Write(w))
        }
    }
}

fn holds_fffd(s: &Vec<char>) -> (r: bool)
    ensures
        r == holds_replacement_char(s@),
{
    let mut i: usize = 0;
    while i < s.len()
        invariant
            i <= s.len(),
            forall|k: int| 0 <= k < i ==> s@[k] != '\u{FFFD}',
        decreases s.len() - i,
    {
        if s[i] == '\u{FFFD}' {
            return true;
        }
        i += 1;
    }
    false
}

fn trimmed(v: &Vec<char>) -> (r: Vec<char>)
    ensures
        r@ == trim_ws(v@),
{
    let e = trim_end_index(v, 0, v.len());
    let b = trim_start_index(v, 0, e);
    proof {
        assert(v@.subrange(0, v.len() as int) == v@);
        assert(v@.subrange(0, e as int).subrange(b as int, e as int) == v@.subrange(
            b as int,
            e as int,
        ));
    }
    copy_range(v, b, e)
}

proof fn lemma_encode_utf8_concat(a: Seq<char>, b: Seq<char>)
    ensures
        encode_utf8(a + b) == encode_utf8(a) + encode_utf8(b),
    decreases a.len(),
{
    if a.len() > 0 {
        assert((a + b).drop_first() == a.drop_first() + b);
        lemma_encode_utf8_concat(a.drop_first(), b);
    } else {
        assert(a + b == b);
    }
}

/// Trimming a text does not lengthen its UTF-8 form.
proof fn lemma_trim_byte_len(s: Seq<char>)
    ensures
        byte_len(trim_ws(s)) <= byte_len(s),
{
    crate::text::lemma_trim_end_is_prefix(s);
    let e = trim_end_ws(s);
    crate::text::lemma_trim_start_is_suffix(e);
    let t = trim_ws(s);
    let b = e.len() - t.len();
    assert(s == e.take(b) + t + s.skip(e.len() as int));
    lemma_encode_utf8_concat(e.take(b) + t, s.skip(e.len() as int));
    lemma_encode_utf8_concat(e.take(b), t);
}

fn check(original: &String, modified: &String) -> (r: Result<SizeCheck, ValidationError>)
    requires
        byte_len(original@) <= usize::MAX,
    ensures
        r == validation(original@, modified@),
{
    let m = chars_of(modified.as_str());
    if holds_fffd(&m) {
        return Err(ValidationError::ReplacementCharacter);
    }
    let o = chars_of(original.as_str());
    let original_trimmed = string_of(&trimmed(&o));
    proof {
        lemma_trim_byte_len(o@);
    }
    let original_has_content = original_trimmed.as_str().len() > 10;
    let cleaned_is_empty = trimmed(&m).len() == 0;
    if original_has_content && cleaned_is_empty {
        return Err(ValidationError::ContentErased);
    }
    let original_len = o.len();
    let modified_len = m.len();
    if original_len > 200 && modified_len < original_len / 10 {
        Ok(SizeCheck::LargeReduction)
    } else {
        Ok(SizeCheck::Proportionate)
    }
}

fn same_after_trim_end(a: &String, b: &String) -> (r: bool)
    ensures
        r == (trim_end_ws(a@) == trim_end_ws(b@)),
{
    let x = trim_end(&chars_of(a.as_str()));
    let y = trim_end(&chars_of(b.as_str()));
    if x.len() != y.len() {
        return false;
    }
    let mut i: usize = 0;
    while i < x.len()
        invariant
            i <= x.len() == y.len(),
            x@ == trim_end_ws(a@),
            y@ == trim_end_ws(b@),
            forall|k: int| 0 <= k < i ==> x@[k] == y@[k],
        decreases x.len() - i,
    {
        if x[i] != y[i] {
            return false;
        }
        i += 1;
    }
    assert(x@ == y@);
    true
}

/// A commit in progress.
pub struct Commit {
    original: String,
    modified: String,
    phase: Phase,
}

impl Commit {
    pub closed spec fn original_text(&self) -> Seq<char> {
        self.original@
    }

    pub closed spec fn modified_text(&self) -> Seq<char> {
        self.modified@
    }

    pub closed spec fn phase(&self) -> Phase {
        self.phase
    }

    /// Where the commit stands.
    pub fn current_phase(&self) -> (r: Phase)
        ensures
            r == self.phase(),
    {
        self.phase
    }

    /// Takes the caller's report on the last request and returns the next.
    pub fn step(&mut self, event: Event) -> (r: Action)
        requires
            answers(old(self).phase(), event@),
        ensures
            (final(self).phase(), r@) == next(
                old(self).phase(),
                old(self).original_text(),
                old(self).modified_text(),
                event@,
            ),
            final(self).original_text() == old(self).original_text(),
            final(self).modified_text() == old(self).modified_text(),
    {
        match self.phase {
            Phase::Writing => match event {
                Event::Written => {
                    self.phase = Phase::Verifying;
                    Action::Read
                },
                _ => {
                    self.phase = Phase::Restoring(AbortCause::WriteFailed);
                    Action::Write(self.original.clone())
                },
            },
            Phase::Verifying => match event {
                Event::ReadBack(readback) => {
                    if same_after_trim_end(&readback, &self.modified) {
                        self.phase = Phase::Done(Outcome::Committed);
                        Action::Finish(Outcome::Committed)
                    } else {
                        self.phase = Phase::Restoring(AbortCause::VerifyMismatch);
                        Action::Write(self.original.clone())
                    }
                },
                _ => {
                    self.phase = Phase::Done(Outcome::Unverified);
                    Action::Finish(Outcome::Unverified)
                },
            },
            Phase::Restoring(cause) => match event {
                Event::Written => {
                    self.phase = Phase::Done(Outcome::Aborted(cause));
                    Action::Finish(Outcome::Aborted(cause))
                },
                _ => {
                    self.phase = Phase::Done(Outcome::CriticalFailure(cause));
                    Action::Finish(Outcome::CriticalFailure(cause))
                },
            },
            Phase::Done(o) => Action::Finish(o),
        }
    }
}

/// When the cleaned text is written but reads back different, the commit
/// writes the original back, and once that write succeeds it ends in a
/// non-critical abort: neither a success nor a critical failure.
pub proof fn lemma_readback_mismatch_restores(
    original: Seq<char>,
    modified: Seq<char>,
    readback: Seq<char>,
)
    requires
        modified != original,
        trim_end_ws(readback) != trim_end_ws(modified),
    ensures
        start(original, modified) == (Phase::Writing, Step::Write(modified)),
        next(Phase::Writing, original, modified, Reply::Written) == (Phase::Verifying, Step::Read),
        next(Phase::Verifying, original, modified, Reply::ReadBack(readback)) == (
            Phase::Restoring(AbortCause::VerifyMismatch),
            Step::Write(original),
        ),
        next(
            Phase::Restoring(AbortCause::VerifyMismatch),
            original,
            modified,
            Reply::Written,
        ) == (
            Phase::Done(Outcome::Aborted(AbortCause::VerifyMismatch)),
            Step::Finish(Outcome::Aborted(AbortCause::VerifyMismatch)),
        ),
{
}

/// Snapshots `original` and sets its cleaned text, or `None` where there is
/// nothing to do: the original is blank, or cleaning leaves it as it is.
pub fn prepare(original: String) -> (r: Option<ClipboardTransaction>)
    ensures
        match r {
            Some(t) => {
                &&& trim_ws(original@).len() != 0
                &&& clean(original@) != original@
                &&& t.original_text() == original@
                &&& t.modified_text() == Some(clean(original@))
                &&& !t.is_validated()
            },
            None => trim_ws(original@).len() == 0 || clean(original@) == original@,
        },
{
    if trimmed(&chars_of(original.as_str())).len() == 0 {
        return None;
    }
    let cleaned = clean_text(original.as_str());
    if cleaned == original {
        return None;
    }
    let mut t = ClipboardTransaction::new(original);
    t.set_modified(cleaned);
    Some(t)
}

} // verus!
