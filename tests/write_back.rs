use clipclean::transaction::{
    prepare, AbortCause, Action, ClipboardTransaction, Event, Outcome, Phase, SizeCheck,
    ValidationError,
};
use clipclean::transfer::{decode_transfer, encode_for_transfer, normalize_readback};

/// An in-memory resource whose writes and reads can be made to fail or to
/// come back altered.
struct FakeResource {
    content: String,
    failing_writes: Vec<bool>,
    writes: usize,
    read_fails: bool,
    read_override: Option<String>,
}

impl FakeResource {
    fn new(content: &str) -> Self {
        FakeResource {
            content: content.to_string(),
            failing_writes: Vec::new(),
            writes: 0,
            read_fails: false,
            read_override: None,
        }
    }
}

fn run(fake: &mut FakeResource, tx: ClipboardTransaction) -> Outcome {
    let (mut commit, mut action) = tx.commit();
    loop {
        match action {
            Action::Write(text) => {
                let fail = fake.failing_writes.get(fake.writes).copied().unwrap_or(false);
                fake.writes += 1;
                let event = if fail {
                    Event::WriteFailed
                } else {
                    fake.content = text;
                    Event::Written
                };
                action = commit.step(event);
            }
            Action::Read => {
                let event = if fake.read_fails {
                    Event::ReadFailed
                } else {
                    Event::ReadBack(fake.read_override.clone().unwrap_or(fake.content.clone()))
                };
                action = commit.step(event);
            }
            Action::Finish(outcome) => {
                assert!(matches!(commit.current_phase(), Phase::Done(o) if o == outcome));
                return outcome;
            }
        }
    }
}

fn validated(original: &str, modified: &str) -> ClipboardTransaction {
    let mut tx = ClipboardTransaction::new(original.to_string());
    tx.set_modified(modified.to_string());
    assert!(tx.validate().is_ok());
    tx
}

#[test]
fn readback_mismatch_restores_original() {
    let mut fake = FakeResource::new("│ original │");
    fake.read_override = Some("something else".to_string());
    let outcome = run(&mut fake, validated("│ original │", "original"));
    assert_eq!(outcome, Outcome::Aborted(AbortCause::VerifyMismatch));
    assert_eq!(fake.content, "│ original │");
    assert_eq!(fake.writes, 2);
}

#[test]
fn commit_writes_and_verifies() {
    let mut fake = FakeResource::new("│ x │");
    fake.read_override = Some("x\r\n".to_string().replace("\r\n", "\n  "));
    let outcome = run(&mut fake, validated("│ x │", "x"));
    assert_eq!(outcome, Outcome::Committed);
    assert_eq!(fake.content, "x");
}

#[test]
fn unchanged_text_is_not_written() {
    let mut fake = FakeResource::new("same");
    let outcome = run(&mut fake, validated("same", "same"));
    assert_eq!(outcome, Outcome::Unchanged);
    assert_eq!(fake.writes, 0);
}

#[test]
fn failed_readback_is_unverified() {
    let mut fake = FakeResource::new("│ x │");
    fake.read_fails = true;
    assert_eq!(run(&mut fake, validated("│ x │", "x")), Outcome::Unverified);
    assert_eq!(fake.content, "x");
}

#[test]
fn failed_write_is_rolled_back() {
    let mut fake = FakeResource::new("│ x │");
    fake.failing_writes = vec![true, false];
    assert_eq!(run(&mut fake, validated("│ x │", "x")), Outcome::Aborted(AbortCause::WriteFailed));
    assert_eq!(fake.content, "│ x │");
}

#[test]
fn failed_rollback_is_critical() {
    let mut fake = FakeResource::new("│ x │");
    fake.failing_writes = vec![true, true];
    assert_eq!(
        run(&mut fake, validated("│ x │", "x")),
        Outcome::CriticalFailure(AbortCause::WriteFailed)
    );
    let mut fake = FakeResource::new("│ x │");
    fake.read_override = Some("y".to_string());
    fake.failing_writes = vec![false, true];
    assert_eq!(
        run(&mut fake, validated("│ x │", "x")),
        Outcome::CriticalFailure(AbortCause::VerifyMismatch)
    );
}

#[test]
fn validation_rejects_replacement_character() {
    let mut tx = ClipboardTransaction::new("hello world".to_string());
    tx.set_modified("hel\u{FFFD}lo".to_string());
    assert_eq!(tx.validate(), Err(ValidationError::ReplacementCharacter));
}

#[test]
fn validation_rejects_erased_content() {
    let mut tx = ClipboardTransaction::new("  substantial text  ".to_string());
    tx.set_modified(" \n ".to_string());
    assert_eq!(tx.validate(), Err(ValidationError::ContentErased));
    let mut short = ClipboardTransaction::new("  eleven byte".to_string());
    short.set_modified("".to_string());
    assert_eq!(short.validate(), Err(ValidationError::ContentErased));
    let mut shorter = ClipboardTransaction::new("  ten bytes ".to_string());
    shorter.set_modified("".to_string());
    assert_eq!(shorter.validate(), Ok(SizeCheck::Proportionate));
}

#[test]
fn validation_warns_on_large_reduction() {
    let original = "a".repeat(300);
    let mut tx = ClipboardTransaction::new(original.clone());
    tx.set_modified("abc".to_string());
    assert_eq!(tx.validate(), Ok(SizeCheck::LargeReduction));
    let mut tx = ClipboardTransaction::new(original);
    tx.set_modified("a".repeat(30));
    assert_eq!(tx.validate(), Ok(SizeCheck::Proportionate));
    let mut wide = ClipboardTransaction::new("é".repeat(150));
    wide.set_modified("a".to_string());
    assert_eq!(wide.validate(), Ok(SizeCheck::Proportionate));
}

#[test]
fn prepare_skips_blank_and_clean_text() {
    assert!(prepare("   \n ".to_string()).is_none());
    assert!(prepare("already clean".to_string()).is_none());
    let tx = prepare("│ xyz │".to_string()).unwrap();
    assert_eq!(tx.original(), "│ xyz │");
    assert_eq!(tx.modified(), Some("xyz"));
}

#[test]
fn transfer_encoding_round_trip() {
    assert_eq!(encode_for_transfer("hé"), "aMOp");
    assert_eq!(decode_transfer(b"  aMOp\r\n"), Some("hé".to_string()));
    assert_eq!(decode_transfer(b"YQ0KYg0KIA=="), Some("a\nb".to_string()));
    assert_eq!(decode_transfer(b"!!"), None);
    assert_eq!(decode_transfer(b"/w=="), None);
    assert_eq!(normalize_readback("a\r\nb \r\n"), "a\nb");
    assert_eq!(normalize_readback("x\r\r\ny"), "x\r\ny");
}
