use clipclean::cp1252::decode_windows_1252;
use clipclean::pipeline::clean_text;

#[test]
fn test_claude_code_titled_border() {
    let input = "╭─── Agent Shell v2.0.47 ──────────────────────────────────────────────────────────────────────────╮\n\
                 │                             │ Recent activity                                                    │\n\
                 │     Welcome back Ainesh!    │ No recent activity                                                 │\n\
                 │                             │ ────────────────────────────────────────────────────────────────── │\n\
                 │           ▐▛███▜▌           │ What's new                                                         │\n\
                 ╰──────────────────────────────────────────────────────────────────────────────────────────────────╯";

    let expected_contains = "Welcome back Ainesh!";
    let cleaned = clean_text(input);

    println!("Cleaned Output:\n{}", cleaned);

    assert!(cleaned.contains(expected_contains), "Should contain content");
    assert!(!cleaned.contains("Agent Shell v2.0.47"), "Should remove titled top border");
    assert!(!cleaned.contains("╰───"), "Should remove bottom border");
    assert!(!cleaned.contains("│     Welcome"), "Should remove left border");
}

#[test]
fn test_ansi_stripping() {
    let input = "\x1b[31mHello\x1b[0m World";
    let cleaned = clean_text(input);
    assert_eq!(cleaned, "Hello World");

    let input_nested = "\x1b[1;31mBold Red\x1b[0m";
    let cleaned = clean_text(input_nested);
    assert_eq!(cleaned, "Bold Red");
}

#[test]
fn test_code_with_pipes() {
    let input = "│ let x = a | b; │";
    let cleaned = clean_text(input);
    assert_eq!(cleaned, "let x = a | b;");
}

#[test]
fn test_question_mark_preserved() {
    let input = "│ What's the status? │";
    let cleaned = clean_text(input);
    assert_eq!(cleaned, "What's the status?");

    let input_multi = "│ How? Why? What? │";
    let cleaned_multi = clean_text(input_multi);
    assert_eq!(cleaned_multi, "How? Why? What?");
}

#[test]
fn test_recovers_from_cp1252_mojibake() {
    let original =
        "╭─── Agent Shell v2.0.47 ───╮\n│ Welcome back Ainesh! │\n╰───────────────────────╯";
    let corrupted = decode_windows_1252(original.as_bytes());

    assert_ne!(corrupted, original);

    let cleaned = clean_text(&corrupted);
    assert!(cleaned.contains("Welcome back Ainesh!"));
    assert!(!cleaned.contains("â"));
}

#[test]
fn test_recovers_from_intersection_gibberish() {
    let gibberish = "?∩┐╜∩┐╜∩┐╜ Agent Shell v2.0.47 ∩┐╜∩┐╜∩┐╜\n∩┐╜ Recent activity ∩┐╜\n∩┐╜ Welcome back Ainesh! ∩┐╜ No recent activity ∩┐╜\n∩┐╜ What's new ∩┐╜\n∩┐╜ /home/ain3sh ∩┐╜";

    let cleaned = clean_text(gibberish);

    assert!(cleaned.contains("Welcome back Ainesh!"));
    assert!(cleaned.contains("No recent activity"));
    assert!(cleaned.contains("What's new"));

    assert!(!cleaned.contains("∩┐╜"));
}
