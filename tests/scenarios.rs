use clipclean::ansi::strip_ansi;
use clipclean::border::{is_mostly_borderish, is_pure_border_line, is_titled_border_line};
use clipclean::cp1252::{
    decode_windows_1252, encode_windows_1252, normalize_variants, recover_from_cp1252_mojibake,
};
use clipclean::frame::{match_content_wrapper, scrub_inline_borderish, unwrap_wrapped_line};
use clipclean::pipeline::{clean_text, score_candidate, strip_tui_lines};

fn chars(s: &str) -> Vec<char> {
    s.chars().collect()
}

#[test]
fn single_padded_frame_is_unwrapped() {
    assert_eq!(clean_text("│ content │"), "content");
}

#[test]
fn unframed_table_row_is_kept_verbatim() {
    assert_eq!(clean_text("a | b | c"), "a | b | c");
    assert_eq!(clean_text("| col1 | col2 |"), "| col1 | col2 |");
}

#[test]
fn four_line_box_then_plain_line() {
    let input = "╭───╮\n│ line 1 │\n│ line 2 │\n╰───╯\nnormal line";
    assert_eq!(clean_text(input), "line 1\nline 2\nnormal line");
}

#[test]
fn border_only_lines_are_dropped() {
    assert_eq!(clean_text("abc\n│      ║\n  ╭──╮  \nxyz"), "abc\nxyz");
    assert_eq!(clean_text("│   │"), "");
}

#[test]
fn blank_runs_collapse_to_two() {
    assert_eq!(clean_text("a\n\n\n\n\nb"), "a\n\n\nb");
    assert_eq!(clean_text("a\n\nb"), "a\n\nb");
}

#[test]
fn cleaning_twice_changes_nothing() {
    let inputs = [
        "╭─── Title ───╮\n│ one │\n│ two │\n╰──────────────╯\n\n\n\nplain",
        "\x1b[1mbold\x1b[0m │ cell │ cell",
        "│ How? Why? │\n",
    ];
    for input in inputs {
        let once = clean_text(input);
        assert_eq!(clean_text(&once), once);
    }
}

#[test]
fn cleaning_edge_inputs() {
    assert_eq!(clean_text(""), "");
    assert_eq!(clean_text("\u{feff}hello"), "hello");
    assert_eq!(clean_text("a\n   \nb"), "a\nb");
    assert_eq!(clean_text("line one\r\nline two\r\n"), "line one\nline two");
}

#[test]
fn mojibake_box_is_recovered_and_cleaned() {
    let original = "╭──────╮\n│ Grüße │\n╰──────╯";
    let corrupted = decode_windows_1252(original.as_bytes());
    assert_ne!(corrupted, original);
    assert_eq!(clean_text(&corrupted), "Grüße");
}

#[test]
fn ansi_sequences_are_removed() {
    assert_eq!(strip_ansi(&chars("\u{9b}31mX")), chars("X"));
    assert_eq!(strip_ansi(&chars("\x1b[12345Z")), chars("Z"));
    assert_eq!(strip_ansi(&chars("\x1b[31;x")), chars(";x"));
    assert_eq!(strip_ansi(&chars("\x1b(B\x1b[?25h ok")), chars(" ok"));
    assert_eq!(strip_ansi(&chars("\x1bx stays")), chars("\x1bx stays"));
}

#[test]
fn score_follows_character_classes() {
    assert_eq!(score_candidate(&chars("a? │\u{FFFD}€")), 4 + 2 + 1 - 2 - 10 - 1);
    assert_eq!(score_candidate(&chars("é1")), 8);
    assert_eq!(score_candidate(&chars("")), 0);
}

#[test]
fn border_dominated_alternatives() {
    assert!(is_mostly_borderish(&chars("│││x")));
    assert!(is_mostly_borderish(&chars("│ a │")));
    assert!(is_mostly_borderish(&chars("│aa│")));
    assert!(!is_mostly_borderish(&chars("│ ab │")));
    assert!(!is_mostly_borderish(&chars("x││")));
    assert!(!is_mostly_borderish(&chars("   ")));
    assert!(!is_mostly_borderish(&chars("│ How? Why? What? │")));
    assert!(is_mostly_borderish(&chars("│ab\x07\x07\x07\x07│")));
    assert!(!is_mostly_borderish(&chars("│ab    │")));
}

#[test]
fn pure_and_titled_border_lines() {
    assert!(is_pure_border_line(&chars("  ╭──╮ ")));
    assert!(!is_pure_border_line(&chars("│")));
    assert!(!is_pure_border_line(&chars("")));
    assert!(is_titled_border_line(&chars("╭─── Title ───╮")));
    assert!(is_titled_border_line(&chars(" ───x┐  ")));
    assert!(!is_titled_border_line(&chars("╭── Title ──╮")));
    assert!(!is_titled_border_line(&chars("╭─── Title ───╮ x")));
}

#[test]
fn unwrapping_framed_lines() {
    assert_eq!(unwrap_wrapped_line(&chars("║║ text  ║")), Some(chars("text")));
    assert_eq!(unwrap_wrapped_line(&chars("│   indented │")), Some(chars("  indented")));
    assert_eq!(unwrap_wrapped_line(&chars("no frame")), None);
    assert_eq!(unwrap_wrapped_line(&chars("\u{feff}")), Some(chars("")));
    assert_eq!(unwrap_wrapped_line(&chars("│ │")), Some(chars("")));
}

#[test]
fn single_border_wrapper() {
    assert_eq!(match_content_wrapper(&chars("  │ hello │")), Some(chars("hello")));
    assert_eq!(match_content_wrapper(&chars("  │ a │ b │")), Some(chars("a │ b")));
    assert_eq!(match_content_wrapper(&chars(" ║x")), Some(chars("x")));
    assert_eq!(match_content_wrapper(&chars("  x │")), None);
    assert_eq!(clean_text("  │ ab │ cd │"), "ab  cd");
    assert_eq!(clean_text("  │ a │ b │"), "");
}

#[test]
fn inline_borders_become_single_spaces() {
    assert_eq!(scrub_inline_borderish(&chars("a││b")), chars("a b"));
    assert_eq!(scrub_inline_borderish(&chars("││a")), chars("a"));
    assert_eq!(scrub_inline_borderish(&chars("a │ b")), chars("a  b"));
    assert_eq!(scrub_inline_borderish(&chars("a ║")), chars("a"));
}

#[test]
fn line_assembler_keeps_order() {
    assert_eq!(strip_tui_lines(&chars("╭─╮\n│ xyz │\n╰─╯\n│ b │\n")), chars("xyz"));
}

#[test]
fn codepage_round_trip() {
    assert_eq!(decode_windows_1252(&[0x80, 0x41, 0x81, 0xE9]), "€A\u{81}é");
    assert_eq!(encode_windows_1252("€A\u{81}é"), Some(vec![0x80, 0x41, 0x81, 0xE9]));
    assert_eq!(encode_windows_1252("\u{80}"), None);
    assert_eq!(encode_windows_1252("a\u{82}"), None);
    assert_eq!(encode_windows_1252("ĀB"), None);
    let text = "héllo ╭─╮ ✓";
    let corrupted = decode_windows_1252(text.as_bytes());
    assert_eq!(recover_from_cp1252_mojibake(&corrupted), Some(text.to_string()));
}

#[test]
fn recovery_needs_valid_utf8() {
    assert_eq!(recover_from_cp1252_mojibake("Ã©"), Some("é".to_string()));
    assert_eq!(recover_from_cp1252_mojibake("é"), None);
    assert_eq!(recover_from_cp1252_mojibake("€"), None);
}

#[test]
fn variants_baseline_first() {
    assert_eq!(normalize_variants("\u{feff}\u{feff}abc"), vec!["abc".to_string()]);
    assert_eq!(normalize_variants("Ã©"), vec!["Ã©".to_string(), "é".to_string()]);
    assert_eq!(normalize_variants("plain"), vec!["plain".to_string()]);
}

#[test]
fn cleaned_text_holds_no_border_glyph() {
    let inputs = [
        "╔══╗\n║ a║b ║\n╚══╝",
        "x ┼ y ╳ z",
        "âââ text Ã more ¿»",
        "▐▛███▜▌ logo",
    ];
    for input in inputs {
        let cleaned = clean_text(input);
        assert!(
            cleaned.chars().all(|c| !(('\u{2500}'..='\u{259f}').contains(&c)
                || "∩âÃãÂï»¿".contains(c))),
            "{:?} -> {:?}",
            input,
            cleaned
        );
    }
}

#[test]
fn mojibake_has_the_original_as_second_reading() {
    let original = "│ Grüße café │";
    let corrupted = decode_windows_1252(original.as_bytes());
    assert_eq!(normalize_variants(&corrupted), vec![corrupted.clone(), original.to_string()]);
    assert_eq!(clean_text(&corrupted), "Grüße café");
}

#[test]
fn second_pass_drops_a_line_of_byte_order_marks() {
    let once = clean_text("a\n\u{feff} │");
    assert_eq!(once, "a\n\u{feff}");
    assert_eq!(clean_text(&once), "a");
}

#[test]
fn removing_a_border_only_line_changes_nothing() {
    let with_line = "a\n│    ║\n\n\nb";
    let without = "a\n\n\nb";
    assert_eq!(strip_tui_lines(&chars(with_line)), strip_tui_lines(&chars(without)));
    assert_eq!(clean_text(with_line), "a\n\n\nb");
}

#[test]
fn plain_lines_pass_with_trailing_space_dropped() {
    let input = "| a | b |  \n\n- item: x | y\t\nlet z = p | q;";
    assert_eq!(
        strip_tui_lines(&chars(input)),
        chars("| a | b |\n\n- item: x | y\nlet z = p | q;")
    );
}
