use wham_ui::bidi::{has_rtl, reorder_paragraph, runs_from_paragraphs};

#[test]
fn latin_text_has_no_rtl() {
    assert!(!has_rtl("hello world"));
    assert!(!has_rtl(""));
}

#[test]
fn hebrew_and_arabic_are_rtl() {
    assert!(has_rtl("abc \u{05D0}"));
    assert!(has_rtl("\u{0627}\u{0644}"));
    assert!(has_rtl("x\u{FB1D}"));
    assert!(has_rtl("x\u{FEFF}"));
}

#[test]
fn block_boundaries() {
    assert!(!has_rtl("\u{058F}"));
    assert!(has_rtl("\u{0590}"));
    assert!(has_rtl("\u{08FF}"));
    assert!(!has_rtl("\u{0900}"));
    assert!(!has_rtl("\u{FB1C}"));
    assert!(has_rtl("\u{FDFF}"));
    assert!(!has_rtl("\u{FE6F}"));
    assert!(has_rtl("\u{FE70}"));
}

#[test]
fn empty_paragraph_has_no_runs() {
    assert!(reorder_paragraph("").is_empty());
}

#[test]
fn ltr_paragraph_is_one_ltr_run() {
    let runs = reorder_paragraph("hello");
    assert_eq!(runs.len(), 1);
    assert_eq!(runs[0].text, "hello");
    assert!(!runs[0].is_rtl);
    assert_eq!(runs[0].level, 0);
}

#[test]
fn rtl_paragraph_is_reversed_for_display() {
    let runs = reorder_paragraph("\u{05E9}\u{05DC}\u{05D5}\u{05DD}");
    assert_eq!(runs.len(), 1);
    assert_eq!(runs[0].text, "\u{05DD}\u{05D5}\u{05DC}\u{05E9}");
    assert!(runs[0].is_rtl);
    assert_eq!(runs[0].level, 1);
}

#[test]
fn runs_without_a_paragraph_keep_the_text() {
    let runs = runs_from_paragraphs("abc", Vec::new());
    assert_eq!(runs.len(), 1);
    assert_eq!(runs[0].text, "abc");
    assert!(!runs[0].is_rtl);
    assert_eq!(runs[0].level, 0);
}

#[test]
fn odd_levels_are_rtl() {
    let runs = runs_from_paragraphs("abc", vec![("abc".to_string(), "cba".to_string(), 3)]);
    assert_eq!(runs[0].text, "cba");
    assert!(runs[0].is_rtl);
    assert_eq!(runs[0].level, 3);
    let runs = runs_from_paragraphs("abc", vec![("abc".to_string(), "abc".to_string(), 2)]);
    assert!(!runs[0].is_rtl);
    assert!(runs_from_paragraphs("", vec![("x".to_string(), "x".to_string(), 1)]).is_empty());
}

#[test]
fn one_run_per_paragraph_in_order() {
    let runs = runs_from_paragraphs(
        "ab\ncd",
        vec![("ab\n".to_string(), "ab\n".to_string(), 0), ("cd".to_string(), "dc".to_string(), 1)],
    );
    assert_eq!(runs.len(), 2);
    assert_eq!(runs[0].text, "ab\n");
    assert!(!runs[0].is_rtl);
    assert_eq!(runs[1].text, "dc");
    assert!(runs[1].is_rtl);
    assert_eq!(runs[1].level, 1);
}

#[test]
fn every_paragraph_is_kept() {
    let runs = reorder_paragraph("ab\ncd");
    assert_eq!(runs.len(), 2);
    let joined: String = runs.iter().map(|r| r.text.as_str()).collect();
    assert_eq!(joined, "ab\ncd");
    assert!(runs.iter().all(|r| !r.is_rtl && r.level == 0));
}

#[test]
fn rtl_second_paragraph_is_reversed() {
    let runs = reorder_paragraph("hi\n\u{05D0}\u{05D1}");
    assert_eq!(runs.len(), 2);
    assert_eq!(runs[0].text, "hi\n");
    assert_eq!(runs[0].level, 0);
    assert_eq!(runs[1].text, "\u{05D1}\u{05D0}");
    assert!(runs[1].is_rtl);
}

#[test]
fn strong_rtl_outside_the_fast_blocks() {
    // Adlam letter (Bidi_Class R) and the RIGHT-TO-LEFT MARK (R).
    assert!(has_rtl("abc \u{1E900}"));
    assert!(has_rtl("\u{200F}"));
    // Syriac-range and Arabic presentation characters count without a lookup.
    assert!(has_rtl("\u{0660}"));
    // Left-to-right and neutral characters of other scripts do not.
    assert!(!has_rtl("\u{4E2D}\u{6587} 123 \u{0915}"));
}
