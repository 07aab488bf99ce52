use novel_words::extract::{process_epub_bytes, process_page, process_pdf_bytes};
use novel_words::words::WordSet;

#[test]
fn html_page_is_rendered_and_filtered() {
    let known = WordSet::new();
    let mut unique = WordSet::new();
    let html = b"<html><body><p>Zephyr jumps over 42 fences.</p></body></html>".to_vec();
    let out = process_page(&html, &known, &mut unique).expect("rendering plain html must work");
    assert_eq!(out, vec!["zephyr", "jumps", "over", "fences"]);
}

#[test]
fn html_rendering_respects_known_words() {
    let lines = vec!["zephyr".to_string()];
    let known = novel_words::pipeline::create_matching_word_set(&lines);
    let mut unique = WordSet::new();
    let html = b"<p>Zephyr gusts</p>".to_vec();
    let out = process_page(&html, &known, &mut unique).expect("rendering plain html must work");
    assert_eq!(out, vec!["gusts"]);
}

#[test]
fn broken_epub_bytes_are_refused() {
    let known = WordSet::new();
    let mut unique = WordSet::new();
    let garbage = b"this is not an epub container at all".to_vec();
    assert!(process_epub_bytes(garbage, &known, &mut unique).is_none());
    assert!(!unique.contains("this"));
}

#[test]
fn broken_pdf_bytes_are_refused() {
    let known = WordSet::new();
    let mut unique = WordSet::new();
    let garbage = b"this is not a pdf document".to_vec();
    assert!(process_pdf_bytes(&garbage, &known, &mut unique).is_none());
    assert!(!unique.contains("this"));
}
