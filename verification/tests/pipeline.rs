use novel_words::batch::{classify_extension, elapsed_display, extension_of, output_file_name, FileKind};
use novel_words::pipeline::{create_matching_word_set, process_chunk, process_text_lines, trim_and_lower};
use novel_words::text::{clean_text, split_whitespace_tokens};
use novel_words::words::{sanitize, should_write_and_save_value, WordSet};

fn known_from(words: &[&str]) -> WordSet {
    let lines: Vec<String> = words.iter().map(|w| w.to_string()).collect();
    create_matching_word_set(&lines)
}

#[test]
fn sanitize_strips_and_lowercases() {
    assert_eq!(sanitize("Fox-trot!"), "foxtrot");
    assert_eq!(sanitize("Hello,"), "hello");
    assert_eq!(sanitize("''quoted''"), "quoted");
    assert_eq!(sanitize(""), "");
    assert_eq!(sanitize("123"), "123");
    assert_eq!(sanitize("Ab9"), "ab9");
}

#[test]
fn sanitize_is_idempotent_on_examples() {
    for w in ["Fox-trot!", "MiXeD123", "...", "already", "A!b9"] {
        let once = sanitize(w);
        assert_eq!(sanitize(&once), once);
    }
}

#[test]
fn clean_text_replaces_artifacts() {
    assert_eq!(clean_text("a--b-c[d"), "a b c d");
    assert_eq!(clean_text("x\u{e2}\u{20ac}\u{201d}y"), "x y");
    assert_eq!(clean_text("plain words"), "plain words");
}

#[test]
fn tokens_split_on_whitespace_runs() {
    let toks = split_whitespace_tokens("  the quick\tbrown\nfox  ");
    assert_eq!(toks, vec!["the", "quick", "brown", "fox"]);
    assert_eq!(split_whitespace_tokens("   "), Vec::<String>::new());
}

#[test]
fn filter_accepts_a_novel_word() {
    let known = WordSet::new();
    let unique = WordSet::new();
    assert!(should_write_and_save_value(&"hello".to_string(), &unique, &known));
}

#[test]
fn filter_rejects_digits_only() {
    let known = WordSet::new();
    let unique = WordSet::new();
    assert!(!should_write_and_save_value(&"123".to_string(), &unique, &known));
}

#[test]
fn filter_rejects_empty() {
    let known = WordSet::new();
    let unique = WordSet::new();
    assert!(!should_write_and_save_value(&"".to_string(), &unique, &known));
}

#[test]
fn filter_rejects_artifacts() {
    let known = WordSet::new();
    let unique = WordSet::new();
    assert!(!should_write_and_save_value(&"httpexample".to_string(), &unique, &known));
    assert!(!should_write_and_save_value(&"xhtmlfileposy".to_string(), &unique, &known));
}

#[test]
fn filter_rejects_already_seen() {
    let known = WordSet::new();
    let mut unique = WordSet::new();
    unique.insert("hello".to_string());
    assert!(!should_write_and_save_value(&"hello".to_string(), &unique, &known));
}

#[test]
fn filter_rejects_known_word() {
    let known = known_from(&["hello"]);
    let unique = WordSet::new();
    assert!(!should_write_and_save_value(&"hello".to_string(), &unique, &known));
}

#[test]
fn dictionary_lines_lose_trailing_whitespace_only() {
    assert_eq!(trim_and_lower("The \n"), "the");
    assert_eq!(trim_and_lower("  The "), "  the");
    let known = known_from(&["The \n", "QUICK", "", "  padded"]);
    assert!(known.contains("the"));
    assert!(known.contains("quick"));
    assert!(known.contains(""));
    assert!(known.contains("  padded"));
    assert!(!known.contains("padded"));
    assert!(!known.contains("brown"));
}

#[test]
fn chunk_scenario_with_known_words() {
    let known = known_from(&["the", "quick", "brown", "fox"]);
    let mut unique = WordSet::new();
    let out = process_chunk(
        "The Quick Zephyr jumps over the brown Fox-trot",
        &known,
        &mut unique,
    );
    assert_eq!(out, vec!["zephyr", "jumps", "over", "trot"]);
    assert!(unique.contains("zephyr"));
    assert!(unique.contains("trot"));
    assert!(!unique.contains("fox"));
}

#[test]
fn novelty_set_spans_lines() {
    let known = WordSet::new();
    let mut unique = WordSet::new();
    let lines = vec![
        "alpha beta".to_string(),
        "beta gamma alpha".to_string(),
        "gamma delta".to_string(),
    ];
    let out = process_text_lines(&lines, &known, &mut unique);
    assert_eq!(out, vec!["alpha", "beta", "gamma", "delta"]);
}

#[test]
fn novelty_set_carries_across_calls() {
    let known = WordSet::new();
    let mut unique = WordSet::new();
    let first = process_chunk("echo foxtrot", &known, &mut unique);
    assert_eq!(first, vec!["echo", "foxtrot"]);
    let second = process_chunk("foxtrot golf echo", &known, &mut unique);
    assert_eq!(second, vec!["golf"]);
}

#[test]
fn extension_of_reads_the_last_dot() {
    assert_eq!(extension_of("notes.docx"), Some("docx".to_string()));
    assert_eq!(extension_of("archive.tar.gz"), Some("gz".to_string()));
    assert_eq!(extension_of("noext"), None);
    assert_eq!(extension_of(".bashrc"), None);
    assert_eq!(extension_of("trailing."), Some("".to_string()));
}

#[test]
fn classification_matches_supported_formats() {
    assert_eq!(classify_extension("epub"), FileKind::Epub);
    assert_eq!(classify_extension("pdf"), FileKind::Pdf);
    assert_eq!(classify_extension("txt"), FileKind::PlainText);
    assert_eq!(classify_extension("docx"), FileKind::Unsupported);
    assert_eq!(classify_extension("TXT"), FileKind::Unsupported);
}

#[test]
fn output_name_uses_date_and_safe_time() {
    assert_eq!(
        output_file_name("2024-01-02 03:04:05 +00:00"),
        Some("2024-01-02_03_04_05.txt".to_string())
    );
    assert_eq!(output_file_name("lonely"), None);
    assert_eq!(output_file_name(""), None);
}

#[test]
fn elapsed_shows_millis_under_a_second() {
    assert_eq!(elapsed_display(999), (999, true));
    assert_eq!(elapsed_display(0), (0, true));
    assert_eq!(elapsed_display(1000), (1, false));
    assert_eq!(elapsed_display(2500), (2, false));
}
