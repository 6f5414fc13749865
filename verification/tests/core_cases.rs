use quick_translate::logfile::last_lines;
use quick_translate::diagnostics::parse_windows_version;
use quick_translate::dates::fmt_date;
use quick_translate::pets::valid_id;
use quick_translate::secret::{from_hex, open, seal, sealed_cipher, to_hex};
use quick_translate::settings::{domain_hint, lang_name, valid_hhmm};
use quick_translate::translate::is_mostly_chinese;
use quick_translate::vocab::{csv_cell, merge_meaning, vocab_candidate};

#[test]
fn language_detection() {
    assert!(is_mostly_chinese("你好,世界"));
    assert!(!is_mostly_chinese("Hello world"));
    assert!(!is_mostly_chinese("東京は日本の首都です"));
    assert!(!is_mostly_chinese(""));
}

#[test]
fn windows_version_is_extracted_even_from_garbled_output() {
    let garbled = "\nMicrosoft Windows [\u{fffd}\u{fffd}\u{fffd}\u{fffd} 10.0.26200.9457]\n";
    assert_eq!(parse_windows_version(garbled), "10.0.26200.9457");
    assert_eq!(parse_windows_version("Microsoft Windows [Version 10.0.19045.3]"), "10.0.19045.3");
    assert_eq!(parse_windows_version("nothing here"), "未知");
}

#[test]
fn reminder_time_validation() {
    assert!(valid_hhmm("21:00"));
    assert!(valid_hhmm("00:00"));
    assert!(valid_hhmm("23:59"));
    assert!(!valid_hhmm("24:00"));
    assert!(!valid_hhmm("9:00"));
    assert!(!valid_hhmm("21:60"));
    assert!(!valid_hhmm("abc"));
    assert!(!valid_hhmm("21:00:00"));
}

#[test]
fn language_and_domain_tables_agree() {
    for code in ["zh", "en", "ja", "ko", "fr", "de", "es", "ru"] {
        assert!(lang_name(code).is_some(), "{code}");
    }
    assert!(lang_name("auto").is_none());
    for code in ["tech", "medical", "legal", "business", "academic", "daily"] {
        assert!(domain_hint(code).is_some(), "{code}");
    }
    assert!(domain_hint("general").is_none());
}

#[test]
fn ids_cannot_escape_the_pets_directory() {
    assert!(valid_id("p1789876650140"));
    assert!(!valid_id(""));
    assert!(!valid_id("../settings"));
    assert!(!valid_id("a/b"));
    assert!(!valid_id("a.json"));
}

#[test]
fn hex_roundtrip() {
    assert_eq!(from_hex(&to_hex(&[0, 1, 254, 255])), Some(vec![0, 1, 254, 255]));
    assert_eq!(from_hex("abc"), None);
    assert_eq!(from_hex("zz"), None);
}

#[test]
fn legacy_plaintext_is_still_readable() {
    assert_eq!(open("sk-legacy", None), "sk-legacy");
    assert_eq!(open("", None), "");
}

/// The system protection is the app's; here it stands as a fixed byte
/// string, and unprotecting it gives the key's bytes back.
#[test]
fn sealed_key_is_not_plaintext_and_roundtrips() {
    let protected = vec![0x01, 0x00, 0x00, 0x00, 0xd0, 0x8c, 0x9d, 0xdf, 0x01, 0x15, 0xd1, 0x11];
    let stored = seal("sk-test-1234567890", Some(protected.clone()));
    assert!(stored.starts_with("dpapi:"));
    assert!(!stored.contains("sk-test"));
    assert_eq!(sealed_cipher(&stored), Some(protected));
    assert_eq!(open(&stored, Some(b"sk-test-1234567890".to_vec())), "sk-test-1234567890");
}

#[test]
fn english_word_to_chinese_is_a_lookup() {
    assert_eq!(
        vocab_candidate("Resilient", "有韧性的"),
        Some(("Resilient".into(), "有韧性的".into()))
    );
    assert!(vocab_candidate("take off", "起飞").is_some());
}

#[test]
fn chinese_word_to_english_records_the_english_side() {
    assert_eq!(
        vocab_candidate("坚韧", "resilient"),
        Some(("resilient".into(), "坚韧".into()))
    );
}

#[test]
fn sentences_are_not_lookups() {
    assert!(vocab_candidate("The company implemented a strategy.", "公司实施了战略。").is_none());
    assert!(vocab_candidate("this is a very long phrase", "这是一个很长的短语").is_none());
    assert!(vocab_candidate("hello,", "你好").is_some());
    assert!(vocab_candidate("", "").is_none());
}

#[test]
fn japanese_and_korean_are_not_recorded() {
    assert!(vocab_candidate("こんにちは", "你好").is_none());
    assert!(vocab_candidate("안녕", "你好").is_none());
}

#[test]
fn meaning_merge_dedups_and_is_bounded() {
    assert_eq!(merge_meaning("", "a"), "a");
    assert_eq!(merge_meaning("有韧性的", "有韧性的"), "有韧性的");
    assert_eq!(merge_meaning("有韧性的", "能恢复的"), "有韧性的;能恢复的");
    let long = "长".repeat(61);
    assert_eq!(merge_meaning(&long, "新"), long);
}

#[test]
fn date_formatting_handles_timezone_and_leap_days() {
    assert_eq!(fmt_date(1_709_222_400_000, 0), "2024-02-29");
    assert_eq!(fmt_date(1_709_222_400_000, 480), "2024-03-01");
    assert_eq!(fmt_date(0, 0), "1970-01-01");
}

#[test]
fn csv_cells_escape_quotes() {
    assert_eq!(csv_cell("a\"b"), "\"a\"\"b\"");
}

#[test]
fn tail_of_missing_log_is_empty() {
    // A log that does not exist reads as no text; its tail is empty.
    assert_eq!(last_lines("", 10), "");
}
