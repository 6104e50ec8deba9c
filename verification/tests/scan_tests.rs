use email_search::scan::{scan, CasePolicy, FileContent, Keyword, ScanOutcome};

fn bytes(text: &str) -> FileContent {
    FileContent::Bytes(text.as_bytes().to_vec())
}

#[test]
fn case_is_ignored_by_default() {
    assert_eq!(CasePolicy::default(), CasePolicy::Insensitive);
}

#[test]
fn keyword_matches_whatever_the_case() {
    let keyword = Keyword::new("invoice", CasePolicy::Insensitive);
    assert!(keyword.matches("Invoice #123"));
    assert!(keyword.matches("an INVOICE"));
    assert!(keyword.matches("invoice"));
    assert!(!keyword.matches("Meeting notes"));
    assert!(!keyword.matches("invoic"));
    assert!(!keyword.matches(""));
}

#[test]
fn keyword_in_upper_case_matches_text_in_lower_case() {
    let keyword = Keyword::new("INVOICE", CasePolicy::Insensitive);
    assert!(keyword.matches("the invoice is attached"));
    assert_eq!(keyword.text(), "INVOICE");
    assert_eq!(keyword.policy(), CasePolicy::Insensitive);
}

#[test]
fn lower_case_is_taken_beyond_ascii() {
    let keyword = Keyword::new("ÄRGER", CasePolicy::Insensitive);
    assert!(keyword.matches("kein ärger heute"));
    let greek = Keyword::new("λόγος", CasePolicy::Insensitive);
    assert!(greek.matches("ΛΌΓΟΣ"));
}

#[test]
fn sensitive_policy_compares_as_written() {
    let keyword = Keyword::new("invoice", CasePolicy::Sensitive);
    assert!(!keyword.matches("Invoice #123"));
    assert!(keyword.matches("your invoice #123"));
    assert_eq!(keyword.policy(), CasePolicy::Sensitive);
}

#[test]
fn empty_keyword_matches_every_text() {
    for policy in [CasePolicy::Insensitive, CasePolicy::Sensitive] {
        let keyword = Keyword::new("", policy);
        assert!(keyword.matches("Meeting notes"));
        assert!(keyword.matches(""));
    }
}

#[test]
fn scan_tells_the_four_outcomes_apart() {
    let keyword = Keyword::new("invoice", CasePolicy::Insensitive);
    assert_eq!(scan(&bytes("Invoice #123"), &keyword), ScanOutcome::Matched);
    assert_eq!(scan(&bytes("Meeting notes"), &keyword), ScanOutcome::NoMatch);
    assert_eq!(scan(&FileContent::Unreadable, &keyword), ScanOutcome::Unreadable);
    assert_eq!(scan(&FileContent::Bytes(vec![0x49, 0x6e, 0xff, 0xfe]), &keyword), ScanOutcome::NotText);
}

#[test]
fn scan_rejects_malformed_utf8() {
    let keyword = Keyword::new("", CasePolicy::Insensitive);
    // a lone continuation byte, a truncated sequence, an overlong form, a surrogate
    for raw in [vec![0x80u8], vec![0xe2, 0x82], vec![0xc0, 0xaf], vec![0xed, 0xa0, 0x80]] {
        assert_eq!(scan(&FileContent::Bytes(raw), &keyword), ScanOutcome::NotText);
    }
    assert_eq!(scan(&FileContent::Unreadable, &keyword), ScanOutcome::Unreadable);
}

#[test]
fn scan_decodes_text_beyond_ascii() {
    let keyword = Keyword::new("€ 100", CasePolicy::Sensitive);
    assert_eq!(scan(&bytes("Betrag: € 100"), &keyword), ScanOutcome::Matched);
    assert_eq!(scan(&bytes("Betrag: $ 100"), &keyword), ScanOutcome::NoMatch);
}

#[test]
fn scan_with_the_empty_keyword_matches_every_text_file() {
    let keyword = Keyword::new("", CasePolicy::Insensitive);
    assert_eq!(scan(&bytes("Meeting notes"), &keyword), ScanOutcome::Matched);
    assert_eq!(scan(&bytes(""), &keyword), ScanOutcome::Matched);
}
