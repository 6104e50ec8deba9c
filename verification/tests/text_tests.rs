use email_search::text::{chars_of, contains, find, trim};

#[test]
fn contains_finds_a_word_in_the_middle() {
    assert!(contains("Invoice #123", "voice"));
    assert!(!contains("Invoice #123", "invoice"));
}

#[test]
fn contains_accepts_the_empty_needle() {
    assert!(contains("abc", ""));
    assert!(contains("", ""));
    assert!(!contains("", "a"));
}

#[test]
fn find_gives_the_first_position() {
    let hay = chars_of("abcabc");
    assert_eq!(find(&hay, &chars_of("bc")), Some(1));
    assert_eq!(find(&hay, &chars_of("abcabc")), Some(0));
    assert_eq!(find(&hay, &chars_of("abcabcd")), None);
    assert_eq!(find(&hay, &chars_of("cb")), None);
}

#[test]
fn trim_removes_surrounding_whitespace_only() {
    assert_eq!(trim("  two words \r\n"), "two words");
    assert_eq!(trim("\t\n "), "");
    assert_eq!(trim(""), "");
    assert_eq!(trim("plain"), "plain");
    assert_eq!(trim("\u{a0}wide\u{3000}"), "wide");
}

#[test]
fn find_places_the_empty_needle_at_the_start() {
    assert_eq!(find(&chars_of("abc"), &chars_of("")), Some(0));
    assert_eq!(find(&chars_of(""), &chars_of("")), Some(0));
    assert_eq!(find(&chars_of(""), &chars_of("a")), None);
}

#[test]
fn find_counts_characters_not_bytes() {
    let hay = chars_of("größe €5");
    assert_eq!(hay.len(), 8);
    assert_eq!(find(&hay, &chars_of("€")), Some(6));
    assert_eq!(find(&hay, &chars_of("ße")), Some(3));
    assert!(contains("größe €5", "e €"));
    assert!(!contains("größe €5", "sse"));
}

#[test]
fn chars_of_gives_the_characters_in_order() {
    assert_eq!(chars_of("a€b"), vec!['a', '€', 'b']);
    assert_eq!(chars_of(""), Vec::<char>::new());
}
