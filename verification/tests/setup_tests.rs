use email_search::paths::FilePath;
use email_search::scan::CasePolicy;
use email_search::setup::{chosen_directory, request_from_input, SetupError};

fn path(names: &[&str]) -> FilePath {
    FilePath::from_components(names.iter().map(|name| name.to_string()).collect())
}

#[test]
fn a_cancelled_picker_is_a_setup_failure() {
    assert_eq!(chosen_directory(None), Err(SetupError::NoDirectorySelected));
    assert_eq!(SetupError::NoDirectorySelected.message(), "No directory selected!");
}

#[test]
fn a_chosen_directory_is_handed_on() {
    assert_eq!(chosen_directory(Some(path(&["home", "mail"]))), Ok(path(&["home", "mail"])));
    assert_eq!(chosen_directory(Some(FilePath::new())), Ok(FilePath::new()));
}

#[test]
fn the_keyword_line_is_trimmed() {
    let request = request_from_input(path(&["src"]), path(&["dst"]), "  Invoice 2024\r\n", CasePolicy::Sensitive);
    assert_eq!(request.keyword.text(), "Invoice 2024");
    assert_eq!(request.keyword.policy(), CasePolicy::Sensitive);
    assert_eq!(request.source_root, path(&["src"]));
    assert_eq!(request.destination_root, path(&["dst"]));
}

#[test]
fn an_empty_keyword_line_is_accepted() {
    let request = request_from_input(path(&["src"]), path(&["dst"]), "\n", CasePolicy::Insensitive);
    assert_eq!(request.keyword.text(), "");
    assert!(request.keyword.matches("anything"));
}
