use email_search::paths::FilePath;
use email_search::plan::{mirror_steps, plan_copies, steps_for_file, CopyStep, EntryKind, TreeEntry};
use email_search::search::MatchRecord;

fn path(names: &[&str]) -> FilePath {
    FilePath::from_components(names.iter().map(|name| name.to_string()).collect())
}

fn ensure(names: &[&str]) -> CopyStep {
    CopyStep::EnsureDirectory(path(names))
}

fn copy(from: &[&str], to: &[&str]) -> CopyStep {
    CopyStep::CopyFile { from: path(from), to: path(to) }
}

#[test]
fn a_file_is_copied_after_its_directory_is_made() {
    assert_eq!(
        steps_for_file(&path(&["src", "a", "m.eml"]), &path(&["dst", "a", "m.eml"])),
        vec![ensure(&["dst", "a"]), copy(&["src", "a", "m.eml"], &["dst", "a", "m.eml"])]
    );
}

#[test]
fn a_file_with_a_single_name_has_the_empty_directory_made() {
    assert_eq!(steps_for_file(&path(&["m.eml"]), &path(&["n.eml"])), vec![ensure(&[]), copy(&["m.eml"], &["n.eml"])]);
}

#[test]
fn a_destination_without_names_has_no_directory() {
    assert_eq!(steps_for_file(&path(&["m.eml"]), &FilePath::new()), vec![copy(&["m.eml"], &[])]);
}

#[test]
fn records_are_planned_in_their_order() {
    let records = vec![
        MatchRecord { source: path(&["src", "a", "1.eml"]), destination: path(&["dst", "a", "1.eml"]) },
        MatchRecord { source: path(&["src", "2.eml"]), destination: path(&["dst", "2.eml"]) },
    ];
    assert_eq!(
        plan_copies(&records),
        vec![
            ensure(&["dst", "a"]),
            copy(&["src", "a", "1.eml"], &["dst", "a", "1.eml"]),
            ensure(&["dst"]),
            copy(&["src", "2.eml"], &["dst", "2.eml"]),
        ]
    );
}

#[test]
fn a_directory_is_mirrored_entry_by_entry() {
    let entries = vec![
        TreeEntry { relative: path(&["sub"]), kind: EntryKind::Directory },
        TreeEntry { relative: path(&["sub", "m.eml"]), kind: EntryKind::File },
        TreeEntry { relative: path(&["empty"]), kind: EntryKind::Directory },
        TreeEntry { relative: path(&["top.txt"]), kind: EntryKind::File },
    ];
    assert_eq!(
        mirror_steps(&path(&["src", "box"]), &path(&["dst", "box"]), &entries),
        vec![
            ensure(&["dst", "box"]),
            ensure(&["dst", "box", "sub"]),
            ensure(&["dst", "box", "sub"]),
            copy(&["src", "box", "sub", "m.eml"], &["dst", "box", "sub", "m.eml"]),
            ensure(&["dst", "box", "empty"]),
            ensure(&["dst", "box"]),
            copy(&["src", "box", "top.txt"], &["dst", "box", "top.txt"]),
        ]
    );
}

#[test]
fn an_empty_directory_is_mirrored_as_a_directory() {
    assert_eq!(mirror_steps(&path(&["src"]), &path(&["dst", "copy"]), &Vec::new()), vec![ensure(&["dst", "copy"])]);
}
