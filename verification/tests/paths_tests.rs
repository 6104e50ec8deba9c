use email_search::paths::{FilePath, PathError};
use std::path::Path;

fn path(names: &[&str]) -> FilePath {
    FilePath::from_components(names.iter().map(|name| name.to_string()).collect())
}

fn extension_of_name(name: &str) -> Option<String> {
    path(&["dir", name]).extension()
}

#[test]
fn extension_is_what_follows_the_last_dot() {
    assert_eq!(extension_of_name("msg1.eml"), Some("eml".to_string()));
    assert_eq!(extension_of_name("archive.tar.gz"), Some("gz".to_string()));
    assert_eq!(extension_of_name("trailing."), Some(String::new()));
    assert_eq!(extension_of_name("..eml"), Some("eml".to_string()));
    assert_eq!(extension_of_name("a.b.eml"), Some("eml".to_string()));
}

#[test]
fn extension_is_missing_without_an_inner_dot() {
    assert_eq!(extension_of_name("notes"), None);
    assert_eq!(extension_of_name(".eml"), None);
    assert_eq!(extension_of_name(".."), None);
    assert_eq!(extension_of_name("."), None);
    assert_eq!(extension_of_name(""), None);
    assert_eq!(FilePath::new().extension(), None);
}

#[test]
fn extension_agrees_with_the_standard_library() {
    let names = [
        "msg1.eml", "notes.txt", ".eml", "..eml", "a.", "a.b.c", "plain", ".hidden.eml", "x.EML",
        "eml", "e.m.l", "..", "...", "a..b",
    ];
    for name in names {
        let expected = Path::new(name).extension().and_then(|ext| ext.to_str()).map(String::from);
        assert_eq!(path(&[name]).extension(), expected, "for the name {:?}", name);
    }
}

#[test]
fn candidates_have_exactly_the_extension_eml() {
    assert!(path(&["a", "msg1.eml"]).is_candidate());
    assert!(path(&["msg1.eml"]).is_candidate());
    assert!(!path(&["a", "notes.txt"]).is_candidate());
    assert!(!path(&["a", "msg1.EML"]).is_candidate());
    assert!(!path(&["a", "msg1.Eml"]).is_candidate());
    assert!(!path(&["a", "msg1.eml2"]).is_candidate());
    assert!(!path(&["a", "msg1.em"]).is_candidate());
    assert!(!path(&["a", "msg1eml"]).is_candidate());
    assert!(!path(&["a", ".eml"]).is_candidate());
    assert!(!path(&["a.eml", "inner"]).is_candidate());
    assert!(!FilePath::new().is_candidate());
}

#[test]
fn has_extension_compares_exactly() {
    let file = path(&["a", "report.TXT"]);
    assert!(file.has_extension("TXT"));
    assert!(!file.has_extension("txt"));
    assert!(!file.has_extension(""));
    assert!(path(&["a", "odd."]).has_extension(""));
}

#[test]
fn starts_with_compares_whole_names() {
    let file = path(&["root", "a", "b", "msg.eml"]);
    assert!(file.starts_with(&path(&["root"])));
    assert!(file.starts_with(&path(&["root", "a"])));
    assert!(file.starts_with(&file.clone()));
    assert!(file.starts_with(&FilePath::new()));
    assert!(!file.starts_with(&path(&["roo"])));
    assert!(!file.starts_with(&path(&["root", "b"])));
    assert!(!file.starts_with(&path(&["root", "a", "b", "msg.eml", "x"])));
}

#[test]
fn strip_prefix_gives_the_names_below_the_base() {
    let file = path(&["root", "a", "b", "msg.eml"]);
    assert_eq!(file.strip_prefix(&path(&["root"])), Ok(path(&["a", "b", "msg.eml"])));
    assert_eq!(file.strip_prefix(&file.clone()), Ok(FilePath::new()));
    assert_eq!(file.strip_prefix(&FilePath::new()), Ok(file.clone()));
}

#[test]
fn strip_prefix_fails_outside_the_base() {
    let file = path(&["root", "a", "msg.eml"]);
    assert_eq!(file.strip_prefix(&path(&["other"])), Err(PathError::NotUnderRoot));
    assert_eq!(file.strip_prefix(&path(&["root", "a", "msg.eml", "deeper"])), Err(PathError::NotUnderRoot));
    assert_eq!(file.strip_prefix(&path(&["root", "A"])), Err(PathError::NotUnderRoot));
}

#[test]
fn join_appends_the_relative_names() {
    assert_eq!(path(&["D"]).join(&path(&["a", "msg1.eml"])), path(&["D", "a", "msg1.eml"]));
    assert_eq!(path(&["D"]).join(&FilePath::new()), path(&["D"]));
    assert_eq!(FilePath::new().join(&path(&["a"])), path(&["a"]));
}

#[test]
fn parent_drops_the_last_name() {
    assert_eq!(path(&["D", "a", "msg1.eml"]).parent(), Some(path(&["D", "a"])));
    assert_eq!(path(&["D"]).parent(), Some(FilePath::new()));
    assert_eq!(FilePath::new().parent(), None);
}

#[test]
fn destination_is_the_root_followed_by_the_relative_path() {
    let source_root = path(&["home", "export"]);
    let destination_root = path(&["mnt", "D"]);
    let file = path(&["home", "export", "a", "msg1.eml"]);
    assert_eq!(
        file.destination_in(&source_root, &destination_root),
        Ok(path(&["mnt", "D", "a", "msg1.eml"]))
    );
    assert_eq!(source_root.destination_in(&source_root, &destination_root), Ok(destination_root.clone()));
}

#[test]
fn destination_fails_for_a_path_outside_the_source_root() {
    let source_root = path(&["home", "export"]);
    let destination_root = path(&["mnt", "D"]);
    let stray = path(&["home", "other", "msg1.eml"]);
    assert_eq!(stray.destination_in(&source_root, &destination_root), Err(PathError::NotUnderRoot));
    assert_eq!(path(&["home"]).destination_in(&source_root, &destination_root), Err(PathError::NotUnderRoot));
}

#[test]
fn different_sources_get_different_destinations() {
    let source_root = path(&["src"]);
    let destination_root = path(&["dst"]);
    let first = path(&["src", "a", "m.eml"]).destination_in(&source_root, &destination_root);
    let second = path(&["src", "b", "m.eml"]).destination_in(&source_root, &destination_root);
    assert_ne!(first, second);
}

#[test]
fn paths_compare_by_their_names() {
    let mut built = FilePath::new();
    assert_eq!(built.len(), 0);
    built.push("a".to_string());
    built.push("msg1.eml".to_string());
    assert_eq!(built.len(), 2);
    assert_eq!(built, path(&["a", "msg1.eml"]));
    assert_ne!(built, path(&["a", "msg1.em"]));
    assert_ne!(built, path(&["a"]));
    assert_ne!(built, path(&["a", "msg1.eml", "x"]));
    assert_eq!(built.clone(), built);
}

fn from_std(path: &Path) -> FilePath {
    FilePath::from_components(
        path.components().map(|part| part.as_os_str().to_str().unwrap().to_string()).collect(),
    )
}

#[test]
fn strip_prefix_agrees_with_the_standard_library() {
    let cases = [
        ("/home/export/a/msg1.eml", "/home/export"),
        ("/home/export/a/msg1.eml", "/home/exp"),
        ("/home/export/a/msg1.eml", "/"),
        ("/home/export", "/home/export"),
        ("a/b/c", "a/b"),
        ("a/b/c", "b"),
        ("a/b", "a/b/c"),
        ("./a/b.eml", "."),
        ("/a//b/./c/", "/a/b"),
        ("a/b/c", "/a"),
    ];
    for (path, base) in cases {
        let expected = Path::new(path).strip_prefix(base).ok().map(from_std);
        let got = from_std(Path::new(path)).strip_prefix(&from_std(Path::new(base))).ok();
        assert_eq!(got, expected, "{:?} relative to {:?}", path, base);
    }
}

#[test]
fn destination_agrees_with_the_standard_library() {
    let cases = [
        ("/home/export", "/home/export/a/msg1.eml", "/mnt/D"),
        ("/home/export", "/home/export/a/b/msg2.eml", "out"),
        ("/home/export", "/home/other/msg1.eml", "/mnt/D"),
        ("export", "export/msg1.eml", "/mnt/D/"),
        (".", "./a/msg1.eml", "D"),
        ("/home/export", "/home/export", "/mnt/D"),
    ];
    for (root, file, destination) in cases {
        let expected = Path::new(file)
            .strip_prefix(root)
            .ok()
            .map(|relative| from_std(&Path::new(destination).join(relative)));
        let got = from_std(Path::new(file))
            .destination_in(&from_std(Path::new(root)), &from_std(Path::new(destination)))
            .ok();
        assert_eq!(got, expected, "{:?} from {:?} into {:?}", file, root, destination);
    }
}
