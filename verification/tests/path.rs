use cat_prep::path::DocPath;
use std::path::{Component, Path};

fn texts() -> Vec<&'static str> {
    vec![
        "",
        ".",
        "..",
        "/",
        "//",
        "a",
        "a/",
        "a/b",
        "a//b",
        "a/./b",
        "a/b/.",
        "./a/b",
        ".//a",
        "a/..",
        "a/../b",
        "../a",
        "/a",
        "/a/b/",
        "/.",
        "/..",
        "//a",
        "./",
        "./.",
        ".a",
        "a.",
        "..a",
        "...",
        "math/subject.md",
        "math/algebra/intro.md",
        "subject.md",
        "teachers.md",
        "mathx/subject.md",
        "math/xsubject.md",
        "předměty/úvod.md",
    ]
}

fn std_parts(text: &str) -> Vec<String> {
    Path::new(text)
        .components()
        .map(|c| match c {
            Component::RootDir => "/".to_string(),
            Component::CurDir => ".".to_string(),
            Component::ParentDir => "..".to_string(),
            Component::Normal(name) => name.to_str().unwrap().to_string(),
            Component::Prefix(prefix) => prefix.as_os_str().to_str().unwrap().to_string(),
        })
        .collect()
}

#[test]
fn components_are_those_of_std() {
    for text in texts() {
        assert_eq!(DocPath::parse(text).parts, std_parts(text), "components of {:?}", text);
    }
}

#[test]
fn components_of_plain_paths() {
    assert_eq!(DocPath::parse("math/subject.md").parts, vec!["math", "subject.md"]);
    assert_eq!(DocPath::parse("a//b/./c/").parts, vec!["a", "b", "c"]);
    assert_eq!(DocPath::parse("/a").parts, vec!["/", "a"]);
    assert_eq!(DocPath::parse("./a").parts, vec![".", "a"]);
    assert_eq!(DocPath::parse("").parts, Vec::<String>::new());
}

#[test]
fn same_is_equality_of_std() {
    for a in texts() {
        for b in texts() {
            assert_eq!(
                DocPath::parse(a).same(&DocPath::parse(b)),
                Path::new(a) == Path::new(b),
                "{:?} == {:?}",
                a,
                b
            );
        }
    }
}

#[test]
fn starts_with_is_that_of_std() {
    for a in texts() {
        for b in texts() {
            assert_eq!(
                DocPath::parse(a).starts_with(&DocPath::parse(b)),
                Path::new(a).starts_with(Path::new(b)),
                "{:?} starts with {:?}",
                a,
                b
            );
        }
    }
}

#[test]
fn starts_with_counts_whole_components() {
    let path = DocPath::parse("math/algebra/intro.md");
    assert!(path.starts_with(&DocPath::parse("math")));
    assert!(path.starts_with(&DocPath::parse("math/algebra")));
    assert!(path.starts_with(&DocPath::parse("")));
    assert!(path.starts_with(&path.clone()));
    assert!(!path.starts_with(&DocPath::parse("mat")));
    assert!(!path.starts_with(&DocPath::parse("math/alg")));
    assert!(!path.starts_with(&DocPath::parse("algebra")));
}

#[test]
fn parent_is_that_of_std() {
    for text in texts() {
        let ours = DocPath::parse(text).parent().map(|p| p.parts);
        let theirs = Path::new(text).parent().map(|p| std_parts(p.to_str().unwrap()));
        assert_eq!(ours, theirs, "parent of {:?}", text);
    }
}

#[test]
fn parent_of_plain_paths() {
    assert_eq!(DocPath::parse("math/subject.md").parent().unwrap().parts, vec!["math"]);
    assert_eq!(DocPath::parse("subject.md").parent().unwrap().parts, Vec::<String>::new());
    assert!(DocPath::parse("").parent().is_none());
    assert!(DocPath::parse("/").parent().is_none());
}

#[test]
fn file_name_is_that_of_std() {
    for text in texts() {
        let ours = DocPath::parse(text).file_name();
        let theirs = Path::new(text).file_name().map(|n| n.to_str().unwrap().to_string());
        assert_eq!(ours, theirs, "file name of {:?}", text);
    }
}

#[test]
fn text_of_a_path_joins_its_components() {
    assert_eq!(DocPath::parse("math/subject.md").to_text(), "math/subject.md");
    assert_eq!(DocPath::parse("a//b/./c/").to_text(), "a/b/c");
    assert_eq!(DocPath::parse("/a/b").to_text(), "/a/b");
    assert_eq!(DocPath::parse("/").to_text(), "/");
    assert_eq!(DocPath::parse("./a").to_text(), "./a");
    assert_eq!(DocPath::parse("").to_text(), "");
    assert_eq!(DocPath::parse("foo.md").to_text(), "foo.md");
}

#[test]
fn text_of_a_path_names_the_path_again() {
    for text in texts() {
        let path = DocPath::parse(text);
        assert!(DocPath::parse(&path.to_text()).same(&path), "text of {:?}", text);
    }
}

#[test]
fn clone_keeps_the_components() {
    let path = DocPath::parse("a/b/c.md");
    assert_eq!(path.clone().parts, path.parts);
}
