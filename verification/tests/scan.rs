use cat_prep::error::CatError;
use cat_prep::models::{ArticleCard, SubjectCard};
use cat_prep::path::DocPath;
use cat_prep::scan::{
    build_subjects, is_article_document, is_subject_document, ArticleScan, SubjectScan,
};

fn subject_card(title: &str, bio: &str) -> SubjectCard {
    SubjectCard {
        nazev: title.to_string(),
        zodpovedna_osoba: "novak".to_string(),
        bio: bio.to_string(),
        _resolved_path: None,
    }
}

fn article_card(title: &str, tags: &[&str]) -> ArticleCard {
    ArticleCard {
        nazev: title.to_string(),
        tagy: tags.iter().map(|t| t.to_string()).collect(),
        datum: None,
        _resolved_path: None,
    }
}

fn roots(texts: &[&str]) -> Vec<DocPath> {
    texts.iter().map(|t| DocPath::parse(t)).collect()
}

#[test]
fn subject_documents_end_with_the_marker() {
    assert!(is_subject_document(&DocPath::parse("math/subject.md")));
    assert!(is_subject_document(&DocPath::parse("subject.md")));
    assert!(is_subject_document(&DocPath::parse("a/b/c/subject.md")));
    assert!(is_subject_document(&DocPath::parse("math/old-subject.md")));
    assert!(!is_subject_document(&DocPath::parse("math/subject.mdx")));
    assert!(!is_subject_document(&DocPath::parse("math/article.md")));
    assert!(!is_subject_document(&DocPath::parse("subject.md/article.md")));
    assert!(!is_subject_document(&DocPath::parse("math/Subject.md")));
    assert!(!is_subject_document(&DocPath::parse("")));
    assert!(!is_subject_document(&DocPath::parse("/")));
}

#[test]
fn article_documents_lie_below_a_subject_and_are_no_subject() {
    let roots = roots(&["math", "physics/optics"]);
    assert!(is_article_document(&DocPath::parse("math/a.md"), &roots));
    assert!(is_article_document(&DocPath::parse("math/deep/er/a.md"), &roots));
    assert!(is_article_document(&DocPath::parse("physics/optics/lens.md"), &roots));
    assert!(is_article_document(&DocPath::parse("math/old-subject.md"), &roots));
    assert!(is_article_document(&DocPath::parse("math"), &roots));
    assert!(!is_article_document(&DocPath::parse("math/subject.md"), &roots));
    assert!(!is_article_document(&DocPath::parse("math/deep/subject.md"), &roots));
    assert!(!is_article_document(&DocPath::parse("physics/a.md"), &roots));
    assert!(!is_article_document(&DocPath::parse("mathematics/a.md"), &roots));
    assert!(!is_article_document(&DocPath::parse("intro.md"), &roots));
    assert!(!is_article_document(&DocPath::parse("math/a.md"), &vec![]));
}

#[test]
fn a_subject_at_the_top_takes_every_document() {
    let roots = roots(&[""]);
    assert!(is_article_document(&DocPath::parse("intro.md"), &roots));
    assert!(is_article_document(&DocPath::parse("a/b.md"), &roots));
    assert!(!is_article_document(&DocPath::parse("subject.md"), &roots));
}

#[test]
fn a_scan_for_subjects_cuts_headers_off_subject_documents_only() {
    let mut scan = SubjectScan::new();
    let mut content = "nazev = \"M\"\n+++\nbody".to_string();
    assert_eq!(scan.visit("math/a.md", &mut content), None);
    assert_eq!(content, "nazev = \"M\"\n+++\nbody");
    assert_eq!(scan.visit("math/subject.md", &mut content), Some("nazev = \"M\"".to_string()));
    assert_eq!(content, "body");
    assert!(scan.failure.is_none());
    assert!(scan.cards.is_empty());
}

#[test]
fn a_subject_document_without_a_header_is_a_failure_and_stays() {
    let mut scan = SubjectScan::new();
    let mut content = "no header here\n".to_string();
    assert_eq!(scan.visit("math/subject.md", &mut content), None);
    assert_eq!(content, "no header here\n");
    assert!(matches!(scan.failure, Some(CatError::InvalidOrMissingHeader)));
    assert!(matches!(scan.finish(), Err(CatError::InvalidOrMissingHeader)));
}

#[test]
fn accepted_cards_get_the_path_of_their_document() {
    let mut scan = SubjectScan::new();
    scan.accept("math/subject.md", Ok(subject_card("Math", "m")));
    assert_eq!(scan.cards.len(), 1);
    assert_eq!(scan.cards[0]._resolved_path.as_ref().unwrap().to_text(), "math/subject.md");
    assert_eq!(scan.cards[0].nazev, "Math");
    assert_eq!(scan.cards[0].bio, "m");
    assert_eq!(scan.cards[0].zodpovedna_osoba, "novak");
}

#[test]
fn a_card_that_carries_a_path_gets_that_of_its_document() {
    let mut card = subject_card("Math", "m");
    card._resolved_path = Some(DocPath::parse("somewhere/else.md"));
    let mut scan = SubjectScan::new();
    scan.accept("math/subject.md", Ok(card));
    assert_eq!(scan.cards[0]._resolved_path.as_ref().unwrap().to_text(), "math/subject.md");
}

#[test]
fn a_header_that_does_not_parse_is_a_failure() {
    let mut scan = SubjectScan::new();
    scan.accept("math/subject.md", Err("missing field `nazev`".to_string()));
    assert!(scan.cards.is_empty());
    assert!(matches!(
        scan.finish(),
        Err(CatError::InvalidHeaderFormat { err }) if err == "missing field `nazev`"
    ));
}

#[test]
fn the_first_failure_of_a_scan_stays() {
    let mut scan = SubjectScan::new();
    scan.accept("a/subject.md", Ok(subject_card("A", "")));
    scan.accept("b/subject.md", Err("first".to_string()));
    let mut content = "nothing".to_string();
    assert_eq!(scan.visit("c/subject.md", &mut content), None);
    scan.accept("d/subject.md", Err("later".to_string()));
    scan.accept("e/subject.md", Ok(subject_card("E", "")));
    assert_eq!(scan.cards.len(), 2);
    assert!(matches!(scan.finish(), Err(CatError::InvalidHeaderFormat { err }) if err == "first"));

    let mut scan = SubjectScan::new();
    let mut content = "nothing".to_string();
    assert_eq!(scan.visit("c/subject.md", &mut content), None);
    scan.accept("b/subject.md", Err("later".to_string()));
    assert!(matches!(scan.finish(), Err(CatError::InvalidOrMissingHeader)));
}

#[test]
fn a_scan_gives_its_cards_sorted_by_title() {
    let mut scan = SubjectScan::new();
    scan.accept("z/subject.md", Ok(subject_card("Zoology", "1")));
    scan.accept("a/subject.md", Ok(subject_card("Math", "2")));
    scan.accept("b/subject.md", Ok(subject_card("Art", "3")));
    scan.accept("c/subject.md", Ok(subject_card("Math", "4")));
    let cards = scan.finish().unwrap();
    let got: Vec<(&str, &str)> = cards.iter().map(|c| (c.nazev.as_str(), c.bio.as_str())).collect();
    assert_eq!(got, vec![("Art", "3"), ("Math", "2"), ("Math", "4"), ("Zoology", "1")]);
    assert_eq!(cards[1]._resolved_path.as_ref().unwrap().to_text(), "a/subject.md");
    assert_eq!(SubjectScan::new().finish().unwrap().len(), 0);
}

#[test]
fn the_directory_of_a_subject_holds_its_document() {
    let mut scan = SubjectScan::new();
    scan.accept("math/algebra/subject.md", Ok(subject_card("Algebra", "")));
    scan.accept("subject.md", Ok(subject_card("Top", "")));
    let cards = scan.finish().unwrap();
    let subjects = build_subjects(&cards).unwrap();
    assert_eq!(subjects.len(), 2);
    assert_eq!(subjects[0].card.nazev, "Algebra");
    assert_eq!(subjects[0].path.to_text(), "math/algebra/subject.md");
    assert_eq!(subjects[0].path_root.to_text(), "math/algebra");
    assert_eq!(subjects[0].card._resolved_path.as_ref().unwrap().to_text(), "math/algebra/subject.md");
    assert!(subjects[0].articles.is_empty());
    assert!(subjects[0].resolved_author.is_none());
    assert_eq!(subjects[1].path.to_text(), "subject.md");
    assert_eq!(subjects[1].path_root.to_text(), "");
    for subject in &subjects {
        assert!(subject.path.parent().unwrap().same(&subject.path_root));
        assert!(subject.path.starts_with(&subject.path_root));
    }
}

#[test]
fn a_card_without_a_path_or_a_directory_has_no_subject() {
    assert!(build_subjects(&vec![subject_card("A", "")]).is_none());
    let mut root = subject_card("R", "");
    root._resolved_path = Some(DocPath::parse("/"));
    assert!(build_subjects(&vec![root]).is_none());
    let mut empty = subject_card("E", "");
    empty._resolved_path = Some(DocPath::parse(""));
    assert!(build_subjects(&vec![empty]).is_none());
    assert_eq!(build_subjects(&vec![]).unwrap().len(), 0);
}

fn subjects_at(paths: &[&str]) -> Vec<cat_prep::models::Subject> {
    let mut scan = SubjectScan::new();
    for path in paths {
        scan.accept(path, Ok(subject_card(path, "")));
    }
    build_subjects(&scan.finish().unwrap()).unwrap()
}

#[test]
fn a_scan_for_articles_looks_below_the_subjects() {
    let mut scan = ArticleScan::new(&subjects_at(&["math/subject.md", "art/subject.md"]));
    let texts: Vec<String> = scan.roots.iter().map(|r| r.to_text()).collect();
    assert_eq!(texts, vec!["art", "math"]);
    let mut content = "nazev = \"A\"\ntagy = []\n+++\nbody\nmore\n".to_string();
    assert_eq!(scan.visit("intro.md", &mut content), None);
    assert_eq!(scan.visit("math/subject.md", &mut content), None);
    assert_eq!(content, "nazev = \"A\"\ntagy = []\n+++\nbody\nmore\n");
    assert_eq!(
        scan.visit("math/a.md", &mut content),
        Some("nazev = \"A\"\ntagy = []".to_string())
    );
    assert_eq!(content, "body\nmore");
    assert!(scan.failure.is_none());
    assert_eq!(scan.visit("art/b.md", &mut content), None);
    assert_eq!(content, "body\nmore");
    assert!(matches!(scan.failure, Some(CatError::InvalidOrMissingHeader)));
}

#[test]
fn a_scan_for_articles_gives_located_cards_sorted_by_title() {
    let mut scan = ArticleScan::new(&subjects_at(&["math/subject.md"]));
    scan.accept("math/z.md", Ok(article_card("Sets", &["intro"])));
    scan.accept("math/a.md", Ok(article_card("Groups", &["algebra", "intro"])));
    scan.accept("math/m.md", Ok(article_card("Sets", &[])));
    let cards = scan.finish().unwrap();
    let got: Vec<(String, String)> = cards
        .iter()
        .map(|c| (c.nazev.clone(), c._resolved_path.as_ref().unwrap().to_text()))
        .collect();
    assert_eq!(
        got,
        vec![
            ("Groups".to_string(), "math/a.md".to_string()),
            ("Sets".to_string(), "math/z.md".to_string()),
            ("Sets".to_string(), "math/m.md".to_string()),
        ]
    );
    assert_eq!(cards[0].tagy, vec!["algebra", "intro"]);
}

#[test]
fn a_scan_for_articles_fails_with_its_first_failure() {
    let mut scan = ArticleScan::new(&subjects_at(&["math/subject.md"]));
    scan.accept("math/a.md", Err("bad tags".to_string()));
    let mut content = "nothing".to_string();
    assert_eq!(scan.visit("math/b.md", &mut content), None);
    assert!(matches!(scan.finish(), Err(CatError::InvalidHeaderFormat { err }) if err == "bad tags"));
}

#[test]
fn a_scan_for_subjects_takes_nothing_for_other_documents() {
    let mut scan = SubjectScan::new();
    scan.accept("math/article.md", Ok(subject_card("Math", "")));
    scan.accept("math/article.md", Err("not even looked at".to_string()));
    scan.accept("", Ok(subject_card("Top", "")));
    assert!(scan.cards.is_empty());
    assert!(scan.failure.is_none());
    assert_eq!(scan.finish().unwrap().len(), 0);
}

#[test]
fn a_scan_for_articles_takes_nothing_for_other_documents() {
    let mut scan = ArticleScan::new(&subjects_at(&["math/subject.md"]));
    scan.accept("art/a.md", Ok(article_card("A", &[])));
    scan.accept("math/subject.md", Ok(article_card("S", &[])));
    scan.accept("intro.md", Err("not even looked at".to_string()));
    assert!(scan.cards.is_empty());
    assert!(scan.failure.is_none());
    scan.accept("math/a.md", Ok(article_card("A", &[])));
    assert_eq!(scan.cards.len(), 1);
}

#[test]
fn the_cards_of_a_scan_for_subjects_have_subjects() {
    let mut scan = SubjectScan::new();
    for (path, content) in [
        ("a/subject.md", "h1\n+++\nb1"),
        ("subject.md", "h2\n+++\nb2"),
        ("x/y/z/old-subject.md", "h3\n+++\nb3"),
    ] {
        let mut content = content.to_string();
        let header = scan.visit(path, &mut content).unwrap();
        scan.accept(path, Ok(subject_card(&header, "")));
    }
    let cards = scan.finish().unwrap();
    let subjects = build_subjects(&cards).unwrap();
    let roots: Vec<String> = subjects.iter().map(|s| s.path_root.to_text()).collect();
    assert_eq!(roots, vec!["a", "", "x/y/z"]);
}
