use cat_prep::cat_context::extract_header;
use cat_prep::error::CatError;

fn cut(src: &str) -> (String, String) {
    match extract_header(src) {
        Ok(pair) => pair,
        Err(e) => panic!("no header in {:?}: {:?}", src, e),
    }
}

fn fails(src: &str) -> bool {
    matches!(extract_header(src), Err(CatError::InvalidOrMissingHeader))
}

#[test]
fn header_and_body_are_cut_at_the_delimiter() {
    let (header, body) = cut("nazev = \"A\"\nbio = \"b\"\n+++\n# Title\n\ntext\n");
    assert_eq!(header, "nazev = \"A\"\nbio = \"b\"");
    assert_eq!(body, "# Title\n\ntext");
}

#[test]
fn delimiter_belongs_to_neither() {
    let (header, body) = cut("h\n+++\nb");
    assert_eq!(header, "h");
    assert_eq!(body, "b");
    assert!(!header.contains("+++"));
    assert!(!body.contains("+++"));
}

#[test]
fn no_delimiter_is_a_missing_header() {
    assert!(fails(""));
    assert!(fails("just text"));
    assert!(fails("just text\n"));
    assert!(fails("a\nb\nc\n"));
    assert!(fails("a\r\nb\r\n"));
    assert!(fails("\n"));
}

#[test]
fn a_line_that_only_holds_the_delimiter_is_no_delimiter() {
    assert!(fails("a\n+++ \nb"));
    assert!(fails("a\n +++\nb"));
    assert!(fails("a\n++++\nb"));
    assert!(fails("a\n++\nb"));
    assert!(fails("a +++\nb"));
}

#[test]
fn the_first_delimiter_counts() {
    let (header, body) = cut("h1\n+++\nb1\n+++\nb2");
    assert_eq!(header, "h1");
    assert_eq!(body, "b1\n+++\nb2");
}

#[test]
fn delimiter_on_the_first_line_gives_an_empty_header() {
    let (header, body) = cut("+++\nbody\nmore");
    assert_eq!(header, "");
    assert_eq!(body, "body\nmore");
}

#[test]
fn delimiter_on_the_last_line_gives_an_empty_body() {
    let (header, body) = cut("a = 1\nb = 2\n+++");
    assert_eq!(header, "a = 1\nb = 2");
    assert_eq!(body, "");
    let (header, body) = cut("a = 1\n+++\n");
    assert_eq!(header, "a = 1");
    assert_eq!(body, "");
    let (header, body) = cut("+++");
    assert_eq!(header, "");
    assert_eq!(body, "");
}

#[test]
fn line_endings_with_carriage_returns_are_line_endings() {
    let (header, body) = cut("a = 1\r\nb = 2\r\n+++\r\nx\r\ny\r\n");
    assert_eq!(header, "a = 1\nb = 2");
    assert_eq!(body, "x\ny");
}

#[test]
fn empty_lines_stay() {
    let (header, body) = cut("\na\n\n+++\n\nb\n\n");
    assert_eq!(header, "\na\n");
    assert_eq!(body, "\nb\n");
}

#[test]
fn header_is_the_text_before_and_body_the_text_after() {
    let head = "nazev = \"Úvod\"\ntagy = [\"git\"]";
    let body = "# Úvod\n\nText článku.";
    let src = format!("{}\n+++\n{}", head, body);
    let (h, b) = cut(&src);
    assert_eq!(h, head);
    assert_eq!(b, body);
}
