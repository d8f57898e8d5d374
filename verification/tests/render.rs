use cat_prep::cat_context::CatContext;
use cat_prep::error::CatError;
use cat_prep::models::{Article, ArticleCard, Subject, SubjectCard, Teacher, TeacherCard};
use cat_prep::path::DocPath;
use cat_prep::book::Document;
use cat_prep::render::{
    create_renders, execute_renders, gather_renders, patch_documents, Render, RenderBatch,
    RenderSite, RenderType, RenderWalk, Tag, TagContext, TeacherList,
};
use cat_prep::Cat;
use mdbook::book::{Book, BookItem, Chapter};

fn chapter(path: &str, content: &str) -> Chapter {
    Chapter::new(path, content.to_string(), path, vec![])
}

fn book_of(docs: &[(&str, &str)]) -> Book {
    let mut book = Book::new();
    for (path, content) in docs {
        book.push_item(chapter(path, content));
    }
    book
}

fn documents(book: &mut Book) -> Vec<(String, String)> {
    let mut docs = Vec::new();
    book.for_each_mut(|item| {
        if let BookItem::Chapter(c) = item {
            docs.push((c.path.to_str().unwrap().to_string(), c.content.clone()));
        }
    });
    docs
}

fn render(site: &str, render: RenderType) -> RenderSite {
    RenderSite::new(DocPath::parse(site), render)
}

fn card(name: &str) -> TeacherCard {
    TeacherCard {
        jmeno: name.to_string(),
        email: format!("{}@example.org", name),
        username: name.to_lowercase(),
        bio: String::new(),
    }
}

#[test]
fn wrap_puts_the_texts_around_the_body() {
    let text = RenderWalk::compose("BODY", &RenderType::Both("PRE".to_string(), "POST".to_string()));
    assert_eq!(text, "PRE\nBODY\nPOST");
}

#[test]
fn wrap_in_a_book_puts_the_texts_around_the_body() {
    let mut book = book_of(&[("a.md", "BODY")]);
    let renders = vec![render("a.md", RenderType::Both("PRE".to_string(), "POST".to_string()))];
    assert!(execute_renders(renders, &mut book).is_ok());
    assert_eq!(documents(&mut book), vec![("a.md".to_string(), "PRE\nBODY\nPOST".to_string())]);
}

#[test]
fn each_kind_of_render_joins_in_its_way() {
    assert_eq!(RenderWalk::compose("BODY", &RenderType::Prepend("TEXT".to_string())), "TEXT\nBODY");
    assert_eq!(RenderWalk::compose("BODY", &RenderType::Append("TEXT".to_string())), "BODY\nTEXT");
    assert_eq!(RenderWalk::compose("BODY", &RenderType::EntirePage("TEXT".to_string())), "TEXT");
    assert_eq!(RenderWalk::compose("", &RenderType::Append("TEXT".to_string())), "\nTEXT");
    assert_eq!(
        RenderWalk::compose("", &RenderType::Both(String::new(), String::new())),
        "\n\n"
    );
}

#[test]
fn a_render_without_its_document_is_an_orphan() {
    let mut book = book_of(&[("a.md", "A"), ("b.md", "B")]);
    let renders = vec![render("foo.md", RenderType::Append("X".to_string()))];
    match execute_renders(renders, &mut book) {
        Err(CatError::OrphanRender { site, render }) => {
            assert_eq!(site, "foo.md");
            assert!(matches!(render, RenderType::Append(text) if text == "X"));
        },
        other => panic!("expected an orphan, got {:?}", other),
    }
}

#[test]
fn the_first_orphan_is_named() {
    let mut book = book_of(&[("a.md", "A")]);
    let renders = vec![
        render("a.md", RenderType::Append("1".to_string())),
        render("x/y.md", RenderType::Prepend("2".to_string())),
        render("z.md", RenderType::Append("3".to_string())),
    ];
    match execute_renders(renders, &mut book) {
        Err(CatError::OrphanRender { site, render }) => {
            assert_eq!(site, "x/y.md");
            assert!(matches!(render, RenderType::Prepend(text) if text == "2"));
        },
        other => panic!("expected an orphan, got {:?}", other),
    }
    assert_eq!(documents(&mut book), vec![("a.md".to_string(), "A\n1".to_string())]);
}

#[test]
fn an_empty_book_makes_every_render_an_orphan() {
    let mut book = Book::new();
    let renders = vec![render("teachers.md", RenderType::Append("X".to_string()))];
    assert!(matches!(
        execute_renders(renders, &mut book),
        Err(CatError::OrphanRender { site, .. }) if site == "teachers.md"
    ));
}

#[test]
fn no_render_leaves_the_book_as_it_is() {
    let mut book = book_of(&[("a.md", "A"), ("b.md", "B")]);
    assert!(execute_renders(vec![], &mut book).is_ok());
    assert_eq!(
        documents(&mut book),
        vec![("a.md".to_string(), "A".to_string()), ("b.md".to_string(), "B".to_string())]
    );
}

#[test]
fn renders_join_in_the_order_given() {
    let mut book = book_of(&[("a.md", "A"), ("b.md", "B")]);
    let renders = vec![
        render("b.md", RenderType::Append("1".to_string())),
        render("a.md", RenderType::Append("2".to_string())),
        render("b.md", RenderType::Prepend("3".to_string())),
        render("a.md", RenderType::Both("4".to_string(), "5".to_string())),
        render("b.md", RenderType::Append("6".to_string())),
    ];
    assert!(execute_renders(renders, &mut book).is_ok());
    assert_eq!(
        documents(&mut book),
        vec![
            ("a.md".to_string(), "4\nA\n2\n5".to_string()),
            ("b.md".to_string(), "3\nB\n1\n6".to_string()),
        ]
    );
}

#[test]
fn a_page_render_replaces_what_came_before() {
    let mut book = book_of(&[("tags.md", "")]);
    let renders = vec![
        render("tags.md", RenderType::Append("gone".to_string())),
        render("tags.md", RenderType::EntirePage("PAGE".to_string())),
        render("tags.md", RenderType::Append("tail".to_string())),
    ];
    assert!(execute_renders(renders, &mut book).is_ok());
    assert_eq!(documents(&mut book), vec![("tags.md".to_string(), "PAGE\ntail".to_string())]);
}

#[test]
fn the_first_of_two_documents_with_one_path_takes_the_renders() {
    let mut book = book_of(&[("a.md", "first"), ("a.md", "second")]);
    let renders = vec![render("a.md", RenderType::Append("X".to_string()))];
    assert!(execute_renders(renders, &mut book).is_ok());
    assert_eq!(
        documents(&mut book),
        vec![("a.md".to_string(), "first\nX".to_string()), ("a.md".to_string(), "second".to_string())]
    );
}

#[test]
fn paths_are_compared_by_their_components() {
    let mut book = book_of(&[("math//subject.md", "S"), ("./x.md", "X")]);
    let renders = vec![
        render("math/subject.md", RenderType::Append("1".to_string())),
        render("x.md", RenderType::Append("2".to_string())),
    ];
    match execute_renders(renders, &mut book) {
        Err(CatError::OrphanRender { site, .. }) => assert_eq!(site, "x.md"),
        other => panic!("expected an orphan, got {:?}", other),
    }
    let docs = documents(&mut book);
    assert_eq!(docs[0].1, "S\n1");
    assert_eq!(docs[1].1, "X");
}

#[test]
fn nested_chapters_and_separators() {
    let mut parent = chapter("math/subject.md", "P");
    parent.sub_items.push(BookItem::Chapter(chapter("math/a.md", "A")));
    parent.sub_items.push(BookItem::Separator);
    let mut inner = chapter("math/b.md", "B");
    inner.sub_items.push(BookItem::Chapter(chapter("math/b/c.md", "C")));
    parent.sub_items.push(BookItem::Chapter(inner));
    let mut book = Book::new();
    book.push_item(chapter("intro.md", "I"));
    book.push_item(BookItem::Separator);
    book.push_item(parent);
    let renders = vec![
        render("math/b/c.md", RenderType::Append("c".to_string())),
        render("math/subject.md", RenderType::Both("<".to_string(), ">".to_string())),
        render("intro.md", RenderType::Prepend("i".to_string())),
        render("math/a.md", RenderType::Append("a".to_string())),
        render("math/b.md", RenderType::EntirePage("b".to_string())),
    ];
    assert!(execute_renders(renders, &mut book).is_ok());
    assert_eq!(
        documents(&mut book),
        vec![
            ("intro.md".to_string(), "i\nI".to_string()),
            ("math/a.md".to_string(), "A\na".to_string()),
            ("math/b/c.md".to_string(), "C\nc".to_string()),
            ("math/b.md".to_string(), "b".to_string()),
            ("math/subject.md".to_string(), "<\nP\n>".to_string()),
        ]
    );
}

#[test]
fn walk_visits_and_finishes() {
    let mut walk = RenderWalk {
        pending: vec![
            render("a.md", RenderType::Append("1".to_string())),
            render("b.md", RenderType::Append("2".to_string())),
            render("a.md", RenderType::Append("3".to_string())),
        ],
    };
    assert_eq!(walk.visit("c.md", "C"), "C");
    assert_eq!(walk.pending.len(), 3);
    assert_eq!(walk.visit("a.md", "A"), "A\n1\n3");
    assert_eq!(walk.pending.len(), 1);
    assert_eq!(walk.pending[0].site.to_text(), "b.md");
    assert_eq!(walk.visit("a.md", "again"), "again");
    assert!(matches!(
        walk.finish(),
        Err(CatError::OrphanRender { site, .. }) if site == "b.md"
    ));
    let done = RenderWalk { pending: vec![] };
    assert!(done.finish().is_ok());
}

#[test]
fn render_site_keeps_what_it_is_given() {
    let made = RenderSite::new(DocPath::parse("a/b.md"), RenderType::EntirePage("T".to_string()));
    assert_eq!(made.site.parts, vec!["a", "b.md"]);
    assert!(matches!(&made.render, RenderType::EntirePage(text) if text == "T"));
    let copy = made.clone();
    assert_eq!(copy.site.parts, made.site.parts);
    assert!(matches!(copy.render, RenderType::EntirePage(text) if text == "T"));
}

fn subject_at(path: &str) -> Subject {
    let path = DocPath::parse(path);
    Subject {
        card: SubjectCard {
            nazev: "S".to_string(),
            zodpovedna_osoba: "x".to_string(),
            bio: String::new(),
            _resolved_path: Some(path.clone()),
        },
        path_root: path.parent().unwrap(),
        path,
        articles: vec![],
        resolved_author: None,
    }
}

fn article_at(path: &str) -> Article {
    let path = DocPath::parse(path);
    Article {
        card: ArticleCard {
            nazev: "A".to_string(),
            tagy: vec![],
            datum: None,
            _resolved_path: Some(path.clone()),
        },
        last_modified: String::new(),
        modified_by: String::new(),
        author: String::new(),
        path,
        modified_resolved: None,
        resolved_author: None,
        subject_card: None,
    }
}

#[test]
fn teachers_go_to_the_end_of_the_teachers_page() {
    let teacher = Teacher { card: card("Eva"), subjects: vec![], articles: vec![], files_created: vec![] };
    let made = teacher.render(Ok("TEXT".to_string())).unwrap();
    assert_eq!(made.site.parts, vec!["teachers.md"]);
    assert!(matches!(made.render, RenderType::Append(text) if text == "TEXT"));
    let list = TeacherList { list: vec![card("Eva"), card("Jan")] };
    let made = list.render(Ok("LIST".to_string())).unwrap();
    assert_eq!(made.site.parts, vec!["teachers.md"]);
    assert!(matches!(made.render, RenderType::Append(text) if text == "LIST"));
    assert_eq!(list.clone().list.len(), 2);
}

#[test]
fn subjects_and_articles_are_wrapped_in_their_documents() {
    let made = subject_at("math/subject.md")
        .render(Ok(("PRE".to_string(), "POST".to_string())))
        .unwrap();
    assert_eq!(made.site.to_text(), "math/subject.md");
    assert!(matches!(made.render, RenderType::Both(pre, post) if pre == "PRE" && post == "POST"));
    let made = article_at("math/a.md").render(Ok(("1".to_string(), "2".to_string()))).unwrap();
    assert_eq!(made.site.to_text(), "math/a.md");
    assert!(matches!(made.render, RenderType::Both(pre, post) if pre == "1" && post == "2"));
}

#[test]
fn tags_are_the_whole_tags_page() {
    let tags = TagContext { tags: vec![] };
    let made = tags.render(Ok("TAGS".to_string())).unwrap();
    assert_eq!(made.site.parts, vec!["tags.md"]);
    assert!(matches!(made.render, RenderType::EntirePage(text) if text == "TAGS"));
}

#[test]
fn a_template_that_fails_is_a_tiny_error() {
    let teacher = Teacher { card: card("Eva"), subjects: vec![], articles: vec![], files_created: vec![] };
    assert!(matches!(
        teacher.render(Err("bad template".to_string())),
        Err(CatError::TinyError { error }) if error == "bad template"
    ));
    assert!(matches!(
        TeacherList { list: vec![] }.render(Err("e1".to_string())),
        Err(CatError::TinyError { error }) if error == "e1"
    ));
    assert!(matches!(
        subject_at("s/subject.md").render(Err("e2".to_string())),
        Err(CatError::TinyError { error }) if error == "e2"
    ));
    assert!(matches!(
        article_at("s/a.md").render(Err("e3".to_string())),
        Err(CatError::TinyError { error }) if error == "e3"
    ));
    assert!(matches!(
        TagContext { tags: vec![] }.render(Err("e4".to_string())),
        Err(CatError::TinyError { error }) if error == "e4"
    ));
}

fn context(teachers: usize, tags: usize) -> CatContext {
    let mut context = CatContext::new();
    for i in 0..teachers {
        context.teacher_cards.push(card(&format!("T{}", i)));
    }
    for i in 0..tags {
        context.tags.push(Tag { name: format!("t{}", i), articles: vec![] });
    }
    context
}

fn ok(site: &str, text: &str) -> Result<RenderSite, CatError> {
    Ok(render(site, RenderType::Append(text.to_string())))
}

fn tiny(text: &str) -> Result<RenderSite, CatError> {
    Err(CatError::TinyError { error: text.to_string() })
}

fn sites(renders: &[RenderSite]) -> Vec<String> {
    renders
        .iter()
        .map(|r| match &r.render {
            RenderType::Append(t) => format!("{}:{}", r.site.to_text(), t),
            other => panic!("unexpected render {:?}", other),
        })
        .collect()
}

#[test]
fn renders_are_gathered_in_order_and_pages_are_added() {
    let mut book = book_of(&[("a.md", "A")]);
    let batch = RenderBatch {
        teacher_list: ok("teachers.md", "list"),
        teachers: vec![ok("teachers.md", "t1"), ok("teachers.md", "t2")],
        subjects: vec![ok("s/subject.md", "s1")],
        articles: vec![ok("s/a.md", "a1"), ok("s/b.md", "a2")],
        tags: ok("tags.md", "tags"),
    };
    let renders = create_renders(&context(2, 1), &mut book, batch).unwrap();
    assert_eq!(
        sites(&renders),
        vec![
            "teachers.md:list",
            "teachers.md:t1",
            "teachers.md:t2",
            "s/subject.md:s1",
            "s/a.md:a1",
            "s/b.md:a2",
            "tags.md:tags",
        ]
    );
    assert_eq!(
        documents(&mut book),
        vec![
            ("a.md".to_string(), "A".to_string()),
            ("teachers.md".to_string(), "# Vyučující\n".to_string()),
            ("tags.md".to_string(), "".to_string()),
        ]
    );
    let names: Vec<String> = book
        .iter()
        .map(|item| match item {
            BookItem::Chapter(c) => c.name.clone(),
            BookItem::Separator => "-".to_string(),
        })
        .collect();
    assert_eq!(names, vec!["a.md", "Vyučující", "Tagy"]);
}

#[test]
fn pages_are_left_out_where_there_is_nothing_to_show() {
    let batch = || RenderBatch {
        teacher_list: ok("teachers.md", "list"),
        teachers: vec![],
        subjects: vec![],
        articles: vec![],
        tags: ok("tags.md", "tags"),
    };
    let mut book = book_of(&[("a.md", "A")]);
    assert_eq!(create_renders(&context(0, 0), &mut book, batch()).unwrap().len(), 2);
    assert_eq!(documents(&mut book).len(), 1);
    let mut book = book_of(&[("a.md", "A")]);
    assert!(create_renders(&context(1, 0), &mut book, batch()).is_ok());
    let docs = documents(&mut book);
    assert_eq!(docs.len(), 2);
    assert_eq!(docs[1].0, "teachers.md");
    let mut book = book_of(&[("a.md", "A")]);
    assert!(create_renders(&context(0, 3), &mut book, batch()).is_ok());
    let docs = documents(&mut book);
    assert_eq!(docs.len(), 2);
    assert_eq!(docs[1], ("tags.md".to_string(), "".to_string()));
}

#[test]
fn the_first_error_of_a_batch_is_the_error() {
    let mut book = book_of(&[("a.md", "A")]);
    let batch = RenderBatch {
        teacher_list: ok("teachers.md", "list"),
        teachers: vec![ok("teachers.md", "t1"), tiny("teacher 2"), tiny("teacher 3")],
        subjects: vec![tiny("subject 1")],
        articles: vec![],
        tags: tiny("tags"),
    };
    assert!(matches!(
        create_renders(&context(3, 1), &mut book, batch),
        Err(CatError::TinyError { error }) if error == "teacher 2"
    ));
    assert_eq!(documents(&mut book), vec![("a.md".to_string(), "A".to_string())]);
    let batch = RenderBatch {
        teacher_list: tiny("list"),
        teachers: vec![tiny("teacher 1")],
        subjects: vec![],
        articles: vec![],
        tags: ok("tags.md", "tags"),
    };
    assert!(matches!(
        create_renders(&context(1, 1), &mut book, batch),
        Err(CatError::TinyError { error }) if error == "list"
    ));
    let batch = RenderBatch {
        teacher_list: ok("teachers.md", "list"),
        teachers: vec![],
        subjects: vec![ok("s/subject.md", "s")],
        articles: vec![ok("s/a.md", "a"), tiny("article 2")],
        tags: tiny("tags"),
    };
    assert!(matches!(
        create_renders(&context(1, 1), &mut book, batch),
        Err(CatError::TinyError { error }) if error == "article 2"
    ));
    let batch = RenderBatch {
        teacher_list: ok("teachers.md", "list"),
        teachers: vec![],
        subjects: vec![],
        articles: vec![],
        tags: tiny("tags"),
    };
    assert!(matches!(
        create_renders(&context(1, 1), &mut book, batch),
        Err(CatError::TinyError { error }) if error == "tags"
    ));
    assert_eq!(documents(&mut book).len(), 1);
}

#[test]
fn a_run_gathers_and_places() {
    let mut book = book_of(&[("s/subject.md", "S"), ("s/a.md", "A")]);
    let batch = RenderBatch {
        teacher_list: ok("teachers.md", "list"),
        teachers: vec![ok("teachers.md", "t1")],
        subjects: vec![Ok(render("s/subject.md", RenderType::Both("<".to_string(), ">".to_string())))],
        articles: vec![Ok(render("s/a.md", RenderType::Both("[".to_string(), "]".to_string())))],
        tags: Ok(render("tags.md", RenderType::EntirePage("TAGS".to_string()))),
    };
    assert!(Cat::new().run(&context(1, 1), &mut book, batch).is_ok());
    assert_eq!(
        documents(&mut book),
        vec![
            ("s/subject.md".to_string(), "<\nS\n>".to_string()),
            ("s/a.md".to_string(), "[\nA\n]".to_string()),
            ("teachers.md".to_string(), "# Vyučující\n\nlist\nt1".to_string()),
            ("tags.md".to_string(), "TAGS".to_string()),
        ]
    );
}

#[test]
fn a_run_without_teachers_leaves_the_list_an_orphan() {
    let mut book = book_of(&[("a.md", "A")]);
    let batch = RenderBatch {
        teacher_list: ok("teachers.md", "list"),
        teachers: vec![],
        subjects: vec![],
        articles: vec![],
        tags: Ok(render("tags.md", RenderType::EntirePage("TAGS".to_string()))),
    };
    assert!(matches!(
        Cat::new().run(&context(0, 1), &mut book, batch),
        Err(CatError::OrphanRender { site, .. }) if site == "teachers.md"
    ));
}

#[test]
fn a_run_with_a_failed_template_leaves_the_book() {
    let mut book = book_of(&[("a.md", "A")]);
    let batch = RenderBatch {
        teacher_list: ok("teachers.md", "list"),
        teachers: vec![],
        subjects: vec![],
        articles: vec![tiny("broken")],
        tags: ok("tags.md", "tags"),
    };
    assert!(matches!(
        Cat::new().run(&context(1, 1), &mut book, batch),
        Err(CatError::TinyError { error }) if error == "broken"
    ));
    assert_eq!(documents(&mut book), vec![("a.md".to_string(), "A".to_string())]);
}

#[test]
fn the_preprocessor_has_a_name_and_takes_every_renderer_but_one() {
    let cat = Cat::new();
    assert_eq!(cat.name(), "cat-preprocessor");
    assert!(cat.supports_renderer("html"));
    assert!(cat.supports_renderer("markdown"));
    assert!(cat.supports_renderer(""));
    assert!(cat.supports_renderer("not-supported "));
    assert!(!cat.supports_renderer("not-supported"));
}

#[test]
fn a_render_is_named_by_its_kind() {
    assert_eq!(RenderType::Prepend("text".to_string()).to_string(), "Prepend");
    assert_eq!(RenderType::Append("text".to_string()).to_string(), "Append");
    assert_eq!(RenderType::Both("a".to_string(), "b".to_string()).to_string(), "Both");
    assert_eq!(RenderType::EntirePage(String::new()).to_string(), "EntirePage");
}

fn plain(docs: &[(&str, &str)]) -> Vec<Document> {
    docs.iter()
        .map(|(path, content)| Document { path: path.to_string(), content: content.to_string() })
        .collect()
}

fn pairs(docs: &[Document]) -> Vec<(String, String)> {
    docs.iter().map(|d| (d.path.clone(), d.content.clone())).collect()
}

#[test]
fn documents_are_patched_as_a_book_is() {
    let list = [("a.md", "A"), ("b/c.md", "C"), ("a.md", "again"), ("d.md", "D")];
    let renders = || {
        vec![
            render("b/c.md", RenderType::Both("<".to_string(), ">".to_string())),
            render("a.md", RenderType::Append("1".to_string())),
            render("nowhere.md", RenderType::Append("2".to_string())),
            render("a.md", RenderType::Prepend("3".to_string())),
            render("d.md", RenderType::EntirePage("4".to_string())),
        ]
    };
    let mut docs = plain(&list);
    let mut book = book_of(&list);
    let on_docs = patch_documents(renders(), &mut docs);
    let on_book = execute_renders(renders(), &mut book);
    assert!(matches!(&on_docs, Err(CatError::OrphanRender { site, .. }) if site == "nowhere.md"));
    assert!(matches!(&on_book, Err(CatError::OrphanRender { site, .. }) if site == "nowhere.md"));
    assert_eq!(pairs(&docs), documents(&mut book));
    assert_eq!(
        pairs(&docs),
        vec![
            ("a.md".to_string(), "3\nA\n1".to_string()),
            ("b/c.md".to_string(), "<\nC\n>".to_string()),
            ("a.md".to_string(), "again".to_string()),
            ("d.md".to_string(), "4".to_string()),
        ]
    );
}

#[test]
fn documents_without_renders_stay() {
    let mut docs = plain(&[("a.md", "A")]);
    assert!(patch_documents(vec![], &mut docs).is_ok());
    assert_eq!(pairs(&docs), vec![("a.md".to_string(), "A".to_string())]);
    let mut none: Vec<Document> = vec![];
    assert!(patch_documents(vec![], &mut none).is_ok());
    assert!(matches!(
        patch_documents(vec![render("foo.md", RenderType::Append("x".to_string()))], &mut none),
        Err(CatError::OrphanRender { site, .. }) if site == "foo.md"
    ));
}

#[test]
fn a_walk_over_documents_leaves_the_orphans_pending() {
    let mut walk = RenderWalk {
        pending: vec![
            render("x.md", RenderType::Append("1".to_string())),
            render("a.md", RenderType::Append("2".to_string())),
            render("y.md", RenderType::Append("3".to_string())),
        ],
    };
    let mut docs = plain(&[("a.md", "A"), ("b.md", "B")]);
    walk.walk(&mut docs);
    assert_eq!(sites(&walk.pending), vec!["x.md:1", "y.md:3"]);
    assert_eq!(docs[0].content, "A\n2");
    assert_eq!(docs[1].content, "B");
}

#[test]
fn gathering_takes_the_renders_in_order_or_the_first_error() {
    let batch = RenderBatch {
        teacher_list: ok("teachers.md", "list"),
        teachers: vec![ok("teachers.md", "t1")],
        subjects: vec![],
        articles: vec![ok("s/a.md", "a1")],
        tags: ok("tags.md", "tags"),
    };
    assert_eq!(
        sites(&gather_renders(batch).unwrap()),
        vec!["teachers.md:list", "teachers.md:t1", "s/a.md:a1", "tags.md:tags"]
    );
    let batch = RenderBatch {
        teacher_list: ok("teachers.md", "list"),
        teachers: vec![],
        subjects: vec![tiny("subject")],
        articles: vec![tiny("article")],
        tags: tiny("tags"),
    };
    assert!(matches!(
        gather_renders(batch),
        Err(CatError::TinyError { error }) if error == "subject"
    ));
}
