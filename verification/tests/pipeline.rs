use cat_prep::cat_context::CatContext;
use cat_prep::error::CatError;
use cat_prep::graph::ArticleAnswer;
use cat_prep::models::{ArticleCard, SubjectCard, TeacherCard};
use cat_prep::render::{Render, RenderBatch, TagContext, TeacherList};
use cat_prep::resolve::{
    build_teachers, check_repository, read_teacher_cards, CommandOutput, TeacherAnswer, TeacherFile,
};
use cat_prep::scan::{build_subjects, ArticleScan, SubjectScan};
use cat_prep::sorting::sort_by_key;
use cat_prep::Cat;
use mdbook::book::{Book, BookItem, Chapter};

fn output(status: i32, stdout: &str) -> CommandOutput {
    CommandOutput { status, stdout: stdout.to_string(), stderr: String::new() }
}

fn field(header: &str, key: &str) -> Result<String, String> {
    header
        .lines()
        .find_map(|line| line.strip_prefix(&format!("{} = ", key)).map(|v| v.to_string()))
        .ok_or_else(|| format!("missing field `{}`", key))
}

fn subject_card(header: &str) -> Result<SubjectCard, String> {
    Ok(SubjectCard {
        nazev: field(header, "nazev")?,
        zodpovedna_osoba: field(header, "zodpovedna_osoba")?,
        bio: field(header, "bio")?,
        _resolved_path: None,
    })
}

fn article_card(header: &str) -> Result<ArticleCard, String> {
    Ok(ArticleCard {
        nazev: field(header, "nazev")?,
        tagy: field(header, "tagy")?.split(' ').map(|t| t.to_string()).collect(),
        datum: field(header, "datum").ok(),
        _resolved_path: None,
    })
}

fn teacher_card(name: &str, username: &str) -> TeacherCard {
    TeacherCard {
        jmeno: name.to_string(),
        email: format!("{}@example.org", username),
        username: username.to_string(),
        bio: String::new(),
    }
}

fn small_book() -> Book {
    let mut math = Chapter::new(
        "Math",
        "nazev = Math\nzodpovedna_osoba = novak\nbio = numbers\n+++\n# Math\n".to_string(),
        "math/subject.md",
        vec![],
    );
    math.sub_items.push(BookItem::Chapter(Chapter::new(
        "Sets",
        "nazev = Sets\ntagy = intro sets\n+++\nAbout sets.\n".to_string(),
        "math/sets.md",
        vec![],
    )));
    math.sub_items.push(BookItem::Chapter(Chapter::new(
        "Groups",
        "nazev = Groups\ntagy = intro\ndatum = 2020\n+++\nAbout groups.\n".to_string(),
        "math/groups.md",
        vec![],
    )));
    let mut book = Book::new();
    book.push_item(Chapter::new("Intro", "Welcome.\n".to_string(), "intro.md", vec![]));
    book.push_item(BookItem::Separator);
    book.push_item(math);
    book
}

fn documents(book: &mut Book) -> Vec<(String, String)> {
    let mut docs = Vec::new();
    book.for_each_mut(|item| {
        if let BookItem::Chapter(c) = item {
            docs.push((c.path.to_str().unwrap().to_string(), c.content.clone()));
        }
    });
    docs
}

fn context_of(book: &mut Book) -> Result<CatContext, CatError> {
    check_repository(&output(0, "true\n"))?;
    let cards = sort_by_key(read_teacher_cards(vec![
        TeacherFile { name: "novak.toml".to_string(), card: Ok(teacher_card("Novak", "novak")) },
        TeacherFile { name: "adamec.toml".to_string(), card: Ok(teacher_card("Adamec", "adamec")) },
    ])?);
    let answers = cards
        .iter()
        .map(|card| TeacherAnswer {
            card: card.clone(),
            created: if card.username == "adamec" {
                output(0, "math/sets.md\n")
            } else {
                output(0, "math/subject.md\nmath/groups.md\n")
            },
        })
        .collect();
    let teachers = build_teachers(answers)?;

    let mut scan = SubjectScan::new();
    book.for_each_mut(|item| {
        if let BookItem::Chapter(c) = item {
            let path = c.path.to_string_lossy().into_owned();
            if let Some(header) = scan.visit(&path, &mut c.content) {
                scan.accept(&path, subject_card(&header));
            }
        }
    });
    let subject_cards = scan.finish()?;
    let subjects = build_subjects(&subject_cards).unwrap();

    let mut scan = ArticleScan::new(&subjects);
    book.for_each_mut(|item| {
        if let BookItem::Chapter(c) = item {
            let path = c.path.to_string_lossy().into_owned();
            if let Some(header) = scan.visit(&path, &mut c.content) {
                scan.accept(&path, article_card(&header));
            }
        }
    });
    let article_cards = scan.finish()?;

    let answers = article_cards
        .into_iter()
        .map(|card| ArticleAnswer {
            last_modified: output(0, "2020-03-03"),
            modified_by: output(0, if card.nazev == "Sets" { "Novak" } else { "stranger" }),
            card,
        })
        .collect();
    CatContext::resolve(cards, teachers, subject_cards, subjects, answers)
}

fn batch_of(context: &CatContext) -> RenderBatch {
    let list = TeacherList { list: context.teacher_cards.clone() };
    let tags = TagContext::from(&context.tags);
    let names: Vec<&str> = tags.tags.iter().map(|t| t.name.as_str()).collect();
    RenderBatch {
        teacher_list: list.render(Ok(format!("{} teachers", list.list.len()))),
        teachers: context.teachers.iter().map(|t| t.render(Ok(t.card.jmeno.clone()))).collect(),
        subjects: context
            .subjects
            .iter()
            .map(|s| s.render(Ok((s.card.nazev.clone(), format!("{} articles", s.articles.len())))))
            .collect(),
        articles: context
            .articles
            .iter()
            .map(|a| a.render(Ok((a.author.clone(), a.card.tagy.join(",")))))
            .collect(),
        tags: tags.render(Ok(names.join(" "))),
    }
}

#[test]
fn a_whole_run_on_a_small_book() {
    let mut book = small_book();
    let context = context_of(&mut book).unwrap();

    assert_eq!(
        documents(&mut book),
        vec![
            ("intro.md".to_string(), "Welcome.\n".to_string()),
            ("math/sets.md".to_string(), "About sets.".to_string()),
            ("math/groups.md".to_string(), "About groups.".to_string()),
            ("math/subject.md".to_string(), "# Math".to_string()),
        ]
    );
    let names: Vec<&str> = context.teacher_cards.iter().map(|c| c.jmeno.as_str()).collect();
    assert_eq!(names, vec!["Adamec", "Novak"]);
    let titles: Vec<&str> = context.articles.iter().map(|a| a.card.nazev.as_str()).collect();
    assert_eq!(titles, vec!["Groups", "Sets"]);
    assert_eq!(context.articles[0].author, "Novak");
    assert_eq!(context.articles[1].author, "Adamec");
    assert_eq!(context.articles[0].card.datum.as_deref(), Some("2020"));
    assert!(context.articles[0].modified_resolved.is_none());
    assert_eq!(context.articles[1].modified_resolved.as_ref().unwrap().username, "novak");
    assert_eq!(context.articles[0].subject_card.as_ref().unwrap().nazev, "Math");
    assert_eq!(context.subjects[0].path_root.to_text(), "math");
    assert_eq!(context.subjects[0].resolved_author.as_ref().unwrap().jmeno, "Novak");
    assert_eq!(context.subjects[0].articles.len(), 2);
    assert!(context.teachers[0].subjects.is_empty());
    assert_eq!(context.teachers[1].subjects.len(), 1);
    assert_eq!(context.teachers[0].articles.len(), 1);
    assert_eq!(context.teachers[1].articles.len(), 1);

    let batch = batch_of(&context);
    assert!(Cat::new().run(&context, &mut book, batch).is_ok());
    assert_eq!(
        documents(&mut book),
        vec![
            ("intro.md".to_string(), "Welcome.\n".to_string()),
            ("math/sets.md".to_string(), "Adamec\nAbout sets.\nintro,sets".to_string()),
            ("math/groups.md".to_string(), "Novak\nAbout groups.\nintro".to_string()),
            ("math/subject.md".to_string(), "Math\n# Math\n2 articles".to_string()),
            ("teachers.md".to_string(), "# Vyučující\n\n2 teachers\nAdamec\nNovak".to_string()),
            ("tags.md".to_string(), "intro sets".to_string()),
        ]
    );
}

#[test]
fn a_run_fails_with_the_first_header_that_fails() {
    let mut book = small_book();
    book.push_item(Chapter::new("Art", "no header".to_string(), "art/subject.md", vec![]));
    book.push_item(Chapter::new(
        "Music",
        "nazev = Music\n+++\n".to_string(),
        "music/subject.md",
        vec![],
    ));
    assert!(matches!(context_of(&mut book), Err(CatError::InvalidOrMissingHeader)));

    let mut book = small_book();
    book.push_item(Chapter::new(
        "Music",
        "nazev = Music\n+++\n".to_string(),
        "music/subject.md",
        vec![],
    ));
    book.push_item(Chapter::new("Art", "no header".to_string(), "art/subject.md", vec![]));
    assert!(matches!(
        context_of(&mut book),
        Err(CatError::InvalidHeaderFormat { err }) if err == "missing field `zodpovedna_osoba`"
    ));
}

#[test]
fn a_run_outside_a_repository_does_not_start() {
    assert!(matches!(
        check_repository(&CommandOutput {
            status: 128,
            stdout: String::new(),
            stderr: "fatal".to_string(),
        }),
        Err(CatError::NotARepo { error }) if error == "fatal"
    ));
}
