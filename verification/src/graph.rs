//! Weaving teachers, subjects and articles together.
//!
//! An article belongs to the first subject whose directory lies above it. A
//! subject counts as that of the first teacher who created its document, or
//! else of the first teacher who created one of its articles. An article
//! counts as that of every teacher who created its document. A name, a user
//! name or an e-mail address stands for the first teacher who has it.

use crate::error::{CatError, CatErrorView};
use crate::models::{
    Article, ArticleCard, ArticleCardView, ArticleView, Subject, SubjectCardView, SubjectView,
    Teacher, TeacherCard, TeacherCardView, TeacherView,
};
use crate::path::{DocPath, PathView};
use crate::path::file_name_of;
use crate::resolve::{command_error, command_failed, CommandOutput, CommandOutputView};
use crate::scan::{is_article_card, is_article_path, roots_of, subject_marker};
use crate::search::{
    first_where, lemma_filter_step, lemma_first_where, lemma_first_where_bounds,
    lemma_first_where_same,
};
use vstd::prelude::*;

verus! {

/// What an [`ArticleAnswer`] holds, as plain values.
pub struct ArticleAnswerView {
    pub card: ArticleCardView,
    pub last_modified: CommandOutputView,
    pub modified_by: CommandOutputView,
}

/// The card of an article and the repository's answers about its document:
/// when it was last changed, and by whom.
#[derive(Debug)]
pub struct ArticleAnswer {
    /// The card.
    pub card: ArticleCard,
    /// The answer to the question when the document was last changed.
    pub last_modified: CommandOutput,
    /// The answer to the question who changed it last. It is not read where
    /// the first answer is a failure.
    pub modified_by: CommandOutput,
}

impl DeepView for ArticleAnswer {
    type V = ArticleAnswerView;

    open spec fn deep_view(&self) -> ArticleAnswerView {
        ArticleAnswerView {
            card: self.card@,
            last_modified: self.last_modified@,
            modified_by: self.modified_by@,
        }
    }
}

impl View for ArticleAnswer {
    type V = ArticleAnswerView;

    open spec fn view(&self) -> ArticleAnswerView {
        self.deep_view()
    }
}

/// The name that stands for the author of a document that no teacher
/// created.
pub open spec fn unknown_author() -> Seq<char> {
    seq!['U', 'n', 'k', 'n', 'o', 'w', 'n']
}

/// Whether the teacher created the document at `path`.
pub open spec fn created_by(path: PathView) -> spec_fn(TeacherView) -> bool {
    |t: TeacherView| t.files_created.contains(path)
}

/// The position of the first teacher who created the document at `path`, or
/// the number of teachers where none did.
pub open spec fn creator(teachers: Seq<TeacherView>, path: PathView) -> int {
    first_where(teachers, created_by(path))
}

/// The name of the first teacher who created the document at `path`, or
/// [`unknown_author`].
pub open spec fn author_name(teachers: Seq<TeacherView>, path: PathView) -> Seq<char> {
    let k = creator(teachers, path);
    if 0 <= k < teachers.len() {
        teachers[k].card.jmeno
    } else {
        unknown_author()
    }
}

/// Whether one of the answers about the article is a failure.
pub open spec fn article_failed(answer: ArticleAnswerView) -> bool {
    answer.last_modified.status != 0 || answer.modified_by.status != 0
}

/// The error of an article of which an answer is a failure: that of the
/// first answer that is.
pub open spec fn article_error(answer: ArticleAnswerView) -> CatErrorView {
    if answer.last_modified.status != 0 {
        command_failed(answer.last_modified)
    } else {
        command_failed(answer.modified_by)
    }
}

/// Whether the card has the path of its document.
pub open spec fn is_located(card: ArticleCardView) -> bool {
    card._resolved_path is Some
}

/// The article of an answer: the card, what the answers say, the path of the
/// card, and the name of its author among `teachers`. Nothing is resolved
/// yet.
pub open spec fn article_of(teachers: Seq<TeacherView>, answer: ArticleAnswerView) -> ArticleView {
    let path = answer.card._resolved_path->0;
    ArticleView {
        card: answer.card,
        last_modified: answer.last_modified.stdout,
        modified_by: answer.modified_by.stdout,
        author: author_name(teachers, path),
        path,
        modified_resolved: None,
        resolved_author: None,
        subject_card: None,
    }
}

/// The articles of the answers, see [`article_of`].
pub open spec fn articles_of(
    teachers: Seq<TeacherView>,
    answers: Seq<ArticleAnswerView>,
) -> Seq<ArticleView> {
    answers.map_values(|a: ArticleAnswerView| article_of(teachers, a))
}

/// Whether `path` is one of `files`.
pub fn contains_path(files: &Vec<DocPath>, path: &DocPath) -> (yes: bool)
    ensures
        yes == files.deep_view().contains(path@),
{
    let mut i: usize = 0;
    while i < files.len()
        invariant
            i <= files.len(),
            forall|j: int| 0 <= j < i ==> files.deep_view()[j] != path@,
        decreases files.len() - i,
    {
        proof {
            assert(files.deep_view()[i as int] == files[i as int]@);
        }
        if files[i].same(path) {
            return true;
        }
        i += 1;
    }
    false
}

/// The position of the first teacher who created the document at `path`,
/// see [`creator`].
pub fn find_creator(teachers: &Vec<Teacher>, path: &DocPath) -> (k: usize)
    ensures
        k == creator(teachers.deep_view(), path@),
        k <= teachers.len(),
{
    let mut k: usize = 0;
    while k < teachers.len()
        invariant
            k <= teachers.len(),
            forall|j: int| 0 <= j < k ==> !created_by(path@)(#[trigger] teachers.deep_view()[j]),
        decreases teachers.len() - k,
    {
        proof {
            assert(teachers.deep_view()[k as int] == teachers[k as int]@);
        }
        if contains_path(&teachers[k].files_created, path) {
            proof {
                lemma_first_where(teachers.deep_view(), created_by(path@), k as int);
            }
            return k;
        }
        k += 1;
    }
    proof {
        lemma_first_where(teachers.deep_view(), created_by(path@), teachers.len() as int);
    }
    k
}

/// The articles of the answers, see [`article_of`]. Succeeds where no answer
/// is a failure; fails with the first article of which one is, see
/// [`article_error`].
pub fn build_articles(answers: &Vec<ArticleAnswer>, teachers: &Vec<Teacher>) -> (end: Result<
    Vec<Article>,
    CatError,
>)
    requires
        forall|i: int|
            0 <= i < answers.len() ==> is_located((#[trigger] answers.deep_view()[i]).card),
    ensures
        match end {
            Ok(articles) => first_where(
                answers.deep_view(),
                |a: ArticleAnswerView| article_failed(a),
            ) == answers.len() && articles.deep_view() == articles_of(
                teachers.deep_view(),
                answers.deep_view(),
            ),
            Err(e) => {
                let k = first_where(answers.deep_view(), |a: ArticleAnswerView| article_failed(a));
                0 <= k < answers.len() && e@ == article_error(answers.deep_view()[k])
            },
        },
{
    let ghost all = answers.deep_view();
    let ghost team = teachers.deep_view();
    let mut articles: Vec<Article> = Vec::new();
    let mut i: usize = 0;
    proof {
        assert(articles.deep_view() =~= articles_of(team, all.take(0)));
    }
    while i < answers.len()
        invariant
            i <= answers.len(),
            all == answers.deep_view(),
            team == teachers.deep_view(),
            forall|j: int| 0 <= j < all.len() ==> is_located((#[trigger] all[j]).card),
            forall|j: int| 0 <= j < i ==> !article_failed(#[trigger] all[j]),
            articles.deep_view() == articles_of(team, all.take(i as int)),
        decreases answers.len() - i,
    {
        let ghost before = articles.deep_view();
        let answer = &answers[i];
        proof {
            assert(all[i as int] == answer@);
            assert(is_located(all[i as int].card));
        }
        if answer.last_modified.status != 0 {
            proof {
                lemma_first_where(all, |a: ArticleAnswerView| article_failed(a), i as int);
            }
            return Err(command_error(&answer.last_modified));
        }
        if answer.modified_by.status != 0 {
            proof {
                lemma_first_where(all, |a: ArticleAnswerView| article_failed(a), i as int);
            }
            return Err(command_error(&answer.modified_by));
        }
        let path = answer.card._resolved_path.as_ref().unwrap().clone();
        let k = find_creator(teachers, &path);
        let author = if k < teachers.len() {
            proof {
                assert(team[k as int] == teachers[k as int]@);
            }
            teachers[k].card.jmeno.clone()
        } else {
            proof {
                reveal_strlit("Unknown");
                assert("Unknown"@ =~= unknown_author());
            }
            String::from_str("Unknown")
        };
        let article = Article {
            card: answer.card.clone(),
            last_modified: answer.last_modified.stdout.clone(),
            modified_by: answer.modified_by.stdout.clone(),
            author,
            path,
            modified_resolved: None,
            resolved_author: None,
            subject_card: None,
        };
        proof {
            assert(article@ == article_of(team, all[i as int]));
        }
        articles.push(article);
        proof {
            assert(articles.deep_view() =~= before.push(article@));
            assert(articles_of(team, all.take(i + 1)) =~= before.push(
                article_of(team, all[i as int]),
            ));
        }
        i += 1;
    }
    proof {
        lemma_first_where(all, |a: ArticleAnswerView| article_failed(a), answers.len() as int);
        assert(all.take(answers.len() as int) =~= all);
    }
    Ok(articles)
}

/// Whether the directory of the subject lies above `path`, or is `path`.
pub open spec fn holds(path: PathView) -> spec_fn(SubjectView) -> bool {
    |s: SubjectView| s.path_root.is_prefix_of(path)
}

/// The position of the subject that the document at `path` belongs to: the
/// first whose directory lies above it, or the number of subjects where none
/// does.
pub open spec fn home(subjects: Seq<SubjectView>, path: PathView) -> int {
    first_where(subjects, holds(path))
}

/// Whether the article belongs to the subject at position `j`.
pub open spec fn at_home(subjects: Seq<SubjectView>, j: int) -> spec_fn(ArticleView) -> bool {
    |a: ArticleView| home(subjects, a.path) == j
}

/// The subject `subject`, at position `j` of `subjects`, with those of
/// `articles` that belong to it after the articles it has, in order.
pub open spec fn with_members(
    subjects: Seq<SubjectView>,
    articles: Seq<ArticleView>,
    j: int,
) -> SubjectView {
    SubjectView {
        articles: subjects[j].articles + articles.filter(at_home(subjects, j)),
        ..subjects[j]
    }
}

/// The subjects, each with those of `articles` that belong to it.
pub open spec fn with_articles(subjects: Seq<SubjectView>, articles: Seq<ArticleView>) -> Seq<
    SubjectView,
> {
    Seq::new(subjects.len(), |j: int| with_members(subjects, articles, j))
}

/// The position of the subject that the document at `path` belongs to, see
/// [`home`].
pub fn find_home(subjects: &Vec<Subject>, path: &DocPath) -> (k: usize)
    ensures
        k == home(subjects.deep_view(), path@),
        k <= subjects.len(),
{
    let mut k: usize = 0;
    while k < subjects.len()
        invariant
            k <= subjects.len(),
            forall|j: int| 0 <= j < k ==> !holds(path@)(#[trigger] subjects.deep_view()[j]),
        decreases subjects.len() - k,
    {
        proof {
            assert(subjects.deep_view()[k as int] == subjects[k as int]@);
        }
        if path.starts_with(&subjects[k].path_root) {
            proof {
                lemma_first_where(subjects.deep_view(), holds(path@), k as int);
            }
            return k;
        }
        k += 1;
    }
    proof {
        lemma_first_where(subjects.deep_view(), holds(path@), subjects.len() as int);
    }
    k
}

/// Gives each article to the subject that it belongs to, see
/// [`with_articles`].
pub fn attach_articles(subjects: &mut Vec<Subject>, articles: &Vec<Article>)
    ensures
        final(subjects).deep_view() == with_articles(
            old(subjects).deep_view(),
            articles.deep_view(),
        ),
{
    let ghost first = subjects.deep_view();
    let ghost arts = articles.deep_view();
    let n: usize = subjects.len();
    let mut i: usize = 0;
    proof {
        assert forall|j: int| 0 <= j < n implies #[trigger] subjects.deep_view()[j] == with_members(
            first,
            arts.take(0),
            j,
        ) by {
            assert(arts.take(0).filter(at_home(first, j)) =~= Seq::<ArticleView>::empty());
            assert(first[j].articles + Seq::<ArticleView>::empty() =~= first[j].articles);
        }
    }
    while i < articles.len()
        invariant
            i <= articles.len(),
            n == subjects.len(),
            n == first.len(),
            arts == articles.deep_view(),
            forall|j: int|
                0 <= j < n ==> #[trigger] subjects.deep_view()[j] == with_members(
                    first,
                    arts.take(i as int),
                    j,
                ),
        decreases articles.len() - i,
    {
        let ghost before = subjects.deep_view();
        let article = &articles[i];
        proof {
            assert(arts[i as int] == article@);
        }
        let k = find_home(subjects, &article.path);
        proof {
            assert forall|j: int| 0 <= j < n implies holds(article.path@)(#[trigger] before[j])
                == holds(article.path@)(first[j]) by {
                assert(before[j] == with_members(first, arts.take(i as int), j));
            }
            lemma_first_where_same(before, holds(article.path@), first, holds(article.path@));
            assert(home(first, article.path@) == k);
        }
        if k < n {
            let ghost had = subjects[k as int].articles.deep_view();
            let copy = article.clone();
            subjects[k].articles.push(copy);
            proof {
                assert(subjects[k as int].articles.deep_view() =~= had.push(article@));
                assert(before[k as int] == with_members(first, arts.take(i as int), k as int));
                assert(had == before[k as int].articles);
                assert forall|j: int| 0 <= j < n && j != k implies subjects.deep_view()[j]
                    == before[j] by {}
            }
        }
        proof {
            assert forall|j: int| 0 <= j < n implies #[trigger] subjects.deep_view()[j]
                == with_members(first, arts.take(i + 1), j) by {
                lemma_filter_step(arts, at_home(first, j), i as int);
                assert(before[j] == with_members(first, arts.take(i as int), j));
                if j == k {
                    assert(subjects.deep_view()[j].articles =~= first[j].articles + arts.take(
                        i + 1,
                    ).filter(at_home(first, j)));
                } else {
                    assert(subjects.deep_view()[j] == before[j]);
                }
            }
        }
        i += 1;
    }
    proof {
        assert(arts.take(articles.len() as int) =~= arts);
        assert(subjects.deep_view() =~= with_articles(first, arts));
    }
}

/// The position of the first teacher who created one of `articles`, looked
/// for article by article in order, or the number of teachers where none
/// did.
pub open spec fn owner_by_articles(teachers: Seq<TeacherView>, articles: Seq<ArticleView>) -> int
    decreases articles.len(),
{
    if articles.len() == 0 {
        teachers.len() as int
    } else {
        let k = creator(teachers, articles[0].path);
        if 0 <= k < teachers.len() {
            k
        } else {
            owner_by_articles(teachers, articles.drop_first())
        }
    }
}

/// The position of the teacher whom the subject counts as that of: the
/// first who created its document, or else the first who created one of its
/// articles; the number of teachers where there is none.
pub open spec fn owner(teachers: Seq<TeacherView>, subject: SubjectView) -> int {
    let k = creator(teachers, subject.path);
    if 0 <= k < teachers.len() {
        k
    } else {
        owner_by_articles(teachers, subject.articles)
    }
}

/// Whether the subject counts as that of the teacher at position `t`.
pub open spec fn owned_by(teachers: Seq<TeacherView>, t: int) -> spec_fn(SubjectView) -> bool {
    |s: SubjectView| owner(teachers, s) == t
}

/// Whether the teacher with the files `files` created the article.
pub open spec fn written_by(files: Seq<PathView>) -> spec_fn(ArticleView) -> bool {
    |a: ArticleView| files.contains(a.path)
}

/// The teacher at position `t` with the subjects that count as the
/// teacher's after the subjects the teacher has, and the articles that the
/// teacher created after the articles the teacher has, each in order.
pub open spec fn with_works(
    teachers: Seq<TeacherView>,
    subjects: Seq<SubjectView>,
    articles: Seq<ArticleView>,
    t: int,
) -> TeacherView {
    TeacherView {
        subjects: teachers[t].subjects + subjects.filter(owned_by(teachers, t)),
        articles: teachers[t].articles + articles.filter(written_by(teachers[t].files_created)),
        ..teachers[t]
    }
}

/// The teachers, each with the subjects and the articles that count as the
/// teacher's.
pub open spec fn linked(
    teachers: Seq<TeacherView>,
    subjects: Seq<SubjectView>,
    articles: Seq<ArticleView>,
) -> Seq<TeacherView> {
    Seq::new(teachers.len(), |t: int| with_works(teachers, subjects, articles, t))
}

/// The position of the teacher whom the subject counts as that of, see
/// [`owner`].
pub fn find_owner(teachers: &Vec<Teacher>, subject: &Subject) -> (k: usize)
    ensures
        k == owner(teachers.deep_view(), subject@),
        k <= teachers.len(),
{
    let k = find_creator(teachers, &subject.path);
    if k < teachers.len() {
        return k;
    }
    let ghost team = teachers.deep_view();
    let ghost arts = subject.articles.deep_view();
    let n: usize = subject.articles.len();
    let mut i: usize = 0;
    proof {
        assert(arts.skip(0) =~= arts);
    }
    while i < n
        invariant
            i <= n,
            n == subject.articles.len(),
            team == teachers.deep_view(),
            arts == subject.articles.deep_view(),
            creator(team, subject@.path) == teachers.len(),
            owner_by_articles(team, arts) == owner_by_articles(team, arts.skip(i as int)),
        decreases n - i,
    {
        proof {
            assert(arts[i as int] == subject.articles[i as int]@);
            assert(arts.skip(i as int)[0] == arts[i as int]);
            assert(arts.skip(i as int).drop_first() =~= arts.skip(i + 1));
        }
        let k = find_creator(teachers, &subject.articles[i].path);
        if k < teachers.len() {
            return k;
        }
        i += 1;
    }
    teachers.len()
}

/// Gives each teacher the subjects and the articles that count as the
/// teacher's, see [`linked`].
pub fn link_teachers(teachers: &mut Vec<Teacher>, subjects: &Vec<Subject>, articles: &Vec<Article>)
    ensures
        final(teachers).deep_view() == linked(
            old(teachers).deep_view(),
            subjects.deep_view(),
            articles.deep_view(),
        ),
{
    let ghost first = teachers.deep_view();
    let ghost subs = subjects.deep_view();
    let ghost arts = articles.deep_view();
    let n: usize = teachers.len();
    let mut i: usize = 0;
    proof {
        assert forall|t: int| 0 <= t < n implies #[trigger] teachers.deep_view()[t] == with_works(
            first,
            subs.take(0),
            arts.take(0),
            t,
        ) by {
            assert(subs.take(0).filter(owned_by(first, t)) =~= Seq::<SubjectView>::empty());
            assert(arts.take(0).filter(written_by(first[t].files_created)) =~= Seq::<
                ArticleView,
            >::empty());
            assert(first[t].subjects + Seq::<SubjectView>::empty() =~= first[t].subjects);
            assert(first[t].articles + Seq::<ArticleView>::empty() =~= first[t].articles);
        }
    }
    while i < subjects.len()
        invariant
            i <= subjects.len(),
            n == teachers.len(),
            n == first.len(),
            subs == subjects.deep_view(),
            arts == articles.deep_view(),
            forall|t: int|
                0 <= t < n ==> #[trigger] teachers.deep_view()[t] == with_works(
                    first,
                    subs.take(i as int),
                    arts.take(0),
                    t,
                ),
        decreases subjects.len() - i,
    {
        let ghost before = teachers.deep_view();
        let subject = &subjects[i];
        proof {
            assert(subs[i as int] == subject@);
        }
        let k = find_owner(teachers, subject);
        proof {
            lemma_owner_same(before, first, subject@);
        }
        if k < n {
            let ghost had = teachers[k as int].subjects.deep_view();
            let copy = subject.clone();
            teachers[k].subjects.push(copy);
            proof {
                assert(teachers[k as int].subjects.deep_view() =~= had.push(subject@));
                assert(before[k as int] == with_works(
                    first,
                    subs.take(i as int),
                    arts.take(0),
                    k as int,
                ));
                assert forall|t: int| 0 <= t < n && t != k implies teachers.deep_view()[t]
                    == before[t] by {}
            }
        }
        proof {
            assert forall|t: int| 0 <= t < n implies #[trigger] teachers.deep_view()[t]
                == with_works(first, subs.take(i + 1), arts.take(0), t) by {
                lemma_filter_step(subs, owned_by(first, t), i as int);
                assert(before[t] == with_works(first, subs.take(i as int), arts.take(0), t));
                if t == k {
                    assert(teachers.deep_view()[t].subjects =~= first[t].subjects + subs.take(
                        i + 1,
                    ).filter(owned_by(first, t)));
                } else {
                    assert(teachers.deep_view()[t] == before[t]);
                }
            }
        }
        i += 1;
    }
    proof {
        assert(subs.take(subjects.len() as int) =~= subs);
    }
    let mut a: usize = 0;
    while a < articles.len()
        invariant
            a <= articles.len(),
            n == teachers.len(),
            n == first.len(),
            subs == subjects.deep_view(),
            arts == articles.deep_view(),
            forall|t: int|
                0 <= t < n ==> #[trigger] teachers.deep_view()[t] == with_works(
                    first,
                    subs,
                    arts.take(a as int),
                    t,
                ),
        decreases articles.len() - a,
    {
        let article = &articles[a];
        proof {
            assert(arts[a as int] == article@);
        }
        let mut t: usize = 0;
        while t < n
            invariant
                t <= n,
                a < articles.len(),
                n == teachers.len(),
                n == first.len(),
                subs == subjects.deep_view(),
                arts == articles.deep_view(),
                article@ == arts[a as int],
                forall|u: int|
                    0 <= u < t ==> #[trigger] teachers.deep_view()[u] == with_works(
                        first,
                        subs,
                        arts.take(a + 1),
                        u,
                    ),
                forall|u: int|
                    t <= u < n ==> #[trigger] teachers.deep_view()[u] == with_works(
                        first,
                        subs,
                        arts.take(a as int),
                        u,
                    ),
            decreases n - t,
        {
            let ghost before = teachers.deep_view();
            proof {
                assert(before[t as int] == teachers[t as int]@);
                assert(before[t as int] == with_works(first, subs, arts.take(a as int), t as int));
                lemma_filter_step(arts, written_by(first[t as int].files_created), a as int);
            }
            if contains_path(&teachers[t].files_created, &article.path) {
                let ghost had = teachers[t as int].articles.deep_view();
                let copy = article.clone();
                teachers[t].articles.push(copy);
                proof {
                    assert(teachers[t as int].articles.deep_view() =~= had.push(article@));
                    assert(teachers.deep_view()[t as int].articles =~= first[t as int].articles
                        + arts.take(a + 1).filter(written_by(first[t as int].files_created)));
                    assert forall|u: int| 0 <= u < n && u != t implies teachers.deep_view()[u]
                        == before[u] by {}
                }
            }
            proof {
                assert(teachers.deep_view()[t as int] == with_works(
                    first,
                    subs,
                    arts.take(a + 1),
                    t as int,
                ));
                assert forall|u: int| 0 <= u < t + 1 implies #[trigger] teachers.deep_view()[u]
                    == with_works(first, subs, arts.take(a + 1), u) by {
                    if u != t {
                        assert(teachers.deep_view()[u] == before[u]);
                    }
                }
                assert forall|u: int| t + 1 <= u < n implies #[trigger] teachers.deep_view()[u]
                    == with_works(first, subs, arts.take(a as int), u) by {
                    assert(teachers.deep_view()[u] == before[u]);
                }
            }
            t += 1;
        }
        a += 1;
    }
    proof {
        assert(arts.take(articles.len() as int) =~= arts);
        assert(teachers.deep_view() =~= linked(first, subs, arts));
    }
}

/// Who counts as the owner of a subject rests on the files of the teachers
/// alone: teachers with the same files have the same owner.
pub proof fn lemma_owner_same(now: Seq<TeacherView>, first: Seq<TeacherView>, subject: SubjectView)
    requires
        now.len() == first.len(),
        forall|t: int|
            0 <= t < now.len() ==> (#[trigger] now[t]).files_created
                == first[t].files_created,
    ensures
        owner(now, subject) == owner(first, subject),
{
    lemma_creator_same(now, first, subject.path);
    lemma_owner_by_articles_same(now, first, subject.articles);
}

/// Who created a document rests on the files of the teachers alone.
pub proof fn lemma_creator_same(now: Seq<TeacherView>, first: Seq<TeacherView>, path: PathView)
    requires
        now.len() == first.len(),
        forall|t: int|
            0 <= t < now.len() ==> (#[trigger] now[t]).files_created
                == first[t].files_created,
    ensures
        creator(now, path) == creator(first, path),
{
    lemma_first_where_same(now, created_by(path), first, created_by(path));
}

proof fn lemma_owner_by_articles_same(
    now: Seq<TeacherView>,
    first: Seq<TeacherView>,
    articles: Seq<ArticleView>,
)
    requires
        now.len() == first.len(),
        forall|t: int|
            0 <= t < now.len() ==> (#[trigger] now[t]).files_created
                == first[t].files_created,
    ensures
        owner_by_articles(now, articles) == owner_by_articles(first, articles),
    decreases articles.len(),
{
    if articles.len() > 0 {
        lemma_creator_same(now, first, articles[0].path);
        lemma_owner_by_articles_same(now, first, articles.drop_first());
    }
}

/// Whether `who` names the teacher: is the teacher's user name, name or
/// e-mail address.
pub open spec fn known_as(who: Seq<char>) -> spec_fn(TeacherView) -> bool {
    |t: TeacherView| who == t.card.username || who == t.card.jmeno || who == t.card.email
}

/// The card of the first teacher whom `who` names, if there is one.
pub open spec fn identify(teachers: Seq<TeacherView>, who: Seq<char>) -> Option<TeacherCardView> {
    let k = first_where(teachers, known_as(who));
    if 0 <= k < teachers.len() {
        Some(teachers[k].card)
    } else {
        None
    }
}

/// The card that `found` holds, or else what `had` holds.
pub open spec fn found_or(found: Option<TeacherCardView>, had: Option<TeacherCardView>) -> Option<
    TeacherCardView,
> {
    if found is Some {
        found
    } else {
        had
    }
}

/// The subject with the card of the teacher who answers for it, where one
/// of `teachers` is named so.
pub open spec fn resolved_subject(teachers: Seq<TeacherView>, subject: SubjectView) -> SubjectView {
    SubjectView {
        resolved_author: found_or(
            identify(teachers, subject.card.zodpovedna_osoba),
            subject.resolved_author,
        ),
        ..subject
    }
}

/// The card of the subject that the document at `path` belongs to, if there
/// is one.
pub open spec fn subject_card_of(subjects: Seq<SubjectView>, path: PathView) -> Option<
    SubjectCardView,
> {
    let k = home(subjects, path);
    if 0 <= k < subjects.len() {
        Some(subjects[k].card)
    } else {
        None
    }
}

/// The article with the cards of the teachers who changed it last and who
/// created it, where `teachers` holds them, and with the card of its
/// subject.
pub open spec fn resolved_article(
    teachers: Seq<TeacherView>,
    subjects: Seq<SubjectView>,
    article: ArticleView,
) -> ArticleView {
    ArticleView {
        modified_resolved: found_or(
            identify(teachers, article.modified_by),
            article.modified_resolved,
        ),
        resolved_author: found_or(identify(teachers, article.author), article.resolved_author),
        subject_card: subject_card_of(subjects, article.path),
        ..article
    }
}

/// The card of the first teacher whom `who` names, see [`identify`].
pub fn find_teacher(teachers: &Vec<Teacher>, who: &String) -> (card: Option<TeacherCard>)
    ensures
        card.deep_view() == identify(teachers.deep_view(), who@),
{
    let mut k: usize = 0;
    while k < teachers.len()
        invariant
            k <= teachers.len(),
            forall|j: int| 0 <= j < k ==> !known_as(who@)(#[trigger] teachers.deep_view()[j]),
        decreases teachers.len() - k,
    {
        proof {
            assert(teachers.deep_view()[k as int] == teachers[k as int]@);
        }
        let card = &teachers[k].card;
        if *who == card.username || *who == card.jmeno || *who == card.email {
            proof {
                lemma_first_where(teachers.deep_view(), known_as(who@), k as int);
            }
            return Some(card.clone());
        }
        k += 1;
    }
    proof {
        lemma_first_where(teachers.deep_view(), known_as(who@), teachers.len() as int);
    }
    None
}

/// Gives each subject the card of the teacher who answers for it, see
/// [`resolved_subject`].
pub fn resolve_subjects(subjects: &mut Vec<Subject>, teachers: &Vec<Teacher>)
    ensures
        final(subjects).deep_view() == old(subjects).deep_view().map_values(
            |s: SubjectView| resolved_subject(teachers.deep_view(), s),
        ),
{
    let ghost first = subjects.deep_view();
    let ghost team = teachers.deep_view();
    let n: usize = subjects.len();
    let mut i: usize = 0;
    while i < n
        invariant
            i <= n,
            n == subjects.len(),
            n == first.len(),
            team == teachers.deep_view(),
            forall|j: int|
                0 <= j < i ==> #[trigger] subjects.deep_view()[j] == resolved_subject(
                    team,
                    first[j],
                ),
            forall|j: int| i <= j < n ==> #[trigger] subjects.deep_view()[j] == first[j],
        decreases n - i,
    {
        let ghost before = subjects.deep_view();
        proof {
            assert(before[i as int] == subjects[i as int]@);
        }
        let found = find_teacher(teachers, &subjects[i].card.zodpovedna_osoba);
        if found.is_some() {
            subjects[i].resolved_author = found;
        }
        proof {
            assert(subjects.deep_view()[i as int] == resolved_subject(team, first[i as int]));
            assert forall|j: int| 0 <= j < i + 1 implies #[trigger] subjects.deep_view()[j]
                == resolved_subject(team, first[j]) by {
                if j != i {
                    assert(subjects.deep_view()[j] == before[j]);
                }
            }
            assert forall|j: int| i + 1 <= j < n implies #[trigger] subjects.deep_view()[j]
                == first[j] by {
                assert(subjects.deep_view()[j] == before[j]);
            }
        }
        i += 1;
    }
    proof {
        assert(subjects.deep_view() =~= first.map_values(
            |s: SubjectView| resolved_subject(team, s),
        ));
    }
}

/// Gives each article the cards of the teachers who changed and created it,
/// and the card of its subject, see [`resolved_article`].
pub fn resolve_articles(
    articles: &mut Vec<Article>,
    teachers: &Vec<Teacher>,
    subjects: &Vec<Subject>,
)
    ensures
        final(articles).deep_view() == old(articles).deep_view().map_values(
            |a: ArticleView| resolved_article(teachers.deep_view(), subjects.deep_view(), a),
        ),
{
    let ghost first = articles.deep_view();
    let ghost team = teachers.deep_view();
    let ghost subs = subjects.deep_view();
    let n: usize = articles.len();
    let mut i: usize = 0;
    while i < n
        invariant
            i <= n,
            n == articles.len(),
            n == first.len(),
            team == teachers.deep_view(),
            subs == subjects.deep_view(),
            forall|j: int|
                0 <= j < i ==> #[trigger] articles.deep_view()[j] == resolved_article(
                    team,
                    subs,
                    first[j],
                ),
            forall|j: int| i <= j < n ==> #[trigger] articles.deep_view()[j] == first[j],
        decreases n - i,
    {
        let ghost before = articles.deep_view();
        proof {
            assert(before[i as int] == articles[i as int]@);
        }
        let by_change = find_teacher(teachers, &articles[i].modified_by);
        let by_start = find_teacher(teachers, &articles[i].author);
        let k = find_home(subjects, &articles[i].path);
        let card = if k < subjects.len() {
            proof {
                assert(subs[k as int] == subjects[k as int]@);
            }
            Some(subjects[k].card.clone())
        } else {
            None
        };
        if by_change.is_some() {
            articles[i].modified_resolved = by_change;
        }
        if by_start.is_some() {
            articles[i].resolved_author = by_start;
        }
        articles[i].subject_card = card;
        proof {
            assert(articles.deep_view()[i as int] == resolved_article(team, subs, first[i as int]));
            assert forall|j: int| 0 <= j < i + 1 implies #[trigger] articles.deep_view()[j]
                == resolved_article(team, subs, first[j]) by {
                if j != i {
                    assert(articles.deep_view()[j] == before[j]);
                }
            }
            assert forall|j: int| i + 1 <= j < n implies #[trigger] articles.deep_view()[j]
                == first[j] by {
                assert(articles.deep_view()[j] == before[j]);
            }
        }
        i += 1;
    }
    proof {
        assert(articles.deep_view() =~= first.map_values(
            |a: ArticleView| resolved_article(team, subs, a),
        ));
    }
}

/// An article that a subject was given lies below the directory of the
/// subject, and below that of no earlier subject.
pub proof fn lemma_member_lies_below(
    subjects: Seq<SubjectView>,
    articles: Seq<ArticleView>,
    j: int,
    m: int,
)
    requires
        0 <= j < subjects.len(),
        0 <= m < articles.filter(at_home(subjects, j)).len(),
    ensures
        articles.contains(articles.filter(at_home(subjects, j))[m]),
        subjects[j].path_root.is_prefix_of(articles.filter(at_home(subjects, j))[m].path),
        forall|i: int|
            0 <= i < j ==> !(#[trigger] subjects[i]).path_root.is_prefix_of(
                articles.filter(at_home(subjects, j))[m].path,
            ),
{
    let member = articles.filter(at_home(subjects, j))[m];
    articles.lemma_filter_pred(at_home(subjects, j), m);
    assert(articles.filter(at_home(subjects, j)).contains(member));
    articles.lemma_filter_contains_rev(at_home(subjects, j), member);
    lemma_first_where_bounds(subjects, holds(member.path));
    assert(holds(member.path)(subjects[j]));
    assert forall|i: int| 0 <= i < j implies !(#[trigger] subjects[i]).path_root.is_prefix_of(
        member.path,
    ) by {
        assert(!holds(member.path)(subjects[i]));
    }
}

/// An article that lies below the directory of a subject is given to a
/// subject: to the first whose directory it lies below, and to no other.
pub proof fn lemma_article_finds_home(
    subjects: Seq<SubjectView>,
    articles: Seq<ArticleView>,
    a: int,
    j: int,
)
    requires
        0 <= a < articles.len(),
        0 <= j < subjects.len(),
        subjects[j].path_root.is_prefix_of(articles[a].path),
        forall|i: int|
            0 <= i < j ==> !(#[trigger] subjects[i]).path_root.is_prefix_of(articles[a].path),
    ensures
        home(subjects, articles[a].path) == j,
        with_articles(subjects, articles)[j].articles.contains(articles[a]),
{
    assert(holds(articles[a].path)(subjects[j]));
    assert forall|i: int| 0 <= i < j implies !holds(articles[a].path)(#[trigger] subjects[i]) by {
        assert(!subjects[i].path_root.is_prefix_of(articles[a].path));
    }
    lemma_first_where(subjects, holds(articles[a].path), j);
    assert(at_home(subjects, j)(articles[a]));
    articles.lemma_filter_contains(at_home(subjects, j), a);
    let members = articles.filter(at_home(subjects, j));
    let k = choose|k: int| 0 <= k < members.len() && members[k] == articles[a];
    let all = subjects[j].articles + members;
    assert(all[subjects[j].articles.len() + k] == articles[a]);
}

/// Where no two teachers created the same document, a subject whose
/// document the teacher at `a` created counts as that teacher's and as no
/// other's.
pub proof fn lemma_creator_owns(
    teachers: Seq<TeacherView>,
    subjects: Seq<SubjectView>,
    a: int,
    s: int,
)
    requires
        0 <= a < teachers.len(),
        0 <= s < subjects.len(),
        teachers[a].files_created.contains(subjects[s].path),
        forall|t: int, u: int, path: PathView|
            0 <= t < teachers.len() && 0 <= u < teachers.len() && t != u
                && #[trigger] teachers[t].files_created.contains(path)
                ==> !#[trigger] teachers[u].files_created.contains(path),
    ensures
        owner(teachers, subjects[s]) == a,
        subjects.filter(owned_by(teachers, a)).contains(subjects[s]),
        forall|t: int|
            0 <= t < teachers.len() && t != a ==> !subjects.filter(
                #[trigger] owned_by(teachers, t),
            ).contains(subjects[s]),
{
    let path = subjects[s].path;
    assert(created_by(path)(teachers[a]));
    assert forall|t: int| 0 <= t < a implies !created_by(path)(#[trigger] teachers[t]) by {
        assert(teachers[a].files_created.contains(path));
    }
    lemma_first_where(teachers, created_by(path), a);
    assert(owned_by(teachers, a)(subjects[s]));
    subjects.lemma_filter_contains(owned_by(teachers, a), s);
    assert forall|t: int| 0 <= t < teachers.len() && t != a implies !subjects.filter(
        #[trigger] owned_by(teachers, t),
    ).contains(subjects[s]) by {
        if subjects.filter(owned_by(teachers, t)).contains(subjects[s]) {
            let mine = subjects.filter(owned_by(teachers, t));
            let k = choose|k: int| 0 <= k < mine.len() && mine[k] == subjects[s];
            subjects.lemma_filter_pred(owned_by(teachers, t), k);
        }
    }
}

/// A text names the first teacher who has it as user name, name or e-mail
/// address.
pub proof fn lemma_identify_found(teachers: Seq<TeacherView>, who: Seq<char>, k: int)
    requires
        0 <= k < teachers.len(),
        who == teachers[k].card.username || who == teachers[k].card.jmeno || who
            == teachers[k].card.email,
        forall|j: int|
            0 <= j < k ==> who != (#[trigger] teachers[j]).card.username && who
                != teachers[j].card.jmeno && who != teachers[j].card.email,
    ensures
        identify(teachers, who) == Some(teachers[k].card),
{
    assert(known_as(who)(teachers[k]));
    lemma_first_where(teachers, known_as(who), k);
}

/// A text that no teacher has as user name, name or e-mail address names
/// no teacher.
pub proof fn lemma_identify_none(teachers: Seq<TeacherView>, who: Seq<char>)
    requires
        forall|j: int|
            0 <= j < teachers.len() ==> who != (#[trigger] teachers[j]).card.username && who
                != teachers[j].card.jmeno && who != teachers[j].card.email,
    ensures
        identify(teachers, who) is None,
{
    lemma_first_where(teachers, known_as(who), teachers.len() as int);
}

/// An article whose last change is by a text that names a teacher gets the
/// card of the first teacher that the text names; one whose last change is
/// by a text that names no teacher keeps what it had.
pub proof fn lemma_modifier_resolved(
    teachers: Seq<TeacherView>,
    subjects: Seq<SubjectView>,
    article: ArticleView,
)
    ensures
        (exists|k: int|
            0 <= k < teachers.len() && known_as(article.modified_by)(#[trigger] teachers[k])) ==> {
            let k = first_where(teachers, known_as(article.modified_by));
            0 <= k < teachers.len() && known_as(article.modified_by)(teachers[k])
                && resolved_article(teachers, subjects, article).modified_resolved == Some(
                teachers[k].card,
            )
        },
        (forall|k: int|
            0 <= k < teachers.len() ==> !known_as(article.modified_by)(#[trigger] teachers[k]))
            ==> resolved_article(teachers, subjects, article).modified_resolved
            == article.modified_resolved,
{
    lemma_first_where_bounds(teachers, known_as(article.modified_by));
    let k = first_where(teachers, known_as(article.modified_by));
    if k < teachers.len() {
        assert(known_as(article.modified_by)(teachers[k]));
    }
}

/// The articles of a subject are articles: where every card is that of an
/// article of the subjects, an article that a subject was given lies below
/// the directory of the subject and is not named as the document of a
/// subject is.
pub proof fn lemma_member_is_article(
    teachers: Seq<TeacherView>,
    subjects: Seq<SubjectView>,
    answers: Seq<ArticleAnswerView>,
    j: int,
    m: int,
)
    requires
        forall|i: int|
            0 <= i < answers.len() ==> is_article_card(
                (#[trigger] answers[i]).card,
                roots_of(subjects),
            ),
        0 <= j < subjects.len(),
        0 <= m < articles_of(teachers, answers).filter(at_home(subjects, j)).len(),
    ensures
        subjects[j].path_root.is_prefix_of(
            articles_of(teachers, answers).filter(at_home(subjects, j))[m].path,
        ),
        file_name_of(articles_of(teachers, answers).filter(at_home(subjects, j))[m].path) != Some(
            subject_marker(),
        ),
{
    let articles = articles_of(teachers, answers);
    let member = articles.filter(at_home(subjects, j))[m];
    lemma_member_lies_below(subjects, articles, j, m);
    let i = choose|i: int| 0 <= i < articles.len() && articles[i] == member;
    assert(articles[i] == article_of(teachers, answers[i]));
    assert(is_article_card(answers[i].card, roots_of(subjects)));
    assert(is_article_path(member.path, roots_of(subjects)));
}

} // verus!
