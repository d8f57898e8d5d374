//! Headers of documents, and the context that a run builds from them.

use crate::error::{CatError, CatErrorView};
use crate::graph::{
    article_error, article_failed, articles_of, attach_articles, build_articles, holds, is_located,
    link_teachers, linked, resolve_articles, resolve_subjects, resolved_article, resolved_subject,
    with_articles, ArticleAnswer, ArticleAnswerView,
};
use crate::scan::{is_article_card, roots_of};
use crate::search::{lemma_first_where_bounds, lemma_first_where_same};
use crate::models::{
    Article, ArticleCard, ArticleCardView, ArticleView, Subject, SubjectCard, SubjectCardView,
    SubjectView, Teacher, TeacherCard, TeacherCardView, TeacherView,
};
use crate::search::first_where;
use crate::tags::{index_tags, tag_index, Tag, TagView};
use crate::text::{
    first_line, is_plain_line, join_lines, join_range, lemma_first_line, lemma_lines_of_joined,
    lines, split_lines,
};
use vstd::prelude::*;

verus! {

/// The line that closes the header of a document.
pub open spec fn delimiter() -> Seq<char> {
    seq!['+', '+', '+']
}

/// The header and the body of a document: the lines before the first line
/// that is the delimiter, and the lines after it, each joined by line feeds.
/// A text without such a line has neither.
pub open spec fn split_header(src: Seq<char>) -> Option<(Seq<char>, Seq<char>)> {
    let ls = lines(src);
    let k = first_line(ls, delimiter());
    if 0 <= k < ls.len() {
        Some((join_lines(ls.take(k)), join_lines(ls.skip(k + 1))))
    } else {
        None
    }
}

/// Cuts the text of a document into its header and its body, see
/// [`split_header`]. The line that parts them belongs to neither.
pub fn extract_header(src: &str) -> (cut: Result<(String, String), CatError>)
    ensures
        match cut {
            Ok((header, body)) => split_header(src@) == Some((header@, body@)),
            Err(e) => split_header(src@) is None && e@ == CatErrorView::InvalidOrMissingHeader,
        },
{
    let ls = split_lines(src);
    let mark = String::from_str("+++");
    proof {
        reveal_strlit("+++");
        assert(mark@ =~= delimiter());
    }
    let mut k: usize = 0;
    while k < ls.len()
        invariant
            k <= ls.len(),
            mark@ == delimiter(),
            ls.deep_view() == lines(src@),
            forall|j: int| 0 <= j < k ==> ls.deep_view()[j] != delimiter(),
        decreases ls.len() - k,
    {
        if ls[k] == mark {
            proof {
                assert(ls.deep_view()[k as int] == ls[k as int]@);
                lemma_first_line(ls.deep_view(), delimiter(), k as int);
                assert(ls.deep_view().take(k as int) =~= ls.deep_view().subrange(0, k as int));
                assert(ls.deep_view().skip(k + 1) =~= ls.deep_view().subrange(
                    k + 1,
                    ls.len() as int,
                ));
            }
            let header = join_range(&ls, 0, k);
            let body = join_range(&ls, k + 1, ls.len());
            return Ok((header, body));
        }
        proof {
            assert(ls.deep_view()[k as int] == ls[k as int]@);
        }
        k += 1;
    }
    proof {
        lemma_first_line(ls.deep_view(), delimiter(), ls.len() as int);
    }
    Err(CatError::InvalidOrMissingHeader)
}

/// What a [`CatContext`] holds, as plain texts.
pub struct CatContextView {
    pub teacher_cards: Seq<TeacherCardView>,
    pub teachers: Seq<TeacherView>,
    pub subject_cards: Seq<SubjectCardView>,
    pub subjects: Seq<SubjectView>,
    pub article_cards: Seq<ArticleCardView>,
    pub articles: Seq<ArticleView>,
    pub tags: Seq<TagView>,
}

/// The context of a run: all that is known of teachers, subjects and
/// articles. Records stand in it more than once, so that each can be found
/// where it is needed; nothing keeps the copies alike, so a context is built
/// once and read from then on.
#[derive(Debug)]
pub struct CatContext {
    /// The cards of the teachers, sorted by name.
    pub teacher_cards: Vec<TeacherCard>,
    /// The teachers, in the order of their cards.
    pub teachers: Vec<Teacher>,
    /// The cards of the subjects, sorted by title.
    pub subject_cards: Vec<SubjectCard>,
    /// The subjects, in the order of their cards.
    pub subjects: Vec<Subject>,
    /// The cards of the articles, sorted by title.
    pub article_cards: Vec<ArticleCard>,
    /// The articles, in the order of their cards.
    pub articles: Vec<Article>,
    /// The index of tags: one entry for each tag, in the order in which the
    /// tags were first met.
    pub tags: Vec<Tag>,
}

impl DeepView for CatContext {
    type V = CatContextView;

    open spec fn deep_view(&self) -> CatContextView {
        CatContextView {
            teacher_cards: self.teacher_cards.deep_view(),
            teachers: self.teachers.deep_view(),
            subject_cards: self.subject_cards.deep_view(),
            subjects: self.subjects.deep_view(),
            article_cards: self.article_cards.deep_view(),
            articles: self.articles.deep_view(),
            tags: self.tags.deep_view(),
        }
    }
}

impl View for CatContext {
    type V = CatContextView;

    open spec fn view(&self) -> CatContextView {
        self.deep_view()
    }
}

/// The context that holds nothing.
pub open spec fn empty_context() -> CatContextView {
    CatContextView {
        teacher_cards: Seq::empty(),
        teachers: Seq::empty(),
        subject_cards: Seq::empty(),
        subjects: Seq::empty(),
        article_cards: Seq::empty(),
        articles: Seq::empty(),
        tags: Seq::empty(),
    }
}

/// The cards of the answers, in order.
pub open spec fn cards_of(answers: Seq<ArticleAnswerView>) -> Seq<ArticleCardView> {
    answers.map_values(|a: ArticleAnswerView| a.card)
}

/// The context that follows from the teachers, the subjects and the answers
/// about the articles. The articles are built and given to their subjects;
/// then the teachers get the subjects and articles that count as theirs;
/// then the subjects and, last, the articles get the cards of the teachers
/// and the subject that they name.
pub open spec fn context_of(
    teacher_cards: Seq<TeacherCardView>,
    teachers: Seq<TeacherView>,
    subject_cards: Seq<SubjectCardView>,
    subjects: Seq<SubjectView>,
    answers: Seq<ArticleAnswerView>,
) -> CatContextView {
    let articles = articles_of(teachers, answers);
    let housed = with_articles(subjects, articles);
    let team = linked(teachers, housed, articles);
    let named = housed.map_values(|s: SubjectView| resolved_subject(team, s));
    CatContextView {
        teacher_cards,
        teachers: team,
        subject_cards,
        subjects: named,
        article_cards: cards_of(answers),
        articles: articles.map_values(|a: ArticleView| resolved_article(team, named, a)),
        tags: tag_index(cards_of(answers)),
    }
}

impl CatContext {
    /// A context that holds nothing.
    pub fn new() -> (context: CatContext)
        ensures
            context@ == empty_context(),
    {
        let context = CatContext {
            teacher_cards: Vec::new(),
            teachers: Vec::new(),
            subject_cards: Vec::new(),
            subjects: Vec::new(),
            article_cards: Vec::new(),
            articles: Vec::new(),
            tags: Vec::new(),
        };
        proof {
            assert(context.teacher_cards.deep_view() =~= Seq::<TeacherCardView>::empty());
            assert(context.teachers.deep_view() =~= Seq::<TeacherView>::empty());
            assert(context.subject_cards.deep_view() =~= Seq::<SubjectCardView>::empty());
            assert(context.subjects.deep_view() =~= Seq::<SubjectView>::empty());
            assert(context.article_cards.deep_view() =~= Seq::<ArticleCardView>::empty());
            assert(context.articles.deep_view() =~= Seq::<ArticleView>::empty());
            assert(context.tags.deep_view() =~= Seq::<TagView>::empty());
        }
        context
    }

    /// Builds the context from the teachers, the subjects and the answers
    /// about the articles, see [`context_of`]. Each card of an answer has
    /// the path of its document. Succeeds where no answer is a failure;
    /// fails with the first article of which one is.
    pub fn resolve(
        teacher_cards: Vec<TeacherCard>,
        teachers: Vec<Teacher>,
        subject_cards: Vec<SubjectCard>,
        subjects: Vec<Subject>,
        answers: Vec<ArticleAnswer>,
    ) -> (end: Result<CatContext, CatError>)
        requires
            forall|i: int|
                0 <= i < answers.len() ==> is_located((#[trigger] answers.deep_view()[i]).card),
        ensures
            match end {
                Ok(context) => first_where(
                    answers.deep_view(),
                    |a: ArticleAnswerView| article_failed(a),
                ) == answers.len() && context@ == context_of(
                    teacher_cards.deep_view(),
                    teachers.deep_view(),
                    subject_cards.deep_view(),
                    subjects.deep_view(),
                    answers.deep_view(),
                ),
                Err(e) => {
                    let k = first_where(
                        answers.deep_view(),
                        |a: ArticleAnswerView| article_failed(a),
                    );
                    0 <= k < answers.len() && e@ == article_error(answers.deep_view()[k])
                },
            },
    {
        let mut teachers = teachers;
        let mut subjects = subjects;
        let mut articles = match build_articles(&answers, &teachers) {
            Ok(articles) => articles,
            Err(e) => {
                return Err(e);
            },
        };
        attach_articles(&mut subjects, &articles);
        link_teachers(&mut teachers, &subjects, &articles);
        resolve_subjects(&mut subjects, &teachers);
        resolve_articles(&mut articles, &teachers, &subjects);
        let mut article_cards: Vec<ArticleCard> = Vec::new();
        let mut i: usize = 0;
        while i < answers.len()
            invariant
                i <= answers.len(),
                article_cards.deep_view() == cards_of(answers.deep_view().take(i as int)),
            decreases answers.len() - i,
        {
            let ghost before = article_cards.deep_view();
            let card = answers[i].card.clone();
            article_cards.push(card);
            proof {
                assert(answers.deep_view()[i as int] == answers[i as int]@);
                assert(article_cards.deep_view() =~= before.push(card@));
                assert(cards_of(answers.deep_view().take(i + 1)) =~= before.push(card@));
            }
            i += 1;
        }
        proof {
            assert(answers.deep_view().take(answers.len() as int) =~= answers.deep_view());
        }
        let tags = index_tags(&article_cards);
        Ok(
            CatContext {
                teacher_cards,
                teachers,
                subject_cards,
                subjects,
                article_cards,
                articles,
                tags,
            },
        )
    }
}

/// A text without a line that is the delimiter has no header: cutting it
/// fails.
pub proof fn lemma_no_delimiter_no_header(src: Seq<char>)
    requires
        forall|i: int| 0 <= i < lines(src).len() ==> #[trigger] lines(src)[i] != delimiter(),
    ensures
        split_header(src) is None,
{
    lemma_first_line(lines(src), delimiter(), lines(src).len() as int);
}

/// A text with a line that is the delimiter is cut at the first such line:
/// the header is the lines before it and the body the lines after it, and
/// the line itself belongs to neither.
pub proof fn lemma_cut_at_first_delimiter(src: Seq<char>, k: int)
    requires
        0 <= k < lines(src).len(),
        lines(src)[k] == delimiter(),
        forall|i: int| 0 <= i < k ==> #[trigger] lines(src)[i] != delimiter(),
    ensures
        split_header(src) == Some(
            (join_lines(lines(src).take(k)), join_lines(lines(src).skip(k + 1))),
        ),
{
    lemma_first_line(lines(src), delimiter(), k);
}

/// The header is the text before the delimiter and the body the text after
/// it. Of a document made of the lines `head`, the delimiter and the lines
/// `body`, joined by line feeds, the header is `head` joined and the body is
/// `body` joined: where no line of `head` is the delimiter, each line can be
/// a line of its own, and the last line of `body` is not empty.
pub proof fn lemma_header_is_text_before(head: Seq<Seq<char>>, body: Seq<Seq<char>>)
    requires
        forall|i: int| 0 <= i < head.len() ==> is_plain_line(#[trigger] head[i]) && head[i]
            != delimiter(),
        forall|i: int| 0 <= i < body.len() ==> is_plain_line(#[trigger] body[i]),
        body.len() > 0 ==> body.last().len() > 0,
    ensures
        split_header(join_lines(head + seq![delimiter()] + body)) == Some(
            (join_lines(head), join_lines(body)),
        ),
{
    let all = head + seq![delimiter()] + body;
    let k = head.len() as int;
    assert(is_plain_line(delimiter()));
    assert forall|i: int| 0 <= i < all.len() implies is_plain_line(#[trigger] all[i]) by {
        if i < k {
            assert(all[i] == head[i]);
        } else if i > k {
            assert(all[i] == body[i - k - 1]);
        }
    }
    assert(all.last().len() > 0) by {
        if body.len() > 0 {
            assert(all.last() == body.last());
        } else {
            assert(all.last() == delimiter());
        }
    }
    lemma_lines_of_joined(all);
    assert(all[k] == delimiter());
    assert forall|i: int| 0 <= i < k implies #[trigger] all[i] != delimiter() by {
        assert(all[i] == head[i]);
    }
    lemma_first_line(all, delimiter(), k);
    assert(all.take(k) =~= head);
    assert(all.skip(k + 1) =~= body);
}

/// Every article of a context has its subject: where every card is that of
/// an article of the subjects, every article of the context that follows
/// holds the card of a subject, the first whose directory it lies below.
pub proof fn lemma_articles_have_subjects(
    teacher_cards: Seq<TeacherCardView>,
    teachers: Seq<TeacherView>,
    subject_cards: Seq<SubjectCardView>,
    subjects: Seq<SubjectView>,
    answers: Seq<ArticleAnswerView>,
    i: int,
)
    requires
        forall|k: int|
            0 <= k < answers.len() ==> is_article_card(
                (#[trigger] answers[k]).card,
                roots_of(subjects),
            ),
        0 <= i < answers.len(),
    ensures
        ({
            let context = context_of(teacher_cards, teachers, subject_cards, subjects, answers);
            let article = context.articles[i];
            let j = first_where(subjects, holds(article.path));
            &&& context.articles.len() == answers.len()
            &&& article.card == answers[i].card
            &&& Some(article.path) == answers[i].card._resolved_path
            &&& 0 <= j < subjects.len()
            &&& subjects[j].path_root.is_prefix_of(article.path)
            &&& article.subject_card == Some(subjects[j].card)
        }),
{
    let articles = articles_of(teachers, answers);
    let housed = with_articles(subjects, articles);
    let team = linked(teachers, housed, articles);
    let named = housed.map_values(|s: SubjectView| resolved_subject(team, s));
    let path = articles[i].path;
    assert(is_article_card(answers[i].card, roots_of(subjects)));
    let r = choose|r: int|
        0 <= r < roots_of(subjects).len() && (#[trigger] roots_of(subjects)[r]).is_prefix_of(path);
    assert(holds(path)(subjects[r]));
    lemma_first_where_bounds(subjects, holds(path));
    assert forall|j: int| 0 <= j < subjects.len() implies holds(path)(#[trigger] named[j])
        == holds(path)(subjects[j]) by {
        assert(named[j] == resolved_subject(team, housed[j]));
    }
    lemma_first_where_same(named, holds(path), subjects, holds(path));
    let j = first_where(subjects, holds(path));
    if j >= subjects.len() {
        assert(!holds(path)(subjects[r]));
    }
    assert(holds(path)(subjects[j]));
    assert(named[j].card == subjects[j].card);
}

} // verus!
