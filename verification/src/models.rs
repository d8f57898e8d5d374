//! The records of a run: cards, and the teachers, subjects and articles that
//! are built from them.
//!
//! A card is what a header, or a file of the teachers folder, holds. Each
//! record has a view that holds the same as plain texts; the contracts of the
//! library speak of the views.

use crate::path::{DocPath, PathView};
use vstd::prelude::*;

verus! {

/// What a [`TeacherCard`] holds, as plain texts.
pub struct TeacherCardView {
    pub jmeno: Seq<char>,
    pub email: Seq<char>,
    pub username: Seq<char>,
    pub bio: Seq<char>,
}

/// The card of a teacher: the record of one file of the teachers folder.
#[derive(Debug)]
pub struct TeacherCard {
    /// Real name; the name of the teacher's commits.
    pub jmeno: String,
    /// E-mail address; the address of the teacher's commits.
    pub email: String,
    /// User name, without spaces.
    pub username: String,
    /// Free text about the teacher.
    pub bio: String,
}

impl DeepView for TeacherCard {
    type V = TeacherCardView;

    open spec fn deep_view(&self) -> TeacherCardView {
        TeacherCardView {
            jmeno: self.jmeno@,
            email: self.email@,
            username: self.username@,
            bio: self.bio@,
        }
    }
}

impl View for TeacherCard {
    type V = TeacherCardView;

    open spec fn view(&self) -> TeacherCardView {
        self.deep_view()
    }
}

impl Clone for TeacherCard {
    fn clone(&self) -> (copy: Self)
        ensures
            copy@ == self@,
    {
        TeacherCard {
            jmeno: self.jmeno.clone(),
            email: self.email.clone(),
            username: self.username.clone(),
            bio: self.bio.clone(),
        }
    }
}

/// What an [`ArticleCard`] holds, as plain texts.
pub struct ArticleCardView {
    pub nazev: Seq<char>,
    pub tagy: Seq<Seq<char>>,
    pub datum: Option<Seq<char>>,
    pub _resolved_path: Option<PathView>,
}

/// The card of an article: the record of the header of its document.
#[derive(Debug)]
pub struct ArticleCard {
    /// Title.
    pub nazev: String,
    /// Tags, in the order of the header.
    pub tagy: Vec<String>,
    /// Date, as free text.
    pub datum: Option<String>,
    /// The path of the document. A header does not set it: it is there once
    /// the document of the card is known.
    pub _resolved_path: Option<DocPath>,
}

impl DeepView for ArticleCard {
    type V = ArticleCardView;

    open spec fn deep_view(&self) -> ArticleCardView {
        ArticleCardView {
            nazev: self.nazev@,
            tagy: self.tagy.deep_view(),
            datum: self.datum.deep_view(),
            _resolved_path: self._resolved_path.deep_view(),
        }
    }
}

impl View for ArticleCard {
    type V = ArticleCardView;

    open spec fn view(&self) -> ArticleCardView {
        self.deep_view()
    }
}

impl Clone for ArticleCard {
    fn clone(&self) -> (copy: Self)
        ensures
            copy@ == self@,
    {
        let tagy = self.tagy.clone();
        proof {
            assert(tagy.deep_view() =~= self.tagy.deep_view());
        }
        ArticleCard {
            nazev: self.nazev.clone(),
            tagy,
            datum: self.datum.clone(),
            _resolved_path: self._resolved_path.clone(),
        }
    }
}

/// What a [`SubjectCard`] holds, as plain texts.
pub struct SubjectCardView {
    pub nazev: Seq<char>,
    pub zodpovedna_osoba: Seq<char>,
    pub bio: Seq<char>,
    pub _resolved_path: Option<PathView>,
}

/// The card of a subject: the record of the header of its document.
#[derive(Debug)]
pub struct SubjectCard {
    /// Title.
    pub nazev: String,
    /// The person who answers for the subject: a name, a user name or an
    /// e-mail address.
    pub zodpovedna_osoba: String,
    /// Free text about the subject.
    pub bio: String,
    /// The path of the document. A header does not set it: it is there once
    /// the document of the card is known.
    pub _resolved_path: Option<DocPath>,
}

impl DeepView for SubjectCard {
    type V = SubjectCardView;

    open spec fn deep_view(&self) -> SubjectCardView {
        SubjectCardView {
            nazev: self.nazev@,
            zodpovedna_osoba: self.zodpovedna_osoba@,
            bio: self.bio@,
            _resolved_path: self._resolved_path.deep_view(),
        }
    }
}

impl View for SubjectCard {
    type V = SubjectCardView;

    open spec fn view(&self) -> SubjectCardView {
        self.deep_view()
    }
}

impl Clone for SubjectCard {
    fn clone(&self) -> (copy: Self)
        ensures
            copy@ == self@,
    {
        SubjectCard {
            nazev: self.nazev.clone(),
            zodpovedna_osoba: self.zodpovedna_osoba.clone(),
            bio: self.bio.clone(),
            _resolved_path: self._resolved_path.clone(),
        }
    }
}

/// What an [`Article`] holds, as plain texts.
pub struct ArticleView {
    pub card: ArticleCardView,
    pub last_modified: Seq<char>,
    pub modified_by: Seq<char>,
    pub author: Seq<char>,
    pub path: PathView,
    pub modified_resolved: Option<TeacherCardView>,
    pub resolved_author: Option<TeacherCardView>,
    pub subject_card: Option<SubjectCardView>,
}

/// An article: its card and what the history of its document says of it.
#[derive(Debug)]
pub struct Article {
    /// The card.
    pub card: ArticleCard,
    /// When the document was last changed.
    pub last_modified: String,
    /// Who changed the document last.
    pub modified_by: String,
    /// The name of the teacher who created the document.
    pub author: String,
    /// The path of the document.
    pub path: DocPath,
    /// The card of the teacher who changed the document last, where one is
    /// found.
    pub modified_resolved: Option<TeacherCard>,
    /// The card of the teacher who created the document, where one is found.
    pub resolved_author: Option<TeacherCard>,
    /// The card of the subject that the article belongs to.
    pub subject_card: Option<SubjectCard>,
}

impl DeepView for Article {
    type V = ArticleView;

    open spec fn deep_view(&self) -> ArticleView {
        ArticleView {
            card: self.card@,
            last_modified: self.last_modified@,
            modified_by: self.modified_by@,
            author: self.author@,
            path: self.path@,
            modified_resolved: self.modified_resolved.deep_view(),
            resolved_author: self.resolved_author.deep_view(),
            subject_card: self.subject_card.deep_view(),
        }
    }
}

impl View for Article {
    type V = ArticleView;

    open spec fn view(&self) -> ArticleView {
        self.deep_view()
    }
}

impl Clone for Article {
    fn clone(&self) -> (copy: Self)
        ensures
            copy@ == self@,
    {
        Article {
            card: self.card.clone(),
            last_modified: self.last_modified.clone(),
            modified_by: self.modified_by.clone(),
            author: self.author.clone(),
            path: self.path.clone(),
            modified_resolved: self.modified_resolved.clone(),
            resolved_author: self.resolved_author.clone(),
            subject_card: self.subject_card.clone(),
        }
    }
}

/// What a [`Subject`] holds, as plain texts.
pub struct SubjectView {
    pub card: SubjectCardView,
    pub path: PathView,
    pub path_root: PathView,
    pub articles: Seq<ArticleView>,
    pub resolved_author: Option<TeacherCardView>,
}

/// A subject: its card, its place and its articles.
#[derive(Debug)]
pub struct Subject {
    /// The card.
    pub card: SubjectCard,
    /// The path of the document of the subject.
    pub path: DocPath,
    /// The directory of the subject: the documents below it are the
    /// articles of the subject.
    pub path_root: DocPath,
    /// The articles of the subject.
    pub articles: Vec<Article>,
    /// The card of the teacher who answers for the subject, where one is
    /// found.
    pub resolved_author: Option<TeacherCard>,
}

impl DeepView for Subject {
    type V = SubjectView;

    open spec fn deep_view(&self) -> SubjectView {
        SubjectView {
            card: self.card@,
            path: self.path@,
            path_root: self.path_root@,
            articles: self.articles.deep_view(),
            resolved_author: self.resolved_author.deep_view(),
        }
    }
}

impl View for Subject {
    type V = SubjectView;

    open spec fn view(&self) -> SubjectView {
        self.deep_view()
    }
}

impl Clone for Subject {
    fn clone(&self) -> (copy: Self)
        ensures
            copy@ == self@,
    {
        let articles = self.articles.clone();
        proof {
            assert(articles.deep_view() =~= self.articles.deep_view());
        }
        Subject {
            card: self.card.clone(),
            path: self.path.clone(),
            path_root: self.path_root.clone(),
            articles,
            resolved_author: self.resolved_author.clone(),
        }
    }
}

/// What a [`Teacher`] holds, as plain texts.
pub struct TeacherView {
    pub card: TeacherCardView,
    pub subjects: Seq<SubjectView>,
    pub articles: Seq<ArticleView>,
    pub files_created: Seq<PathView>,
}

/// A teacher: the card, and what the teacher created.
#[derive(Debug)]
pub struct Teacher {
    /// The card.
    pub card: TeacherCard,
    /// The subjects that count as the teacher's.
    pub subjects: Vec<Subject>,
    /// The articles that the teacher created.
    pub articles: Vec<Article>,
    /// The paths that the history names as created by the teacher.
    pub files_created: Vec<DocPath>,
}

impl DeepView for Teacher {
    type V = TeacherView;

    open spec fn deep_view(&self) -> TeacherView {
        TeacherView {
            card: self.card@,
            subjects: self.subjects.deep_view(),
            articles: self.articles.deep_view(),
            files_created: self.files_created.deep_view(),
        }
    }
}

impl View for Teacher {
    type V = TeacherView;

    open spec fn view(&self) -> TeacherView {
        self.deep_view()
    }
}

impl Clone for Teacher {
    fn clone(&self) -> (copy: Self)
        ensures
            copy@ == self@,
    {
        let subjects = self.subjects.clone();
        let articles = self.articles.clone();
        let files_created = self.files_created.clone();
        proof {
            assert(subjects.deep_view() =~= self.subjects.deep_view());
            assert(articles.deep_view() =~= self.articles.deep_view());
            assert(files_created.deep_view() =~= self.files_created.deep_view());
        }
        Teacher { card: self.card.clone(), subjects, articles, files_created }
    }
}

} // verus!
