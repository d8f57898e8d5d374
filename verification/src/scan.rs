//! Walking the documents for their headers.
//!
//! A scan visits each document once. It tells whether the document is one of
//! those it looks for, cuts the header off and hands it out to be parsed; the
//! card that parsing gives comes back to the scan with the path of the
//! document. The first failure of a scan is the failure of the run; the scan
//! goes on after it all the same.

use crate::cat_context::{extract_header, split_header};
use crate::error::{CatError, CatErrorView};
use crate::models::{
    ArticleCard, ArticleCardView, ArticleView, Subject, SubjectCard, SubjectCardView, SubjectView,
};
use crate::path::{components, file_name_of, parent_of, DocPath, PathView};
use crate::sorting::{is_stable_order, keys_of, reordered, sort_by_key, stably_sorted, Keyed};
use crate::text::ends_with;
use vstd::prelude::*;

verus! {

/// The name of the file that holds a subject; a document whose file name
/// ends with it is the document of a subject.
pub open spec fn subject_marker() -> Seq<char> {
    seq!['s', 'u', 'b', 'j', 'e', 'c', 't', '.', 'm', 'd']
}

/// Whether the path is that of the document of a subject: its last component
/// ends with the [`subject_marker`].
pub open spec fn is_subject_path(path: PathView) -> bool {
    path.len() > 0 && subject_marker().is_suffix_of(path.last())
}

/// Whether the path is that of an article of one of the subjects whose
/// directories are `roots`: it lies below one of them, and its file name is
/// not the [`subject_marker`].
pub open spec fn is_article_path(path: PathView, roots: Seq<PathView>) -> bool {
    file_name_of(path) != Some(subject_marker()) && exists|i: int|
        0 <= i < roots.len() && (#[trigger] roots[i]).is_prefix_of(path)
}

/// The failure of a scan after the failure `e`: the first failure stays.
pub open spec fn keep_first(failure: Option<CatErrorView>, e: CatErrorView) -> Option<
    CatErrorView,
> {
    if failure is Some {
        failure
    } else {
        Some(e)
    }
}

/// What a visit does to a document with the content `content`: the header
/// that it hands out, the content that it leaves, and the failure of the scan
/// after it. A document that the scan does not look for stays as it is; so
/// does one without a header, which is a failure.
pub open spec fn header_step(selected: bool, content: Seq<char>, failure: Option<CatErrorView>) -> (
    Option<Seq<char>>,
    Seq<char>,
    Option<CatErrorView>,
) {
    if !selected {
        (None, content, failure)
    } else {
        match split_header(content) {
            Some((header, body)) => (Some(header), body, failure),
            None => (None, content, keep_first(failure, CatErrorView::InvalidOrMissingHeader)),
        }
    }
}

/// Whether the path is that of the document of a subject, see
/// [`is_subject_path`].
pub fn is_subject_document(path: &DocPath) -> (yes: bool)
    ensures
        yes == is_subject_path(path@),
{
    let n: usize = path.parts.len();
    if n == 0 {
        return false;
    }
    proof {
        reveal_strlit("subject.md");
        assert("subject.md"@ =~= subject_marker());
        assert(path@.last() == path.parts[n - 1]@);
    }
    ends_with(path.parts[n - 1].as_str(), "subject.md")
}

/// Whether the path is that of an article below one of `roots`, see
/// [`is_article_path`].
pub fn is_article_document(path: &DocPath, roots: &Vec<DocPath>) -> (yes: bool)
    ensures
        yes == is_article_path(path@, roots.deep_view()),
{
    let marker = String::from_str("subject.md");
    proof {
        reveal_strlit("subject.md");
        assert(marker@ =~= subject_marker());
    }
    match path.file_name() {
        Some(name) => {
            if name == marker {
                return false;
            }
        },
        None => {},
    }
    let mut i: usize = 0;
    while i < roots.len()
        invariant
            i <= roots.len(),
            file_name_of(path@) != Some(subject_marker()),
            forall|j: int| 0 <= j < i ==> !(#[trigger] roots.deep_view()[j]).is_prefix_of(path@),
        decreases roots.len() - i,
    {
        proof {
            assert(roots.deep_view()[i as int] == roots[i as int]@);
        }
        if path.starts_with(&roots[i]) {
            return true;
        }
        i += 1;
    }
    false
}

/// Cuts the header off `content` where the scan looks for the document, see
/// [`header_step`].
fn take_header(selected: bool, content: &mut String, failure: &mut Option<CatError>) -> (header:
    Option<String>)
    ensures
        (header.deep_view(), final(content)@, final(failure).deep_view()) == header_step(
            selected,
            old(content)@,
            old(failure).deep_view(),
        ),
{
    if !selected {
        return None;
    }
    match extract_header(content.as_str()) {
        Ok((header, body)) => {
            *content = body;
            Some(header)
        },
        Err(e) => {
            if failure.is_none() {
                *failure = Some(e);
            }
            None
        },
    }
}

/// The failure of a header that does not hold the card asked of it.
pub open spec fn bad_header(said: Seq<char>) -> CatErrorView {
    CatErrorView::InvalidHeaderFormat { err: said }
}

/// Records the failure of a header that did not parse.
fn note_bad_header(failure: &mut Option<CatError>, said: String)
    ensures
        final(failure).deep_view() == keep_first(old(failure).deep_view(), bad_header(said@)),
{
    if failure.is_none() {
        *failure = Some(CatError::InvalidHeaderFormat { err: said });
    }
}

impl Keyed for SubjectCard {
    open spec fn key_of(&self) -> Seq<char> {
        self.nazev@
    }

    fn key(&self) -> (k: &str) {
        self.nazev.as_str()
    }
}

impl Keyed for ArticleCard {
    open spec fn key_of(&self) -> Seq<char> {
        self.nazev@
    }

    fn key(&self) -> (k: &str) {
        self.nazev.as_str()
    }
}

/// The card `card` with the path `path` as the path of its document.
pub open spec fn located_subject(card: SubjectCardView, path: PathView) -> SubjectCardView {
    SubjectCardView { _resolved_path: Some(path), ..card }
}

/// The card `card` with the path `path` as the path of its document.
pub open spec fn located_article(card: ArticleCardView, path: PathView) -> ArticleCardView {
    ArticleCardView { _resolved_path: Some(path), ..card }
}

/// Whether the card is that of a subject: it has the path of a subject's
/// document.
pub open spec fn is_subject_card(card: SubjectCardView) -> bool {
    card._resolved_path matches Some(path) && is_subject_path(path)
}

/// Whether all the cards are those of subjects.
pub open spec fn are_subject_cards(cards: Seq<SubjectCardView>) -> bool {
    forall|i: int| 0 <= i < cards.len() ==> is_subject_card(#[trigger] cards[i])
}

/// Whether the card is that of an article of the subjects whose directories
/// are `roots`: it has the path of such an article.
pub open spec fn is_article_card(card: ArticleCardView, roots: Seq<PathView>) -> bool {
    card._resolved_path matches Some(path) && is_article_path(path, roots)
}

/// Whether all the cards are those of articles of the subjects.
pub open spec fn are_article_cards(cards: Seq<ArticleCardView>, roots: Seq<PathView>) -> bool {
    forall|i: int| 0 <= i < cards.len() ==> is_article_card(#[trigger] cards[i], roots)
}

/// What parsing a header as the card of a subject gave, as plain texts.
pub open spec fn parsed_subject(parsed: Result<SubjectCard, String>) -> Result<
    SubjectCardView,
    Seq<char>,
> {
    match parsed {
        Ok(card) => Ok(card@),
        Err(said) => Err(said@),
    }
}

/// What parsing a header as the card of an article gave, as plain texts.
pub open spec fn parsed_article(parsed: Result<ArticleCard, String>) -> Result<
    ArticleCardView,
    Seq<char>,
> {
    match parsed {
        Ok(card) => Ok(card@),
        Err(said) => Err(said@),
    }
}

/// The cards and the failure of a scan for subjects after it has taken what
/// parsing the header of the document at `path` gave.
pub open spec fn subject_step(
    cards: Seq<SubjectCardView>,
    failure: Option<CatErrorView>,
    path: PathView,
    parsed: Result<SubjectCardView, Seq<char>>,
) -> (Seq<SubjectCardView>, Option<CatErrorView>) {
    if !is_subject_path(path) {
        (cards, failure)
    } else {
        match parsed {
            Ok(card) => (cards.push(located_subject(card, path)), failure),
            Err(said) => (cards, keep_first(failure, bad_header(said))),
        }
    }
}

/// The cards and the failure of a scan for articles after it has taken what
/// parsing the header of the document at `path` gave.
pub open spec fn article_step(
    roots: Seq<PathView>,
    cards: Seq<ArticleCardView>,
    failure: Option<CatErrorView>,
    path: PathView,
    parsed: Result<ArticleCardView, Seq<char>>,
) -> (Seq<ArticleCardView>, Option<CatErrorView>) {
    if !is_article_path(path, roots) {
        (cards, failure)
    } else {
        match parsed {
            Ok(card) => (cards.push(located_article(card, path)), failure),
            Err(said) => (cards, keep_first(failure, bad_header(said))),
        }
    }
}

/// The scan for the documents of subjects.
#[derive(Debug)]
pub struct SubjectScan {
    /// The cards of the subjects found so far, in the order of the
    /// documents.
    pub cards: Vec<SubjectCard>,
    /// The first failure so far.
    pub failure: Option<CatError>,
}

impl SubjectScan {
    /// A scan that has visited nothing.
    pub fn new() -> (scan: Self)
        ensures
            scan.cards.deep_view() == Seq::<SubjectCardView>::empty(),
            scan.failure.deep_view() == None::<CatErrorView>,
    {
        let scan = SubjectScan { cards: Vec::new(), failure: None };
        proof {
            assert(scan.cards.deep_view() =~= Seq::<SubjectCardView>::empty());
        }
        scan
    }

    /// Visits the document at `path`. Where it is the document of a subject
    /// and has a header, the header is cut off and handed out, and the body
    /// stays as the content; see [`header_step`]. The cards stay as they
    /// are.
    pub fn visit(&mut self, path: &str, content: &mut String) -> (header: Option<String>)
        ensures
            (header.deep_view(), final(content)@, final(self).failure.deep_view()) == header_step(
                is_subject_path(components(path@)),
                old(content)@,
                old(self).failure.deep_view(),
            ),
            final(self).cards.deep_view() == old(self).cards.deep_view(),
    {
        let here = DocPath::parse(path);
        let selected = is_subject_document(&here);
        take_header(selected, content, &mut self.failure)
    }

    /// Takes what parsing the header of the document at `path` gave, see
    /// [`subject_step`]: a card, which joins the cards with `path` as the
    /// path of its document, or what the parser said, which is a failure.
    /// Nothing is taken for a document that is not that of a subject.
    pub fn accept(&mut self, path: &str, parsed: Result<SubjectCard, String>)
        ensures
            (final(self).cards.deep_view(), final(self).failure.deep_view()) == subject_step(
                old(self).cards.deep_view(),
                old(self).failure.deep_view(),
                components(path@),
                parsed_subject(parsed),
            ),
            are_subject_cards(old(self).cards.deep_view()) ==> are_subject_cards(
                final(self).cards.deep_view(),
            ),
    {
        let here = DocPath::parse(path);
        if !is_subject_document(&here) {
            return ;
        }
        match parsed {
            Ok(card) => {
                let ghost before = self.cards.deep_view();
                let mut card = card;
                card._resolved_path = Some(here);
                self.cards.push(card);
                proof {
                    assert(self.cards.deep_view() =~= before.push(card@));
                    assert(is_subject_card(card@));
                }
            },
            Err(said) => {
                note_bad_header(&mut self.failure, said);
            },
        }
    }

    /// Ends the scan: fails with the first failure where there is one, and
    /// else gives the cards, sorted by title. They are cards of subjects
    /// where the cards of the scan are.
    pub fn finish(self) -> (end: Result<Vec<SubjectCard>, CatError>)
        ensures
            match end {
                Ok(cards) => self.failure is None && stably_sorted(
                    cards@,
                    self.cards@,
                    keys_of(self.cards@),
                ) && (are_subject_cards(self.cards.deep_view()) ==> are_subject_cards(
                    cards.deep_view(),
                )),
                Err(e) => self.failure.deep_view() == Some(e@),
            },
    {
        match self.failure {
            Some(e) => Err(e),
            None => {
                let cards = sort_by_key(self.cards);
                proof {
                    let order = choose|order: Seq<int>|
                        is_stable_order(order, keys_of(self.cards@)) && cards@ == reordered(
                            self.cards@,
                            order,
                        );
                    if are_subject_cards(self.cards.deep_view()) {
                        assert forall|a: int| 0 <= a < cards.len() implies is_subject_card(
                            #[trigger] cards.deep_view()[a],
                        ) by {
                            assert(cards@[a] == self.cards@[order[a]]);
                            assert(self.cards.deep_view()[order[a]] == self.cards@[order[a]]@);
                        }
                    }
                }
                Ok(cards)
            },
        }
    }
}

/// The subject of a card: its document at the path of the card, its
/// directory the one that holds the document, and no article or teacher yet.
/// A card without a path has none, nor has one whose path has no directory.
pub open spec fn subject_of(card: SubjectCardView) -> Option<SubjectView> {
    match card._resolved_path {
        Some(path) => match parent_of(path) {
            Some(root) => Some(
                SubjectView {
                    card,
                    path,
                    path_root: root,
                    articles: Seq::empty(),
                    resolved_author: None,
                },
            ),
            None => None,
        },
        None => None,
    }
}

/// The subjects of the cards, one for each card, in order; see
/// [`subject_of`]. There are none where a card has no subject.
pub fn build_subjects(cards: &Vec<SubjectCard>) -> (made: Option<Vec<Subject>>)
    ensures
        match made {
            Some(subjects) => subjects.len() == cards.len() && forall|i: int|
                0 <= i < cards.len() ==> subject_of(cards.deep_view()[i]) == Some(
                    #[trigger] subjects.deep_view()[i],
                ),
            None => exists|i: int|
                0 <= i < cards.len() && subject_of(#[trigger] cards.deep_view()[i]) is None,
        },
        are_subject_cards(cards.deep_view()) ==> made is Some,
{
    let mut subjects: Vec<Subject> = Vec::new();
    let mut i: usize = 0;
    while i < cards.len()
        invariant
            i <= cards.len(),
            subjects.len() == i,
            forall|j: int|
                0 <= j < i ==> subject_of(cards.deep_view()[j]) == Some(
                    #[trigger] subjects.deep_view()[j],
                ),
        decreases cards.len() - i,
    {
        let ghost before = subjects.deep_view();
        proof {
            assert(cards.deep_view()[i as int] == cards[i as int]@);
        }
        proof {
            if is_subject_card(cards.deep_view()[i as int]) {
                lemma_subject_card_has_subject(cards.deep_view()[i as int]);
            }
        }
        let path = match &cards[i]._resolved_path {
            Some(path) => path.clone(),
            None => {
                return None;
            },
        };
        let root = match path.parent() {
            Some(root) => root,
            None => {
                return None;
            },
        };
        let subject = Subject {
            card: cards[i].clone(),
            path,
            path_root: root,
            articles: Vec::new(),
            resolved_author: None,
        };
        proof {
            assert(subject.articles.deep_view() =~= Seq::<ArticleView>::empty());
            assert(subject_of(cards.deep_view()[i as int]) == Some(subject@));
        }
        subjects.push(subject);
        proof {
            assert(subjects.deep_view() =~= before.push(subject@));
        }
        i += 1;
    }
    Some(subjects)
}

/// The scan for the documents of articles.
#[derive(Debug)]
pub struct ArticleScan {
    /// The directories of the subjects.
    pub roots: Vec<DocPath>,
    /// The cards of the articles found so far, in the order of the
    /// documents.
    pub cards: Vec<ArticleCard>,
    /// The first failure so far.
    pub failure: Option<CatError>,
}

/// The directories of the subjects, in order.
pub open spec fn roots_of(subjects: Seq<SubjectView>) -> Seq<PathView> {
    subjects.map_values(|s: SubjectView| s.path_root)
}

impl ArticleScan {
    /// A scan for the articles of `subjects` that has visited nothing.
    pub fn new(subjects: &Vec<Subject>) -> (scan: Self)
        ensures
            scan.roots.deep_view() == roots_of(subjects.deep_view()),
            scan.cards.deep_view() == Seq::<ArticleCardView>::empty(),
            scan.failure.deep_view() == None::<CatErrorView>,
    {
        let mut roots: Vec<DocPath> = Vec::new();
        let mut i: usize = 0;
        while i < subjects.len()
            invariant
                i <= subjects.len(),
                roots.deep_view() == roots_of(subjects.deep_view().take(i as int)),
            decreases subjects.len() - i,
        {
            let ghost before = roots.deep_view();
            let root = subjects[i].path_root.clone();
            roots.push(root);
            proof {
                assert(subjects.deep_view()[i as int] == subjects[i as int]@);
                assert(roots.deep_view() =~= before.push(root@));
                assert(roots_of(subjects.deep_view().take(i + 1)) =~= before.push(root@));
            }
            i += 1;
        }
        proof {
            assert(subjects.deep_view().take(subjects.len() as int) =~= subjects.deep_view());
        }
        let scan = ArticleScan { roots, cards: Vec::new(), failure: None };
        proof {
            assert(scan.cards.deep_view() =~= Seq::<ArticleCardView>::empty());
        }
        scan
    }

    /// Visits the document at `path`. Where it is an article of one of the
    /// subjects and has a header, the header is cut off and handed out, and
    /// the body stays as the content; see [`header_step`]. The cards and the
    /// directories stay as they are.
    pub fn visit(&mut self, path: &str, content: &mut String) -> (header: Option<String>)
        ensures
            (header.deep_view(), final(content)@, final(self).failure.deep_view()) == header_step(
                is_article_path(components(path@), old(self).roots.deep_view()),
                old(content)@,
                old(self).failure.deep_view(),
            ),
            final(self).cards.deep_view() == old(self).cards.deep_view(),
            final(self).roots.deep_view() == old(self).roots.deep_view(),
    {
        let here = DocPath::parse(path);
        let selected = is_article_document(&here, &self.roots);
        take_header(selected, content, &mut self.failure)
    }

    /// Takes what parsing the header of the document at `path` gave, see
    /// [`article_step`]: a card, which joins the cards with `path` as the
    /// path of its document, or what the parser said, which is a failure.
    /// Nothing is taken for a document that is no article of the subjects.
    pub fn accept(&mut self, path: &str, parsed: Result<ArticleCard, String>)
        ensures
            final(self).roots.deep_view() == old(self).roots.deep_view(),
            (final(self).cards.deep_view(), final(self).failure.deep_view()) == article_step(
                old(self).roots.deep_view(),
                old(self).cards.deep_view(),
                old(self).failure.deep_view(),
                components(path@),
                parsed_article(parsed),
            ),
            are_article_cards(old(self).cards.deep_view(), old(self).roots.deep_view())
                ==> are_article_cards(final(self).cards.deep_view(), final(self).roots.deep_view()),
    {
        let here = DocPath::parse(path);
        if !is_article_document(&here, &self.roots) {
            return ;
        }
        match parsed {
            Ok(card) => {
                let ghost before = self.cards.deep_view();
                let mut card = card;
                card._resolved_path = Some(here);
                self.cards.push(card);
                proof {
                    assert(self.cards.deep_view() =~= before.push(card@));
                    assert(is_article_card(card@, self.roots.deep_view()));
                }
            },
            Err(said) => {
                note_bad_header(&mut self.failure, said);
            },
        }
    }

    /// Ends the scan: fails with the first failure where there is one, and
    /// else gives the cards, sorted by title. They are cards of articles of
    /// the subjects where the cards of the scan are.
    pub fn finish(self) -> (end: Result<Vec<ArticleCard>, CatError>)
        ensures
            match end {
                Ok(cards) => self.failure is None && stably_sorted(
                    cards@,
                    self.cards@,
                    keys_of(self.cards@),
                ) && (are_article_cards(self.cards.deep_view(), self.roots.deep_view())
                    ==> are_article_cards(cards.deep_view(), self.roots.deep_view())),
                Err(e) => self.failure.deep_view() == Some(e@),
            },
    {
        match self.failure {
            Some(e) => Err(e),
            None => {
                let cards = sort_by_key(self.cards);
                proof {
                    let order = choose|order: Seq<int>|
                        is_stable_order(order, keys_of(self.cards@)) && cards@ == reordered(
                            self.cards@,
                            order,
                        );
                    if are_article_cards(self.cards.deep_view(), self.roots.deep_view()) {
                        assert forall|a: int| 0 <= a < cards.len() implies is_article_card(
                            #[trigger] cards.deep_view()[a],
                            self.roots.deep_view(),
                        ) by {
                            assert(cards@[a] == self.cards@[order[a]]);
                            assert(self.cards.deep_view()[order[a]] == self.cards@[order[a]]@);
                        }
                    }
                }
                Ok(cards)
            },
        }
    }
}

/// The directory of a subject is the directory that holds its document,
/// and the document of a subject is at the path of its card.
pub proof fn lemma_subject_root(card: SubjectCardView)
    requires
        subject_of(card) is Some,
    ensures
        card._resolved_path == Some(subject_of(card)->0.path),
        parent_of(subject_of(card)->0.path) == Some(subject_of(card)->0.path_root),
        subject_of(card)->0.path_root.is_prefix_of(subject_of(card)->0.path),
        subject_of(card)->0.path_root.len() + 1 == subject_of(card)->0.path.len(),
{
    let subject = subject_of(card)->0;
    assert(subject.path_root =~= subject.path.subrange(0, subject.path_root.len() as int));
}

/// The document of a subject has a directory: the card of a subject has a
/// subject.
pub proof fn lemma_subject_card_has_subject(card: SubjectCardView)
    requires
        is_subject_card(card),
    ensures
        subject_of(card) is Some,
{
    let path = card._resolved_path->0;
    assert(path.last().len() >= subject_marker().len());
}

} // verus!
