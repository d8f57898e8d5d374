//! Renders: texts that are put into documents, and how they are put there.

use crate::book::{book_documents, push_document, walk_book, Document};
use crate::cat_context::CatContext;
use crate::error::{CatError, CatErrorView};
use crate::models::{Article, Subject, Teacher, TeacherCard, TeacherCardView};
use crate::path::{components, path_text, DocPath, PathView};
use crate::search::{
    first_where, lemma_filter_all, lemma_filter_first, lemma_filter_same, lemma_filter_twice,
    lemma_first_where, lemma_first_where_bounds,
};
use crate::text::lemma_first_index;
pub use crate::tags::{Tag, TagContext};
use mdbook::book::Book;
use vstd::prelude::*;

verus! {

/// What a [`RenderType`] holds, as plain texts.
pub enum RenderTypeView {
    Prepend(Seq<char>),
    Append(Seq<char>),
    Both(Seq<char>, Seq<char>),
    EntirePage(Seq<char>),
}

/// A rendered text and how it joins the content of its document.
#[derive(Debug)]
pub enum RenderType {
    /// The text goes before the content.
    Prepend(String),
    /// The text goes after the content.
    Append(String),
    /// The first text goes before the content, the second after it.
    Both(String, String),
    /// The text replaces the content.
    EntirePage(String),
}

impl DeepView for RenderType {
    type V = RenderTypeView;

    open spec fn deep_view(&self) -> RenderTypeView {
        match self {
            RenderType::Prepend(text) => RenderTypeView::Prepend(text@),
            RenderType::Append(text) => RenderTypeView::Append(text@),
            RenderType::Both(pre, post) => RenderTypeView::Both(pre@, post@),
            RenderType::EntirePage(text) => RenderTypeView::EntirePage(text@),
        }
    }
}

impl View for RenderType {
    type V = RenderTypeView;

    open spec fn view(&self) -> RenderTypeView {
        self.deep_view()
    }
}

impl Clone for RenderType {
    fn clone(&self) -> (copy: Self)
        ensures
            copy@ == self@,
    {
        match self {
            RenderType::Prepend(text) => RenderType::Prepend(text.clone()),
            RenderType::Append(text) => RenderType::Append(text.clone()),
            RenderType::Both(pre, post) => RenderType::Both(pre.clone(), post.clone()),
            RenderType::EntirePage(text) => RenderType::EntirePage(text.clone()),
        }
    }
}

/// The name of the kind of a render.
pub open spec fn kind_name(render: RenderTypeView) -> Seq<char> {
    match render {
        RenderTypeView::Prepend(_) => "Prepend"@,
        RenderTypeView::Append(_) => "Append"@,
        RenderTypeView::Both(_, _) => "Both"@,
        RenderTypeView::EntirePage(_) => "EntirePage"@,
    }
}

impl RenderType {
    /// The render as it is named in messages: by its kind, without its
    /// texts.
    pub fn to_string(&self) -> (name: String)
        ensures
            name@ == kind_name(self@),
    {
        match self {
            RenderType::Prepend(_) => String::from_str("Prepend"),
            RenderType::Append(_) => String::from_str("Append"),
            RenderType::Both(_, _) => String::from_str("Both"),
            RenderType::EntirePage(_) => String::from_str("EntirePage"),
        }
    }
}

/// What a [`RenderSite`] holds: the components of its path and its render.
pub struct RenderSiteView {
    pub site: PathView,
    pub render: RenderTypeView,
}

/// A render and the document that it is meant for.
#[derive(Debug)]
pub struct RenderSite {
    /// The path of the document.
    pub site: DocPath,
    /// The text and how it joins the content.
    pub render: RenderType,
}

impl DeepView for RenderSite {
    type V = RenderSiteView;

    open spec fn deep_view(&self) -> RenderSiteView {
        RenderSiteView { site: self.site@, render: self.render@ }
    }
}

impl View for RenderSite {
    type V = RenderSiteView;

    open spec fn view(&self) -> RenderSiteView {
        self.deep_view()
    }
}

impl Clone for RenderSite {
    fn clone(&self) -> (copy: Self)
        ensures
            copy@ == self@,
    {
        RenderSite { site: self.site.clone(), render: self.render.clone() }
    }
}

impl RenderSite {
    /// The render `render` for the document at `site`.
    pub fn new(site: DocPath, render: RenderType) -> (made: Self)
        ensures
            made.site == site,
            made.render == render,
    {
        RenderSite { site, render }
    }
}

/// The content of a document after a render has joined it. The texts are
/// joined by single line feeds.
pub open spec fn compose(content: Seq<char>, render: RenderTypeView) -> Seq<char> {
    match render {
        RenderTypeView::Prepend(text) => text + seq!['\n'] + content,
        RenderTypeView::Append(text) => content + seq!['\n'] + text,
        RenderTypeView::Both(pre, post) => pre + seq!['\n'] + content + seq!['\n'] + post,
        RenderTypeView::EntirePage(text) => text,
    }
}

/// The content of the document at `path` after each of `pending` that names
/// `path` has joined it, the first first.
pub open spec fn patched(content: Seq<char>, path: PathView, pending: Seq<RenderSiteView>) -> Seq<
    char,
>
    decreases pending.len(),
{
    if pending.len() == 0 {
        content
    } else {
        let before = patched(content, path, pending.drop_last());
        if pending.last().site == path {
            compose(before, pending.last().render)
        } else {
            before
        }
    }
}

/// Those of `pending` that do not name `path`, in order.
pub open spec fn unplaced(path: PathView, pending: Seq<RenderSiteView>) -> Seq<RenderSiteView> {
    pending.filter(|r: RenderSiteView| r.site != path)
}

/// Those of `pending` that are left when the documents `docs`, each a path
/// text and a content, have been walked in order.
pub open spec fn walk_pending(
    docs: Seq<(Seq<char>, Seq<char>)>,
    pending: Seq<RenderSiteView>,
) -> Seq<RenderSiteView>
    decreases docs.len(),
{
    if docs.len() == 0 {
        pending
    } else {
        unplaced(components(docs.last().0), walk_pending(docs.drop_last(), pending))
    }
}

/// The documents after the walk: each keeps its path, and its content is
/// joined by the renders that name its path and that no earlier document
/// took.
pub open spec fn walk_documents(
    docs: Seq<(Seq<char>, Seq<char>)>,
    pending: Seq<RenderSiteView>,
) -> Seq<(Seq<char>, Seq<char>)> {
    Seq::new(
        docs.len(),
        |i: int|
            (
                docs[i].0,
                patched(docs[i].1, components(docs[i].0), walk_pending(docs.take(i), pending)),
            ),
    )
}

/// The renders that wait for their documents while the documents are walked.
pub struct RenderWalk {
    /// The renders that no document has taken yet, in the order given.
    pub pending: Vec<RenderSite>,
}

impl RenderWalk {
    /// The content `content` joined by `render`, see [`compose`].
    pub fn compose(content: &str, render: &RenderType) -> (text: String)
        ensures
            text@ == compose(content@, render@),
    {
        match render {
            RenderType::Prepend(s) => {
                let mut text = s.clone();
                text.push('\n');
                text.append(content);
                text
            },
            RenderType::Append(s) => {
                let mut text = String::from_str(content);
                text.push('\n');
                text.append(s.as_str());
                text
            },
            RenderType::Both(pre, post) => {
                let mut text = pre.clone();
                text.push('\n');
                text.append(content);
                text.push('\n');
                text.append(post.as_str());
                text
            },
            RenderType::EntirePage(s) => s.clone(),
        }
    }

    /// Visits the document at `path`: gives its content after every pending
    /// render that names `path` has joined it, in order, and keeps the other
    /// renders pending.
    pub fn visit(&mut self, path: &str, content: &str) -> (text: String)
        ensures
            text@ == patched(content@, components(path@), old(self).pending.deep_view()),
            final(self).pending.deep_view() == unplaced(
                components(path@),
                old(self).pending.deep_view(),
            ),
    {
        let here = DocPath::parse(path);
        let mut text = String::from_str(content);
        let mut left: Vec<RenderSite> = Vec::new();
        let ghost all = self.pending.deep_view();
        let ghost keep = |r: RenderSiteView| r.site != here@;
        let n: usize = self.pending.len();
        let mut i: usize = 0;
        proof {
            assert(all.take(0) =~= Seq::<RenderSiteView>::empty());
            assert(left.deep_view() =~= all.take(0).filter(keep));
        }
        while i < n
            invariant
                i <= n,
                n == self.pending.len(),
                all == self.pending.deep_view(),
                here@ == components(path@),
                keep == (|r: RenderSiteView| r.site != here@),
                text@ == patched(content@, here@, all.take(i as int)),
                left.deep_view() == all.take(i as int).filter(keep),
            decreases n - i,
        {
            let ghost before = left.deep_view();
            proof {
                let next = all.take(i + 1);
                assert(next.drop_last() =~= all.take(i as int));
                assert(next.last() == self.pending[i as int]@);
                assert(next =~= all.take(i as int).push(next.last()));
                all.take(i as int).lemma_filter_push(next.last(), keep);
            }
            if self.pending[i].site.same(&here) {
                text = Self::compose(text.as_str(), &self.pending[i].render);
            } else {
                left.push(self.pending[i].clone());
                proof {
                    assert(left.deep_view() =~= before.push(self.pending[i as int]@));
                }
            }
            i += 1;
        }
        proof {
            assert(all.take(n as int) =~= all);
        }
        self.pending = left;
        text
    }

    /// Walks the documents in order: each takes the pending renders that
    /// name its path, see [`walk_documents`], and the others stay pending,
    /// see [`walk_pending`].
    pub fn walk(&mut self, docs: &mut Vec<Document>)
        ensures
            final(docs).deep_view() == walk_documents(
                old(docs).deep_view(),
                old(self).pending.deep_view(),
            ),
            final(self).pending.deep_view() == walk_pending(
                old(docs).deep_view(),
                old(self).pending.deep_view(),
            ),
    {
        let ghost first = docs.deep_view();
        let ghost renders = self.pending.deep_view();
        let n: usize = docs.len();
        let mut i: usize = 0;
        proof {
            assert(first.take(0) =~= Seq::<(Seq<char>, Seq<char>)>::empty());
        }
        while i < n
            invariant
                i <= n,
                n == docs.len(),
                n == first.len(),
                self.pending.deep_view() == walk_pending(first.take(i as int), renders),
                forall|j: int|
                    0 <= j < i ==> #[trigger] docs.deep_view()[j] == walk_documents(
                        first,
                        renders,
                    )[j],
                forall|j: int| i <= j < n ==> #[trigger] docs.deep_view()[j] == first[j],
            decreases n - i,
        {
            let ghost before = docs.deep_view();
            proof {
                assert(before[i as int] == docs[i as int]@);
                assert(first.take(i + 1).drop_last() =~= first.take(i as int));
                assert(first.take(i + 1).last() == first[i as int]);
            }
            let text = self.visit(docs[i].path.as_str(), docs[i].content.as_str());
            docs[i].content = text;
            proof {
                assert(docs.deep_view()[i as int] == walk_documents(first, renders)[i as int]);
                assert forall|j: int| 0 <= j < i + 1 implies #[trigger] docs.deep_view()[j]
                    == walk_documents(first, renders)[j] by {
                    if j != i {
                        assert(docs.deep_view()[j] == before[j]);
                    }
                }
                assert forall|j: int| i + 1 <= j < n implies #[trigger] docs.deep_view()[j]
                    == first[j] by {
                    assert(docs.deep_view()[j] == before[j]);
                }
            }
            i += 1;
        }
        proof {
            assert(first.take(n as int) =~= first);
            assert(docs.deep_view() =~= walk_documents(first, renders));
        }
    }

    /// Ends the walk: fails where a render is left, with the first that is.
    pub fn finish(self) -> (end: Result<(), CatError>)
        ensures
            match end {
                Ok(()) => self.pending.deep_view().len() == 0,
                Err(e) => self.pending.deep_view().len() > 0 && e@ == orphan(
                    self.pending.deep_view()[0],
                ),
            },
    {
        if self.pending.len() == 0 {
            Ok(())
        } else {
            Err(
                CatError::OrphanRender {
                    site: self.pending[0].site.to_text(),
                    render: self.pending[0].render.clone(),
                },
            )
        }
    }
}

/// The error that names the render `left` as left over.
pub open spec fn orphan(left: RenderSiteView) -> CatErrorView {
    CatErrorView::OrphanRender { site: path_text(left.site), render: left.render }
}

/// Puts the renders into the documents. The documents are walked once, in
/// order; each takes the pending renders that name its path, in the order
/// given. The run fails where a render is left at the end, with the first
/// that is; the documents are patched all the same.
pub fn patch_documents(pending_renders: Vec<RenderSite>, docs: &mut Vec<Document>) -> (end: Result<
    (),
    CatError,
>)
    ensures
        final(docs).deep_view() == walk_documents(
            old(docs).deep_view(),
            pending_renders.deep_view(),
        ),
        match end {
            Ok(()) => walk_pending(old(docs).deep_view(), pending_renders.deep_view()).len() == 0,
            Err(e) => {
                let left = walk_pending(old(docs).deep_view(), pending_renders.deep_view());
                left.len() > 0 && e@ == orphan(left[0])
            },
        },
{
    let mut walk = RenderWalk { pending: pending_renders };
    walk.walk(docs);
    walk.finish()
}

/// Puts the renders into the documents of the book, as [`patch_documents`]
/// puts them into documents: the documents of the book are walked once, in
/// order; each takes the pending renders that name its path, in the order
/// given. The run fails where a render is left at the end, with the first
/// that is; the documents are patched all the same.
pub fn execute_renders(pending_renders: Vec<RenderSite>, book: &mut Book) -> (end: Result<
    (),
    CatError,
>)
    ensures
        book_documents(*final(book)) == walk_documents(
            book_documents(*old(book)),
            pending_renders.deep_view(),
        ),
        match end {
            Ok(()) => walk_pending(book_documents(*old(book)), pending_renders.deep_view()).len()
                == 0,
            Err(e) => {
                let left = walk_pending(book_documents(*old(book)), pending_renders.deep_view());
                left.len() > 0 && e@ == orphan(left[0])
            },
        },
{
    let mut walk = RenderWalk { pending: pending_renders };
    walk_book(book, &mut walk);
    walk.finish()
}

/// What a [`TeacherList`] holds, as plain texts.
pub struct TeacherListView {
    pub list: Seq<TeacherCardView>,
}

/// The cards of all teachers, as the list of teachers shows them.
#[derive(Debug)]
pub struct TeacherList {
    /// The cards.
    pub list: Vec<TeacherCard>,
}

impl DeepView for TeacherList {
    type V = TeacherListView;

    open spec fn deep_view(&self) -> TeacherListView {
        TeacherListView { list: self.list.deep_view() }
    }
}

impl View for TeacherList {
    type V = TeacherListView;

    open spec fn view(&self) -> TeacherListView {
        self.deep_view()
    }
}

impl Clone for TeacherList {
    fn clone(&self) -> (copy: Self)
        ensures
            copy@ == self@,
    {
        let list = self.list.clone();
        proof {
            assert(list.deep_view() =~= self.list.deep_view());
        }
        TeacherList { list }
    }
}

/// The name of the document that shows the teachers.
pub open spec fn teachers_page() -> Seq<char> {
    "teachers.md"@
}

/// The name of the document that shows the tags.
pub open spec fn tags_page() -> Seq<char> {
    "tags.md"@
}

/// The error of a template that did not render.
pub open spec fn tiny_error(said: Seq<char>) -> CatErrorView {
    CatErrorView::TinyError { error: said }
}

/// What a render came to: the render, or the error, as plain texts.
pub open spec fn outcome_view(outcome: Result<RenderSite, CatError>) -> Result<
    RenderSiteView,
    CatErrorView,
> {
    match outcome {
        Ok(site) => Ok(site@),
        Err(e) => Err(e@),
    }
}

/// The render of a text that goes after the content of the document at
/// `site`; the error of the template where there is no text.
pub open spec fn appended(site: PathView, output: Result<Seq<char>, Seq<char>>) -> Result<
    RenderSiteView,
    CatErrorView,
> {
    match output {
        Ok(text) => Ok(RenderSiteView { site, render: RenderTypeView::Append(text) }),
        Err(said) => Err(tiny_error(said)),
    }
}

/// The render of two texts that go around the content of the document at
/// `site`; the error of the templates where there are no texts.
pub open spec fn wrapped(
    site: PathView,
    output: Result<(Seq<char>, Seq<char>), Seq<char>>,
) -> Result<RenderSiteView, CatErrorView> {
    match output {
        Ok((pre, post)) => Ok(RenderSiteView { site, render: RenderTypeView::Both(pre, post) }),
        Err(said) => Err(tiny_error(said)),
    }
}

/// The render of a text that replaces the content of the document at
/// `site`; the error of the template where there is no text.
pub open spec fn replaced(site: PathView, output: Result<Seq<char>, Seq<char>>) -> Result<
    RenderSiteView,
    CatErrorView,
> {
    match output {
        Ok(text) => Ok(RenderSiteView { site, render: RenderTypeView::EntirePage(text) }),
        Err(said) => Err(tiny_error(said)),
    }
}

/// What a template gave, as plain texts.
pub open spec fn text_view(output: Result<String, String>) -> Result<Seq<char>, Seq<char>> {
    match output {
        Ok(text) => Ok(text@),
        Err(said) => Err(said@),
    }
}

/// What two templates gave, as plain texts.
pub open spec fn texts_view(output: Result<(String, String), String>) -> Result<
    (Seq<char>, Seq<char>),
    Seq<char>,
> {
    match output {
        Ok((pre, post)) => Ok((pre@, post@)),
        Err(said) => Err(said@),
    }
}

/// The path with the one component `name`.
fn page_path(name: &str) -> (path: DocPath)
    ensures
        path@ == seq![name@],
{
    let mut parts: Vec<String> = Vec::new();
    parts.push(String::from_str(name));
    let path = DocPath { parts };
    proof {
        assert(path@ =~= seq![name@]);
    }
    path
}

fn append_at(site: DocPath, output: Result<String, String>) -> (outcome: Result<
    RenderSite,
    CatError,
>)
    ensures
        outcome_view(outcome) == appended(site@, text_view(output)),
{
    match output {
        Ok(text) => Ok(RenderSite::new(site, RenderType::Append(text))),
        Err(said) => Err(CatError::TinyError { error: said }),
    }
}

fn wrap_at(site: DocPath, output: Result<(String, String), String>) -> (outcome: Result<
    RenderSite,
    CatError,
>)
    ensures
        outcome_view(outcome) == wrapped(site@, texts_view(output)),
{
    match output {
        Ok((pre, post)) => Ok(RenderSite::new(site, RenderType::Both(pre, post))),
        Err(said) => Err(CatError::TinyError { error: said }),
    }
}

/// A record that is shown in a document of the book.
pub trait Render {
    /// What the templates of the record give: the rendered texts, or what
    /// the template engine said.
    type Output;

    /// What rendering the record comes to: the render that holds the texts
    /// and names the document that they go to, or the error of the
    /// templates.
    spec fn rendered(&self, output: Self::Output) -> Result<RenderSiteView, CatErrorView>;

    /// The render of the record, from what its templates gave.
    fn render(&self, output: Self::Output) -> (outcome: Result<RenderSite, CatError>)
        ensures
            outcome_view(outcome) == self.rendered(output),
    ;
}

/// A teacher goes to the end of the document that shows the teachers.
impl Render for Teacher {
    type Output = Result<String, String>;

    open spec fn rendered(&self, output: Result<String, String>) -> Result<
        RenderSiteView,
        CatErrorView,
    > {
        appended(seq![teachers_page()], text_view(output))
    }

    fn render(&self, output: Result<String, String>) -> (outcome: Result<RenderSite, CatError>) {
        append_at(page_path("teachers.md"), output)
    }
}

/// The list of teachers goes to the end of the document that shows the
/// teachers.
impl Render for TeacherList {
    type Output = Result<String, String>;

    open spec fn rendered(&self, output: Result<String, String>) -> Result<
        RenderSiteView,
        CatErrorView,
    > {
        appended(seq![teachers_page()], text_view(output))
    }

    fn render(&self, output: Result<String, String>) -> (outcome: Result<RenderSite, CatError>) {
        append_at(page_path("teachers.md"), output)
    }
}

/// The two texts of a subject go around the content of its document.
impl Render for Subject {
    type Output = Result<(String, String), String>;

    open spec fn rendered(&self, output: Result<(String, String), String>) -> Result<
        RenderSiteView,
        CatErrorView,
    > {
        wrapped(self@.path, texts_view(output))
    }

    fn render(&self, output: Result<(String, String), String>) -> (outcome: Result<
        RenderSite,
        CatError,
    >) {
        wrap_at(self.path.clone(), output)
    }
}

/// The two texts of an article go around the content of its document.
impl Render for Article {
    type Output = Result<(String, String), String>;

    open spec fn rendered(&self, output: Result<(String, String), String>) -> Result<
        RenderSiteView,
        CatErrorView,
    > {
        wrapped(self@.path, texts_view(output))
    }

    fn render(&self, output: Result<(String, String), String>) -> (outcome: Result<
        RenderSite,
        CatError,
    >) {
        wrap_at(self.path.clone(), output)
    }
}

/// The text of the tags is the content of the document that shows the
/// tags.
impl Render for TagContext {
    type Output = Result<String, String>;

    open spec fn rendered(&self, output: Result<String, String>) -> Result<
        RenderSiteView,
        CatErrorView,
    > {
        replaced(seq![tags_page()], text_view(output))
    }

    fn render(&self, output: Result<String, String>) -> (outcome: Result<RenderSite, CatError>) {
        match output {
            Ok(text) => Ok(RenderSite::new(page_path("tags.md"), RenderType::EntirePage(text))),
            Err(said) => Err(CatError::TinyError { error: said }),
        }
    }
}

/// The renders of a run as they came out, each a render or an error.
#[derive(Debug)]
pub struct RenderBatch {
    /// That of the list of teachers.
    pub teacher_list: Result<RenderSite, CatError>,
    /// Those of the teachers.
    pub teachers: Vec<Result<RenderSite, CatError>>,
    /// Those of the subjects.
    pub subjects: Vec<Result<RenderSite, CatError>>,
    /// Those of the articles.
    pub articles: Vec<Result<RenderSite, CatError>>,
    /// That of the tags.
    pub tags: Result<RenderSite, CatError>,
}

/// The outcomes of the batch in the order in which they count: the list of
/// teachers, the teachers, the subjects, the articles, the tags.
pub open spec fn batch_outcomes(batch: RenderBatch) -> Seq<Result<RenderSiteView, CatErrorView>> {
    (seq![batch.teacher_list] + batch.teachers@ + batch.subjects@ + batch.articles@
        + seq![batch.tags]).map_values(|o: Result<RenderSite, CatError>| outcome_view(o))
}

/// Whether the outcome is an error.
pub open spec fn is_failure(outcome: Result<RenderSiteView, CatErrorView>) -> bool {
    outcome is Err
}

/// The render of an outcome that is no error.
pub open spec fn render_of(outcome: Result<RenderSiteView, CatErrorView>) -> RenderSiteView {
    outcome->Ok_0
}

/// The heading of the document that shows the teachers.
pub open spec fn teachers_heading() -> Seq<char> {
    "# Vyučující\n"@
}

/// The documents that a run adds to the book: one for the teachers where
/// there is a teacher's card, then one for the tags where there is a tag.
pub open spec fn placeholders(has_teachers: bool, has_tags: bool) -> Seq<(Seq<char>, Seq<char>)> {
    let first = if has_teachers {
        seq![(teachers_page(), teachers_heading())]
    } else {
        Seq::empty()
    };
    let second = if has_tags {
        seq![(tags_page(), Seq::<char>::empty())]
    } else {
        Seq::empty()
    };
    first + second
}

/// Gathers the renders of a run. Succeeds where no outcome of the batch is
/// an error, with all renders in the order of [`batch_outcomes`]; fails with
/// the first error of the batch.
pub fn gather_renders(batch: RenderBatch) -> (end: Result<Vec<RenderSite>, CatError>)
    ensures
        match end {
            Ok(renders) => first_where(
                batch_outcomes(batch),
                |o: Result<RenderSiteView, CatErrorView>| is_failure(o),
            ) == batch_outcomes(batch).len() && renders.deep_view() == batch_outcomes(
                batch,
            ).map_values(|o: Result<RenderSiteView, CatErrorView>| render_of(o)),
            Err(e) => {
                let k = first_where(
                    batch_outcomes(batch),
                    |o: Result<RenderSiteView, CatErrorView>| is_failure(o),
                );
                0 <= k < batch_outcomes(batch).len() && batch_outcomes(batch)[k] == Err::<
                    RenderSiteView,
                    CatErrorView,
                >(e@)
            },
        },
{
    let ghost outs = batch_outcomes(batch);
    let RenderBatch { teacher_list, teachers, subjects, articles, tags } = batch;
    let mut all: Vec<Result<RenderSite, CatError>> = Vec::new();
    let mut teachers = teachers;
    let mut subjects = subjects;
    let mut articles = articles;
    all.push(teacher_list);
    all.append(&mut teachers);
    all.append(&mut subjects);
    all.append(&mut articles);
    all.push(tags);
    proof {
        assert(all@ =~= seq![batch.teacher_list] + batch.teachers@ + batch.subjects@
            + batch.articles@ + seq![batch.tags]);
        assert(outs =~= all@.map_values(|o: Result<RenderSite, CatError>| outcome_view(o)));
    }
    let mut renders: Vec<RenderSite> = Vec::new();
    let mut i: usize = 0;
    proof {
        assert(renders.deep_view() =~= outs.take(0).map_values(
            |o: Result<RenderSiteView, CatErrorView>| render_of(o),
        ));
    }
    while i < all.len()
        invariant
            i <= all.len(),
            outs == batch_outcomes(batch),
            outs == all@.map_values(|o: Result<RenderSite, CatError>| outcome_view(o)),
            forall|j: int| 0 <= j < i ==> !is_failure(#[trigger] outs[j]),
            renders.deep_view() == outs.take(i as int).map_values(
                |o: Result<RenderSiteView, CatErrorView>| render_of(o),
            ),
        decreases all.len() - i,
    {
        let ghost before = renders.deep_view();
        proof {
            assert(outs[i as int] == outcome_view(all@[i as int]));
        }
        match &all[i] {
            Ok(site) => {
                let copy = site.clone();
                renders.push(copy);
                proof {
                    assert(renders.deep_view() =~= before.push(copy@));
                    assert(outs.take(i + 1).map_values(
                        |o: Result<RenderSiteView, CatErrorView>| render_of(o),
                    ) =~= before.push(render_of(outs[i as int])));
                }
            },
            Err(e) => {
                proof {
                    lemma_first_where(
                        outs,
                        |o: Result<RenderSiteView, CatErrorView>| is_failure(o),
                        i as int,
                    );
                }
                return Err(e.clone());
            },
        }
        i += 1;
    }
    proof {
        lemma_first_where(
            outs,
            |o: Result<RenderSiteView, CatErrorView>| is_failure(o),
            all.len() as int,
        );
        assert(outs.take(all.len() as int) =~= outs);
    }
    Ok(renders)
}

/// Gathers the renders of a run, see [`gather_renders`], and adds the
/// documents that the renders of teachers and tags go to. Where the renders
/// are gathered, the [`placeholders`] are added to the end of the book: one
/// document for the teachers where the context holds a teacher's card, then
/// one for the tags where it holds a tag. Where the batch holds an error the
/// book stays as it is.
pub fn create_renders(context: &CatContext, book: &mut Book, batch: RenderBatch) -> (end: Result<
    Vec<RenderSite>,
    CatError,
>)
    ensures
        match end {
            Ok(renders) => first_where(
                batch_outcomes(batch),
                |o: Result<RenderSiteView, CatErrorView>| is_failure(o),
            ) == batch_outcomes(batch).len() && renders.deep_view() == batch_outcomes(
                batch,
            ).map_values(|o: Result<RenderSiteView, CatErrorView>| render_of(o))
                && book_documents(*final(book)) == book_documents(*old(book)) + placeholders(
                context.teacher_cards.len() > 0,
                context.tags.len() > 0,
            ),
            Err(e) => {
                let k = first_where(
                    batch_outcomes(batch),
                    |o: Result<RenderSiteView, CatErrorView>| is_failure(o),
                );
                0 <= k < batch_outcomes(batch).len() && batch_outcomes(batch)[k] == Err::<
                    RenderSiteView,
                    CatErrorView,
                >(e@) && book_documents(*final(book)) == book_documents(*old(book))
            },
        },
{
    let renders = match gather_renders(batch) {
        Ok(renders) => renders,
        Err(e) => {
            return Err(e);
        },
    };
    let ghost start = book_documents(*book);
    if context.teacher_cards.len() > 0 {
        push_document(
            book,
            "Vyučující",
            String::from_str("# Vyučující\n"),
            String::from_str("teachers.md"),
        );
    }
    if context.tags.len() > 0 {
        push_document(book, "Tagy", String::new(), String::from_str("tags.md"));
    }
    proof {
        assert(book_documents(*book) =~= start + placeholders(
            context.teacher_cards.len() > 0,
            context.tags.len() > 0,
        ));
    }
    Ok(renders)
}

/// Whether one of the documents has the path `site`.
pub open spec fn is_visited(docs: Seq<(Seq<char>, Seq<char>)>, site: PathView) -> bool {
    exists|i: int| 0 <= i < docs.len() && components((#[trigger] docs[i]).0) == site
}

/// Whether the render names a path that none of the documents has.
pub open spec fn is_orphan(docs: Seq<(Seq<char>, Seq<char>)>) -> spec_fn(RenderSiteView) -> bool {
    |r: RenderSiteView| !is_visited(docs, r.site)
}

/// The renders that a walk leaves are those that name a path that no
/// document has, in the order given.
pub proof fn lemma_left_are_orphans(docs: Seq<(Seq<char>, Seq<char>)>, pending: Seq<RenderSiteView>)
    ensures
        walk_pending(docs, pending) == pending.filter(is_orphan(docs)),
    decreases docs.len(),
{
    if docs.len() == 0 {
        assert forall|j: int| 0 <= j < pending.len() implies is_orphan(docs)(
            #[trigger] pending[j],
        ) by {}
        lemma_filter_all(pending, is_orphan(docs));
    } else {
        let earlier = docs.drop_last();
        let here = components(docs.last().0);
        lemma_left_are_orphans(earlier, pending);
        let away = |r: RenderSiteView| r.site != here;
        lemma_filter_twice(pending, is_orphan(earlier), away);
        let both = |r: RenderSiteView| is_orphan(earlier)(r) && away(r);
        assert forall|j: int| 0 <= j < pending.len() implies both(#[trigger] pending[j])
            == is_orphan(docs)(pending[j]) by {
            let site = pending[j].site;
            if is_visited(docs, site) {
                let i = choose|i: int| 0 <= i < docs.len() && components((#[trigger] docs[i]).0)
                    == site;
                if i < docs.len() - 1 {
                    assert(earlier[i] == docs[i]);
                }
            }
            if is_visited(earlier, site) {
                let i = choose|i: int|
                    0 <= i < earlier.len() && components((#[trigger] earlier[i]).0) == site;
                assert(docs[i] == earlier[i]);
            }
            if site == here {
                assert(docs[docs.len() - 1] == docs.last());
            }
        }
        lemma_filter_same(pending, both, is_orphan(docs));
    }
}

/// A walk is left with nothing just when every render names the path of a
/// document. Where one does not, the first that is left is the first of
/// the renders that names no document's path: the one that the failure of
/// the run names.
pub proof fn lemma_first_orphan(docs: Seq<(Seq<char>, Seq<char>)>, pending: Seq<RenderSiteView>)
    ensures
        walk_pending(docs, pending).len() == 0 <==> forall|j: int|
            0 <= j < pending.len() ==> is_visited(docs, (#[trigger] pending[j]).site),
        walk_pending(docs, pending).len() > 0 ==> {
            let k = first_where(pending, is_orphan(docs));
            0 <= k < pending.len() && walk_pending(docs, pending)[0] == pending[k]
        },
{
    lemma_left_are_orphans(docs, pending);
    lemma_filter_first(pending, is_orphan(docs));
    lemma_first_where_bounds(pending, is_orphan(docs));
    let k = first_where(pending, is_orphan(docs));
    if k < pending.len() {
        assert(is_orphan(docs)(pending[k]));
    } else {
        assert forall|j: int| 0 <= j < pending.len() implies is_visited(
            docs,
            (#[trigger] pending[j]).site,
        ) by {
            assert(!is_orphan(docs)(pending[j]));
        }
    }
}

/// The content of a document after the renders rests on those renders
/// alone that name its path: renders that name other paths may be left
/// out.
pub proof fn lemma_patched_by_own(
    content: Seq<char>,
    path: PathView,
    pending: Seq<RenderSiteView>,
    keep: spec_fn(RenderSiteView) -> bool,
)
    requires
        forall|j: int|
            0 <= j < pending.len() && (#[trigger] pending[j]).site == path ==> keep(pending[j]),
    ensures
        patched(content, path, pending.filter(keep)) == patched(content, path, pending),
    decreases pending.len(),
{
    reveal(Seq::filter);
    if pending.len() > 0 {
        let rest = pending.drop_last();
        assert forall|j: int| 0 <= j < rest.len() && (#[trigger] rest[j]).site == path implies keep(
            rest[j],
        ) by {
            assert(rest[j] == pending[j]);
        }
        lemma_patched_by_own(content, path, rest, keep);
        assert(pending.last() == pending[pending.len() - 1]);
        if keep(pending.last()) {
            assert(pending.filter(keep).drop_last() =~= rest.filter(keep));
        }
    }
}

/// A render names no path but that of its document: where no render names
/// `path`, the content stays as it is.
pub proof fn lemma_patched_by_none(content: Seq<char>, path: PathView, pending: Seq<RenderSiteView>)
    requires
        forall|j: int| 0 <= j < pending.len() ==> (#[trigger] pending[j]).site != path,
    ensures
        patched(content, path, pending) == content,
    decreases pending.len(),
{
    if pending.len() > 0 {
        let rest = pending.drop_last();
        assert forall|j: int| 0 <= j < rest.len() implies (#[trigger] rest[j]).site != path by {
            assert(rest[j] == pending[j]);
        }
        lemma_patched_by_none(content, path, rest);
        assert(pending.last() == pending[pending.len() - 1]);
    }
}

/// Every render lands once. The first document with a path takes all
/// renders that name the path, in the order given; a later document with
/// the same path stays as it is.
pub proof fn lemma_each_render_lands_once(
    docs: Seq<(Seq<char>, Seq<char>)>,
    pending: Seq<RenderSiteView>,
    i: int,
)
    requires
        0 <= i < docs.len(),
    ensures
        walk_documents(docs, pending)[i].0 == docs[i].0,
        walk_documents(docs, pending)[i].1 == if is_visited(
            docs.take(i),
            components(docs[i].0),
        ) {
            docs[i].1
        } else {
            patched(docs[i].1, components(docs[i].0), pending)
        },
{
    let earlier = docs.take(i);
    let here = components(docs[i].0);
    lemma_left_are_orphans(earlier, pending);
    let left = pending.filter(is_orphan(earlier));
    if is_visited(earlier, here) {
        assert forall|j: int| 0 <= j < left.len() implies (#[trigger] left[j]).site != here by {
            pending.lemma_filter_pred(is_orphan(earlier), j);
        }
        lemma_patched_by_none(docs[i].1, here, left);
    } else {
        lemma_patched_by_own(docs[i].1, here, pending, is_orphan(earlier));
    }
}

/// A name without a separator that does not begin with a dot is a path of
/// one component: itself.
pub proof fn lemma_single_component(name: Seq<char>)
    requires
        name.len() > 0,
        name[0] != '.',
        forall|j: int| 0 <= j < name.len() ==> name[j] != '/',
    ensures
        components(name) == seq![name],
{
    lemma_first_index(name, '/', name.len() as int);
    assert(name.take(name.len() as int) =~= name);
    assert(name != seq!['.']);
    assert(components(name) =~= seq![name]);
}

/// The renders of teachers and of tags name the documents that a run adds:
/// the paths that the names of these documents are texts of.
pub proof fn lemma_page_paths()
    ensures
        components(teachers_page()) == seq![teachers_page()],
        components(tags_page()) == seq![tags_page()],
{
    reveal_strlit("teachers.md");
    reveal_strlit("tags.md");
    lemma_single_component(teachers_page());
    lemma_single_component(tags_page());
}

/// Wrapping keeps the body: the content after a render of two texts is the
/// first text, a line feed, the content as it was, a line feed and the
/// second text, and nothing else.
pub proof fn lemma_wrap_keeps_body(body: Seq<char>, pre: Seq<char>, post: Seq<char>)
    ensures
        ({
            let text = compose(body, RenderTypeView::Both(pre, post));
            let from = pre.len() as int + 1;
            let to = from + body.len() as int;
            &&& text == pre + seq!['\n'] + body + seq!['\n'] + post
            &&& text.len() == pre.len() + body.len() + post.len() + 2
            &&& text.take(from - 1) == pre
            &&& text[from - 1] == '\n'
            &&& text.subrange(from, to) == body
            &&& text[to] == '\n'
            &&& text.skip(to + 1) == post
        }),
{
    let text = compose(body, RenderTypeView::Both(pre, post));
    let from = pre.len() as int + 1;
    let to = from + body.len() as int;
    assert(text.take(from - 1) =~= pre);
    assert(text.subrange(from, to) =~= body);
    assert(text.skip(to + 1) =~= post);
}

} // verus!
