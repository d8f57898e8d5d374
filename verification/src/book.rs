//! The book: the tree of documents that a run reads and patches.
//!
//! The book is `mdbook`'s. What this library reads of it is the sequence of
//! its chapters, each with the text of its path and its content. A
//! [`Document`] holds the same of one chapter as plain texts.

use crate::render::{walk_documents, walk_pending, RenderWalk};
use mdbook::book::{Book, BookItem, Chapter};
use vstd::prelude::*;

verus! {

/// `mdbook::book::Book`, the tree of the chapters of a book. Nothing is
/// read of a book but through [`book_documents`].
#[verifier::external_type_specification]
#[verifier::external_body]
pub struct ExBook(Book);

/// A document: the text of its path and its content.
#[derive(Debug)]
pub struct Document {
    /// The text of the path.
    pub path: String,
    /// The content.
    pub content: String,
}

impl DeepView for Document {
    type V = (Seq<char>, Seq<char>);

    open spec fn deep_view(&self) -> (Seq<char>, Seq<char>) {
        (self.path@, self.content@)
    }
}

impl View for Document {
    type V = (Seq<char>, Seq<char>);

    open spec fn view(&self) -> (Seq<char>, Seq<char>) {
        self.deep_view()
    }
}

/// The documents of a book: its chapters, each as the text of its path, as
/// `Path::to_string_lossy` gives it, and its content, in the order in which
/// `Book::for_each_mut` visits them (the chapters nested in a chapter before
/// that chapter). Separators are no documents.
pub uninterp spec fn book_documents(book: Book) -> Seq<(Seq<char>, Seq<char>)>;

/// Walks the book with `Book::for_each_mut`, which calls its closure once on
/// each item, in the order of [`book_documents`]. The closure hands each
/// chapter to [`RenderWalk::visit`] and stores what it gives as the chapter's
/// content; nothing else of the book changes.
#[verifier::external_body]
pub(crate) fn walk_book(book: &mut Book, walk: &mut RenderWalk)
    ensures
        book_documents(*final(book)) == walk_documents(
            book_documents(*old(book)),
            old(walk).pending.deep_view(),
        ),
        final(walk).pending.deep_view() == walk_pending(
            book_documents(*old(book)),
            old(walk).pending.deep_view(),
        ),
{
    book.for_each_mut(
        |item| {
            if let BookItem::Chapter(chapter) = item {
                chapter.content = walk.visit(&chapter.path.to_string_lossy(), &chapter.content);
            }
        },
    );
}

/// Appends a chapter without nested items to the book, with `Chapter::new`
/// and `Book::push_item`. The chapter becomes the last document.
#[verifier::external_body]
pub(crate) fn push_document(book: &mut Book, name: &str, content: String, path: String)
    ensures
        book_documents(*final(book)) == book_documents(*old(book)).push((path@, content@)),
{
    book.push_item(BookItem::Chapter(Chapter::new(name, content, path, vec![])));
}

} // verus!
