//! Study materials as a book: teachers, subjects and articles are read from
//! the headers of the documents of a book, woven together, and shown in the
//! documents again.
//!
//! [`scan`], [`resolve`], [`graph`] and [`cat_context`] build the context
//! of a run; [`render`] puts the rendered texts into the documents.

pub mod book;
pub mod cat_context;
pub mod error;
pub mod graph;
pub mod models;
pub mod path;
pub mod render;
pub mod resolve;
pub mod scan;
pub mod search;
pub mod sorting;
pub mod tags;
pub mod text;

use crate::book::book_documents;
use crate::cat_context::CatContext;
use crate::error::{CatError, CatErrorView};
use crate::render::{
    batch_outcomes, create_renders, execute_renders, is_failure, orphan, placeholders, render_of,
    walk_documents, walk_pending, RenderBatch, RenderSiteView,
};
use crate::search::first_where;
use mdbook::book::Book;
use vstd::prelude::*;

verus! {

/// The preprocessor. It keeps nothing between runs.
#[derive(Debug)]
pub struct Cat;

/// The name by which the preprocessor is known.
pub open spec fn cat_name() -> Seq<char> {
    "cat-preprocessor"@
}

/// The one name of a renderer that the preprocessor does not work for.
pub open spec fn unsupported_renderer() -> Seq<char> {
    "not-supported"@
}

impl Cat {
    /// The preprocessor.
    pub fn new() -> (cat: Cat)
        ensures
            cat == Cat,
    {
        Cat
    }

    /// The name by which the preprocessor is known.
    pub fn name(&self) -> (name: &'static str)
        ensures
            name@ == cat_name(),
    {
        "cat-preprocessor"
    }

    /// Whether the preprocessor works for the renderer of that name: for
    /// every one but [`unsupported_renderer`].
    pub fn supports_renderer(&self, renderer: &str) -> (yes: bool)
        ensures
            yes == (renderer@ != unsupported_renderer()),
    {
        String::from_str(renderer) != String::from_str("not-supported")
    }

    /// The last part of a run, once the context is built and the templates
    /// are rendered: gathers the renders and adds the documents for teachers
    /// and tags, see [`create_renders`], then puts the renders into the
    /// documents, see [`execute_renders`]. Where the batch holds an error the
    /// run fails with the first, and the book stays as it is.
    pub fn run(&self, context: &CatContext, book: &mut Book, batch: RenderBatch) -> (end: Result<
        (),
        CatError,
    >)
        ensures
            ({
                let outs = batch_outcomes(batch);
                let k = first_where(
                    outs,
                    |o: Result<RenderSiteView, CatErrorView>| is_failure(o),
                );
                if 0 <= k < outs.len() {
                    end matches Err(e) && outs[k] == Err::<RenderSiteView, CatErrorView>(e@)
                        && book_documents(*final(book)) == book_documents(*old(book))
                } else {
                    let renders = outs.map_values(
                        |o: Result<RenderSiteView, CatErrorView>| render_of(o),
                    );
                    let docs = book_documents(*old(book)) + placeholders(
                        context.teacher_cards.len() > 0,
                        context.tags.len() > 0,
                    );
                    let left = walk_pending(docs, renders);
                    book_documents(*final(book)) == walk_documents(docs, renders) && match end {
                        Ok(()) => left.len() == 0,
                        Err(e) => left.len() > 0 && e@ == orphan(left[0]),
                    }
                }
            }),
    {
        let renders = match create_renders(context, book, batch) {
            Ok(renders) => renders,
            Err(e) => {
                proof {
                    crate::search::lemma_first_where_bounds(
                        batch_outcomes(batch),
                        |o: Result<RenderSiteView, CatErrorView>| is_failure(o),
                    );
                }
                return Err(e);
            },
        };
        execute_renders(renders, book)
    }
}

} // verus!
