//! The errors of the library.

use crate::render::{RenderType, RenderTypeView};
use vstd::prelude::*;

verus! {

/// What a [`CatError`] holds, as plain texts.
pub enum CatErrorView {
    NoTeacherFolder,
    TeachersArentFolder,
    InvalidTeacherCard { name: Seq<char>, err: Seq<char> },
    InvalidOrMissingHeader,
    InvalidHeaderFormat { err: Seq<char> },
    CommandFailed { name: Seq<char>, status: i32, error: Seq<char> },
    NotARepo { error: Seq<char> },
    TinyError { error: Seq<char> },
    OrphanRender { site: Seq<char>, render: RenderTypeView },
    OtherError { msg: Seq<char> },
}

/// Why a run failed.
#[derive(Debug)]
pub enum CatError {
    /// There is no teachers folder.
    NoTeacherFolder,
    /// What is named like the teachers folder is a file.
    TeachersArentFolder,
    /// A file of the teachers folder does not hold a teacher's card.
    InvalidTeacherCard {
        /// The name of the file.
        name: String,
        /// What the parser said.
        err: String,
    },
    /// A document has no header: no line closes one.
    InvalidOrMissingHeader,
    /// The header of a document does not hold the card that is asked of it.
    InvalidHeaderFormat {
        /// What the parser said.
        err: String,
    },
    /// A command ended with a status other than zero.
    CommandFailed {
        /// The name of the program.
        name: String,
        /// The status it ended with.
        status: i32,
        /// What it wrote to its error stream.
        error: String,
    },
    /// The run is not inside the work tree of a repository.
    NotARepo {
        /// What the command that was asked wrote to its error stream.
        error: String,
    },
    /// The template engine failed.
    TinyError {
        /// What the engine said.
        error: String,
    },
    /// A render was left over: no document has the path that it names.
    OrphanRender {
        /// The path that the render names.
        site: String,
        /// The render.
        render: RenderType,
    },
    /// Another error, for users of the library.
    OtherError {
        /// Its text.
        msg: String,
    },
}

impl DeepView for CatError {
    type V = CatErrorView;

    open spec fn deep_view(&self) -> CatErrorView {
        match self {
            CatError::NoTeacherFolder => CatErrorView::NoTeacherFolder,
            CatError::TeachersArentFolder => CatErrorView::TeachersArentFolder,
            CatError::InvalidTeacherCard { name, err } => CatErrorView::InvalidTeacherCard {
                name: name@,
                err: err@,
            },
            CatError::InvalidOrMissingHeader => CatErrorView::InvalidOrMissingHeader,
            CatError::InvalidHeaderFormat { err } => CatErrorView::InvalidHeaderFormat {
                err: err@,
            },
            CatError::CommandFailed { name, status, error } => CatErrorView::CommandFailed {
                name: name@,
                status: *status,
                error: error@,
            },
            CatError::NotARepo { error } => CatErrorView::NotARepo { error: error@ },
            CatError::TinyError { error } => CatErrorView::TinyError { error: error@ },
            CatError::OrphanRender { site, render } => CatErrorView::OrphanRender {
                site: site@,
                render: render@,
            },
            CatError::OtherError { msg } => CatErrorView::OtherError { msg: msg@ },
        }
    }
}

impl View for CatError {
    type V = CatErrorView;

    open spec fn view(&self) -> CatErrorView {
        self.deep_view()
    }
}

impl Clone for CatError {
    fn clone(&self) -> (copy: Self)
        ensures
            copy@ == self@,
    {
        match self {
            CatError::NoTeacherFolder => CatError::NoTeacherFolder,
            CatError::TeachersArentFolder => CatError::TeachersArentFolder,
            CatError::InvalidTeacherCard { name, err } => CatError::InvalidTeacherCard {
                name: name.clone(),
                err: err.clone(),
            },
            CatError::InvalidOrMissingHeader => CatError::InvalidOrMissingHeader,
            CatError::InvalidHeaderFormat { err } => CatError::InvalidHeaderFormat {
                err: err.clone(),
            },
            CatError::CommandFailed { name, status, error } => CatError::CommandFailed {
                name: name.clone(),
                status: *status,
                error: error.clone(),
            },
            CatError::NotARepo { error } => CatError::NotARepo { error: error.clone() },
            CatError::TinyError { error } => CatError::TinyError { error: error.clone() },
            CatError::OrphanRender { site, render } => CatError::OrphanRender {
                site: site.clone(),
                render: render.clone(),
            },
            CatError::OtherError { msg } => CatError::OtherError { msg: msg.clone() },
        }
    }
}

} // verus!
