//! What can go wrong while writing a GVDB file.

use vstd::prelude::*;

verus! {

/// An error that can occur while writing a GVDB file.
#[derive(Debug)]
pub enum GvdbWriterError {
    /// The byte sink failed: the failure's text and the file name, if known.
    Io(String, Option<String>),
    /// The table cannot be stored in a file.
    Consistency(String),
    /// The variant codec rejected a value: the codec's text.
    ZVariant(String),
}

/// The mathematical content of a [`GvdbWriterError`].
pub enum GvdbWriterErrorView {
    Io(Seq<char>, Option<Seq<char>>),
    Consistency(Seq<char>),
    ZVariant(Seq<char>),
}

impl View for GvdbWriterError {
    type V = GvdbWriterErrorView;

    open spec fn view(&self) -> GvdbWriterErrorView {
        match self {
            GvdbWriterError::Io(text, path) => GvdbWriterErrorView::Io(
                text@,
                match path {
                    Some(p) => Some(p@),
                    None => None,
                },
            ),
            GvdbWriterError::Consistency(text) => GvdbWriterErrorView::Consistency(text@),
            GvdbWriterError::ZVariant(text) => GvdbWriterErrorView::ZVariant(text@),
        }
    }
}

/// The result of a write.
pub type GvdbWriterResult<T> = Result<T, GvdbWriterError>;

} // verus!
