//! What can go wrong while reading GVDB data.

use crate::util::{decimal_string, spec_decimal};
use std::string::FromUtf8Error;
use vstd::prelude::*;
use vstd::string::StringExecFns;

verus! {

/// The error of `String::from_utf8`, carried through as an opaque value.
#[verifier::external_type_specification]
#[verifier::external_body]
pub struct ExFromUtf8Error(FromUtf8Error);

/// Why a byte slice could not be taken as one fixed-size record.
#[derive(Debug, Clone, Copy, PartialEq, Eq, Structural)]
pub enum TransmuteError {
    /// The slice holds `actual` bytes where the record takes `required`.
    Guard { required: usize, actual: usize },
    /// The slice does not start at an address the record type can live at.
    Unaligned,
    /// Any other refusal.
    Incompatible,
}

/// An error that can occur while reading a GVDB file.
#[derive(Debug)]
pub enum GvdbReaderError {
    /// Key bytes are not valid UTF-8.
    Utf8(FromUtf8Error),
    /// The byte source failed: the failure's text and the file name, if known.
    Io(String, Option<String>),
    /// The variant codec rejected a payload: the codec's text.
    ZVariant(String),
    /// A pointer or index lies outside the data.
    DataOffset,
    /// Data that must be aligned is not.
    DataAlignment,
    /// The data is corrupt, without finer diagnosis.
    InvalidData,
    /// The data is corrupt, with an explanation.
    DataError(String),
    /// The item with this key does not exist.
    KeyError(String),
}

/// The mathematical content of a [`GvdbReaderError`].
pub enum GvdbReaderErrorView {
    Utf8,
    Io(Seq<char>, Option<Seq<char>>),
    ZVariant(Seq<char>),
    DataOffset,
    DataAlignment,
    InvalidData,
    DataError(Seq<char>),
    KeyError(Seq<char>),
}

impl View for GvdbReaderError {
    type V = GvdbReaderErrorView;

    open spec fn view(&self) -> GvdbReaderErrorView {
        match self {
            GvdbReaderError::Utf8(_) => GvdbReaderErrorView::Utf8,
            GvdbReaderError::Io(text, path) => GvdbReaderErrorView::Io(
                text@,
                match path {
                    Some(p) => Some(p@),
                    None => None,
                },
            ),
            GvdbReaderError::ZVariant(text) => GvdbReaderErrorView::ZVariant(text@),
            GvdbReaderError::DataOffset => GvdbReaderErrorView::DataOffset,
            GvdbReaderError::DataAlignment => GvdbReaderErrorView::DataAlignment,
            GvdbReaderError::InvalidData => GvdbReaderErrorView::InvalidData,
            GvdbReaderError::DataError(text) => GvdbReaderErrorView::DataError(text@),
            GvdbReaderError::KeyError(key) => GvdbReaderErrorView::KeyError(key@),
        }
    }
}

/// The explanation given for a record read from a slice of the wrong size.
pub open spec fn spec_size_message(required: nat, actual: nat) -> Seq<char> {
    if actual > required {
        "Found "@ + spec_decimal((actual - required) as nat)
            + " unexpected trailing bytes at the end while reading data"@
    } else {
        "Missing "@ + spec_decimal((required - actual) as nat) + " bytes to read data"@
    }
}

/// The reader's error for each way a record can fail to be taken from a slice.
pub open spec fn spec_from_transmute_error(err: TransmuteError) -> GvdbReaderErrorView {
    match err {
        TransmuteError::Guard { required, actual } => GvdbReaderErrorView::DataError(
            spec_size_message(required as nat, actual as nat),
        ),
        TransmuteError::Unaligned => GvdbReaderErrorView::DataError("Unaligned data read"@),
        TransmuteError::Incompatible => GvdbReaderErrorView::InvalidData,
    }
}

/// The text shown for an error. For `Utf8` this is only the part before the
/// text of the conversion error itself.
pub open spec fn spec_message(err: GvdbReaderErrorView) -> Seq<char> {
    match err {
        GvdbReaderErrorView::Utf8 => "Error converting string to UTF-8: "@,
        GvdbReaderErrorView::Io(text, Some(path)) => "I/O error while reading file '"@ + path
            + "': "@ + text,
        GvdbReaderErrorView::Io(text, None) => "I/O error: "@ + text,
        GvdbReaderErrorView::ZVariant(text) => "Error parsing ZVariant data: "@ + text,
        GvdbReaderErrorView::DataOffset =>
            "Tried to access an invalid data offset. Most likely reason is a corrupted GVDB file"@,
        GvdbReaderErrorView::DataAlignment =>
            "Tried to read unaligned data. Most likely reason is a corrupted GVDB file"@,
        GvdbReaderErrorView::InvalidData =>
            "Unexpected data. Most likely reason is a corrupted GVDB file"@,
        GvdbReaderErrorView::DataError(text) =>
            "A data inconsistency error occured while reading gvdb file: "@ + text,
        GvdbReaderErrorView::KeyError(key) => "The item with the key '"@ + key
            + "' does not exist"@,
    }
}

/// `ToString::to_string` of the conversion error. Nothing is claimed of the
/// text, which is the standard library's to choose.
#[verifier::external_body]
fn utf8_error_text(err: &FromUtf8Error) -> (text: String) {
    err.to_string()
}

impl GvdbReaderError {
    /// The error for a record that could not be taken from a byte slice.
    pub fn from_transmute_error(err: TransmuteError) -> (e: GvdbReaderError)
        ensures
            e@ == spec_from_transmute_error(err),
    {
        match err {
            TransmuteError::Guard { required, actual } => {
                if actual > required {
                    let mut text = String::from_str("Found ");
                    text.append(decimal_string(actual - required).as_str());
                    text.append(" unexpected trailing bytes at the end while reading data");
                    GvdbReaderError::DataError(text)
                } else {
                    let mut text = String::from_str("Missing ");
                    text.append(decimal_string(required - actual).as_str());
                    text.append(" bytes to read data");
                    GvdbReaderError::DataError(text)
                }
            },
            TransmuteError::Unaligned => GvdbReaderError::DataError(
                String::from_str("Unaligned data read"),
            ),
            TransmuteError::Incompatible => GvdbReaderError::InvalidData,
        }
    }

    /// The text shown for this error.
    pub fn message(&self) -> (text: String)
        ensures
            !(self is Utf8) ==> text@ == spec_message(self@),
            self is Utf8 ==> exists|tail: Seq<char>| text@ == spec_message(self@) + tail,
    {
        match self {
            GvdbReaderError::Utf8(err) => {
                let mut text = String::from_str("Error converting string to UTF-8: ");
                let tail = utf8_error_text(err);
                text.append(tail.as_str());
                proof {
                    assert(text@ == spec_message(self@) + tail@);
                }
                text
            },
            GvdbReaderError::Io(err, Some(path)) => {
                let mut text = String::from_str("I/O error while reading file '");
                text.append(path.as_str());
                text.append("': ");
                text.append(err.as_str());
                text
            },
            GvdbReaderError::Io(err, None) => {
                let mut text = String::from_str("I/O error: ");
                text.append(err.as_str());
                text
            },
            GvdbReaderError::ZVariant(err) => {
                let mut text = String::from_str("Error parsing ZVariant data: ");
                text.append(err.as_str());
                text
            },
            GvdbReaderError::DataOffset => String::from_str(
                "Tried to access an invalid data offset. Most likely reason is a corrupted GVDB file",
            ),
            GvdbReaderError::DataAlignment => String::from_str(
                "Tried to read unaligned data. Most likely reason is a corrupted GVDB file",
            ),
            GvdbReaderError::InvalidData => String::from_str(
                "Unexpected data. Most likely reason is a corrupted GVDB file",
            ),
            GvdbReaderError::DataError(msg) => {
                let mut text = String::from_str(
                    "A data inconsistency error occured while reading gvdb file: ",
                );
                text.append(msg.as_str());
                text
            },
            GvdbReaderError::KeyError(key) => {
                let mut text = String::from_str("The item with the key '");
                text.append(key.as_str());
                text.append("' does not exist");
                text
            },
        }
    }
}

/// The result of a read.
pub type GvdbReaderResult<T> = Result<T, GvdbReaderError>;

} // verus!
