//! Errors of the local store.

use vstd::prelude::*;

verus! {

/// Why the store could not do what it was asked.
#[derive(Debug)]
pub enum StorageError {
    /// The database refuses a change, with its message: a value that must be unique
    /// is in use already, or no number is left for a new row.
    Sqlite(String),
    Io(String),
    Serialize(String),
    PolicyRejected(String),
    WriterStopped,
    NotFound,
    MissingBlob(String),
}

/// A [`StorageError`] with its text as a character sequence.
pub enum StorageErrorView {
    Sqlite(Seq<char>),
    Io(Seq<char>),
    Serialize(Seq<char>),
    PolicyRejected(Seq<char>),
    WriterStopped,
    NotFound,
    MissingBlob(Seq<char>),
}

impl View for StorageError {
    type V = StorageErrorView;

    open spec fn view(&self) -> StorageErrorView {
        match *self {
            StorageError::Sqlite(s) => StorageErrorView::Sqlite(s@),
            StorageError::Io(s) => StorageErrorView::Io(s@),
            StorageError::Serialize(s) => StorageErrorView::Serialize(s@),
            StorageError::PolicyRejected(s) => StorageErrorView::PolicyRejected(s@),
            StorageError::WriterStopped => StorageErrorView::WriterStopped,
            StorageError::NotFound => StorageErrorView::NotFound,
            StorageError::MissingBlob(s) => StorageErrorView::MissingBlob(s@),
        }
    }
}

} // verus!
