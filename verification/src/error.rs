//! Error types.

use vstd::prelude::*;

verus! {

/// What went wrong, with a message for the reader.
#[derive(Debug, Clone, PartialEq, Eq)]
pub enum Error {
    Config(String),
    Training(String),
    Dataset(String),
    Evaluation(String),
    Process(String),
}

/// The kind of an error and the text of its message.
pub enum ErrorView {
    Config(Seq<char>),
    Training(Seq<char>),
    Dataset(Seq<char>),
    Evaluation(Seq<char>),
    Process(Seq<char>),
}

impl View for Error {
    type V = ErrorView;

    open spec fn view(&self) -> ErrorView {
        match self {
            Error::Config(m) => ErrorView::Config(m@),
            Error::Training(m) => ErrorView::Training(m@),
            Error::Dataset(m) => ErrorView::Dataset(m@),
            Error::Evaluation(m) => ErrorView::Evaluation(m@),
            Error::Process(m) => ErrorView::Process(m@),
        }
    }
}

impl ErrorView {
    pub open spec fn message(self) -> Seq<char> {
        match self {
            ErrorView::Config(m) => m,
            ErrorView::Training(m) => m,
            ErrorView::Dataset(m) => m,
            ErrorView::Evaluation(m) => m,
            ErrorView::Process(m) => m,
        }
    }
}

impl Error {
    pub fn config(msg: &str) -> (r: Error)
        ensures
            r@ == ErrorView::Config(msg@),
    {
        Error::Config(msg.to_owned())
    }

    pub fn training(msg: &str) -> (r: Error)
        ensures
            r@ == ErrorView::Training(msg@),
    {
        Error::Training(msg.to_owned())
    }

    pub fn dataset(msg: &str) -> (r: Error)
        ensures
            r@ == ErrorView::Dataset(msg@),
    {
        Error::Dataset(msg.to_owned())
    }

    pub fn evaluation(msg: &str) -> (r: Error)
        ensures
            r@ == ErrorView::Evaluation(msg@),
    {
        Error::Evaluation(msg.to_owned())
    }

    pub fn process(msg: &str) -> (r: Error)
        ensures
            r@ == ErrorView::Process(msg@),
    {
        Error::Process(msg.to_owned())
    }

    /// The text that is shown for this error.
    pub fn message(&self) -> (r: &str)
        ensures
            r@ == self@.message(),
    {
        match self {
            Error::Config(m) => m.as_str(),
            Error::Training(m) => m.as_str(),
            Error::Dataset(m) => m.as_str(),
            Error::Evaluation(m) => m.as_str(),
            Error::Process(m) => m.as_str(),
        }
    }
}

pub type Result<T> = std::result::Result<T, Error>;

} // verus!
