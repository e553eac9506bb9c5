//! What can go wrong while a program is loaded or run.
use vstd::prelude::*;

verus! {

/// A failure of an agent or of a request to the supervisor.
#[derive(Debug)]
pub enum Error {
    /// The program text is malformed.
    Parse(String),
    /// Reading a file, a socket or starting a process failed.
    IO(String),
    /// A script ended with a code other than zero; holds the code and what
    /// the script wrote to its error stream.
    Exec(i32, String),
    /// The library was driven in a way that its rules exclude.
    Runtime(String),
}

/// The mathematical value of an [`Error`].
pub enum ErrorView {
    Parse(Seq<char>),
    IO(Seq<char>),
    Exec(i32, Seq<char>),
    Runtime(Seq<char>),
}

impl View for Error {
    type V = ErrorView;

    open spec fn view(&self) -> ErrorView {
        match self {
            Error::Parse(s) => ErrorView::Parse(s@),
            Error::IO(s) => ErrorView::IO(s@),
            Error::Exec(code, s) => ErrorView::Exec(*code, s@),
            Error::Runtime(s) => ErrorView::Runtime(s@),
        }
    }
}

impl Clone for Error {
    fn clone(&self) -> (r: Error)
        ensures
            r@ == self@,
    {
        match self {
            Error::Parse(s) => Error::Parse(s.clone()),
            Error::IO(s) => Error::IO(s.clone()),
            Error::Exec(code, s) => Error::Exec(*code, s.clone()),
            Error::Runtime(s) => Error::Runtime(s.clone()),
        }
    }
}

impl Error {
    /// The text that comes with the error.
    pub fn message(&self) -> (s: &String)
        ensures
            s@ == match self@ {
                ErrorView::Parse(m) => m,
                ErrorView::IO(m) => m,
                ErrorView::Exec(_, m) => m,
                ErrorView::Runtime(m) => m,
            },
    {
        match self {
            Error::Parse(s) => s,
            Error::IO(s) => s,
            Error::Exec(_, s) => s,
            Error::Runtime(s) => s,
        }
    }
}

} // verus!
