//! The library's error type.
use vstd::prelude::*;

verus! {

/// What went wrong, as text a person can act on.
#[derive(Debug, Clone, PartialEq, Eq)]
pub enum Error {
    /// A failure described by its message.
    Other(String),
    /// A project-relative path that would leave the project.
    PathOutsideProject(String),
}

/// How an [`Error::PathOutsideProject`] reads.
pub const OUTSIDE_PROJECT: &'static str = "path is outside the project: ";

impl Error {
    /// The message.
    pub fn message(&self) -> (r: String)
        ensures
            match self {
                Error::Other(m) => r@ == m@,
                Error::PathOutsideProject(p) => r@ == OUTSIDE_PROJECT@ + p@,
            },
    {
        match self {
            Error::Other(m) => m.clone(),
            Error::PathOutsideProject(p) => {
                let mut s = crate::text::str_of_lit(OUTSIDE_PROJECT);
                crate::text::append(&mut s, p.as_str());
                s
            },
        }
    }
}

} // verus!
