//! The errors that the library reports.

use vstd::prelude::*;
use crate::text::join2;

verus! {

/// Why a request, a file or a configuration was refused.
#[derive(Debug)]
pub enum Error {
    /// Refused, with an explanation.
    Msg(String),
    /// The combination asked for cannot be served; the text says what to use in its place.
    Unsupported(String),
    /// A tensor that the model needs is not among the weights.
    MissingTensor(String),
    /// The caller asked to stop.
    Canceled,
}

impl Error {
    /// The explanation that the error carries.
    pub open spec fn text(self) -> Seq<char> {
        match self {
            Error::Msg(m) => m@,
            Error::Unsupported(m) => m@,
            Error::MissingTensor(k) => "missing tensor: "@ + k@,
            Error::Canceled => "canceled"@,
        }
    }

    /// The explanation, for display.
    pub fn message(&self) -> (r: String)
        ensures
            r@ == self.text(),
    {
        match self {
            Error::Msg(m) => m.clone(),
            Error::Unsupported(m) => m.clone(),
            Error::MissingTensor(k) => join2("missing tensor: ", k.as_str()),
            Error::Canceled => "canceled".to_owned(),
        }
    }
}

} // verus!
