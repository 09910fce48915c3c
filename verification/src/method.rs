//! The HTTP method of a run.

use vstd::prelude::*;

verus! {

/// The HTTP method that every request of a run uses.
#[derive(Clone, Copy, Debug, PartialEq, Eq, Structural)]
pub enum Method {
    Get,
    Post,
}

/// The lower-case form of a string, as `str::to_lowercase` produces it.
pub uninterp spec fn lowercase(s: Seq<char>) -> Seq<char>;

/// `str::to_lowercase` of the standard library. Its result depends on the
/// characters of its argument alone.
#[verifier::external_body]
fn to_lowercase(s: &str) -> (lower: String)
    ensures
        lower@ == lowercase(s@),
{
    s.to_lowercase()
}

impl Method {
    /// The method that a lower-case name selects: `post` selects `Post`,
    /// every other string selects `Get`.
    pub open spec fn of_lowercase(lower: Seq<char>) -> Method {
        if lower == "post"@ {
            Method::Post
        } else {
            Method::Get
        }
    }

    /// Selects the method that a lower-case name stands for.
    pub fn from_lowercase(lower: &str) -> (method: Method)
        ensures
            method == Method::of_lowercase(lower@),
    {
        if String::from_str(lower) == String::from_str("post") {
            Method::Post
        } else {
            Method::Get
        }
    }

    /// Selects the method that a name stands for, whatever its case.
    pub fn from_str(s: &str) -> (method: Method)
        ensures
            method == Method::of_lowercase(lowercase(s@)),
    {
        let lower = to_lowercase(s);
        Method::from_lowercase(lower.as_str())
    }
}

} // verus!
