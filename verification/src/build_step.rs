//! Errors a build step can report while scanning manifest data. Both are
//! fatal for the whole recipe: there is no retry and no partial success.

use vstd::prelude::*;

verus! {

/// A configuration-incompatibility error, naming the offending data.
#[derive(Debug)]
pub enum StepError {
    /// A leaf under a selected section is not a string; holds the package
    /// name and a rendering of the offending leaf value.
    WrongVersion(String, String),
    /// A selected section is present but not a mapping; holds the section
    /// key.
    NotMapping(String),
}

/// Mathematical view of a step error.
pub enum StepErrorV {
    WrongVersion(Seq<char>, Seq<char>),
    NotMapping(Seq<char>),
}

impl View for StepError {
    type V = StepErrorV;

    open spec fn view(&self) -> StepErrorV {
        match self {
            StepError::WrongVersion(k, v) => StepErrorV::WrongVersion(k@, v@),
            StepError::NotMapping(k) => StepErrorV::NotMapping(k@),
        }
    }
}

/// The human-readable message of an error.
pub open spec fn describe_spec(e: StepErrorV) -> Seq<char> {
    match e {
        StepErrorV::WrongVersion(k, v) => "Package "@ + k + " has wrong version "@ + v,
        StepErrorV::NotMapping(k) => "The "@ + k + " is not a mapping (JSON object)"@,
    }
}

impl StepError {
    /// Renders the error for diagnostics, naming the offending key and,
    /// for a wrong version, the offending value.
    pub fn describe(&self) -> (r: String)
        ensures
            r@ == describe_spec(self@),
    {
        let mut r = String::new();
        match self {
            StepError::WrongVersion(k, v) => {
                r.append("Package ");
                r.append(k.as_str());
                r.append(" has wrong version ");
                r.append(v.as_str());
            },
            StepError::NotMapping(k) => {
                r.append("The ");
                r.append(k.as_str());
                r.append(" is not a mapping (JSON object)");
            },
        }
        r
    }
}

} // verus!
