//! The errors that the planning rules report.
use vstd::prelude::*;

verus! {

/// An input that the planner refuses, with the message that says why.
#[derive(Clone, Debug, PartialEq, Eq)]
pub enum ArcaneError {
    ConfigValidation(String),
    CategoryValidation(String),
}

/// The text of an error, as the planner prints it.
pub open spec fn error_text(e: ArcaneError) -> Seq<char> {
    match e {
        ArcaneError::ConfigValidation(m) => "Configuration validation failed: "@ + m@,
        ArcaneError::CategoryValidation(m) => "Category validation failed: "@ + m@,
    }
}

/// `r` is the outcome that `s` describes: the same value, or a category
/// validation error with the message of `s`.
pub open spec fn agrees<T>(r: Result<T, ArcaneError>, s: Result<T, Seq<char>>) -> bool {
    match (r, s) {
        (Ok(a), Ok(b)) => a == b,
        (Err(ArcaneError::CategoryValidation(m)), Err(n)) => m@ == n,
        _ => false,
    }
}

/// `r` fails exactly as `s` does, whatever it holds on success.
pub open spec fn fails_as<T, U>(r: Result<T, ArcaneError>, s: Result<U, Seq<char>>) -> bool {
    match (r, s) {
        (Ok(_), Ok(_)) => true,
        (Err(ArcaneError::CategoryValidation(m)), Err(n)) => m@ == n,
        _ => false,
    }
}

impl ArcaneError {
    /// The text of the error, as the planner prints it.
    pub fn to_text(&self) -> (r: String)
        ensures
            r@ == error_text(*self),
    {
        match self {
            ArcaneError::ConfigValidation(m) => {
                let mut r = String::from_str("Configuration validation failed: ");
                r.append(m.as_str());
                r
            },
            ArcaneError::CategoryValidation(m) => {
                let mut r = String::from_str("Category validation failed: ");
                r.append(m.as_str());
                r
            },
        }
    }
}

} // verus!
