use vstd::prelude::*;

verus! {

/// The errors the tracker reports. Each carries a human-readable message.
#[derive(Debug, Clone, PartialEq, Eq)]
pub enum AppError {
    /// The location of the data file could not be prepared.
    Config(String),
    /// The document could not be serialized.
    Json(String),
    /// The data file could not be read or written.
    Io(String),
    /// A date argument that is neither a keyword nor a calendar date.
    InvalidDate(String),
    /// An exercise name that the tracker does not know.
    InvalidExercise(String),
}

impl AppError {
    /// The message shown to the user: a prefix naming the kind of error,
    /// followed by the carried detail.
    pub fn message(&self) -> (r: String)
        ensures
            r@ == self.message_spec(),
    {
        let (prefix, detail) = match self {
            AppError::Config(s) => ("Configuration error: ", s),
            AppError::Json(s) => ("JSON parsing error: ", s),
            AppError::Io(s) => ("IO error: ", s),
            AppError::InvalidDate(s) => ("Invalid date format: ", s),
            AppError::InvalidExercise(s) => ("Invalid exercise type: ", s),
        };
        let mut r = prefix.to_owned();
        r.append(detail.as_str());
        r
    }

    pub open spec fn message_spec(&self) -> Seq<char> {
        match self {
            AppError::Config(s) => "Configuration error: "@ + s@,
            AppError::Json(s) => "JSON parsing error: "@ + s@,
            AppError::Io(s) => "IO error: "@ + s@,
            AppError::InvalidDate(s) => "Invalid date format: "@ + s@,
            AppError::InvalidExercise(s) => "Invalid exercise type: "@ + s@,
        }
    }
}

impl From<String> for AppError {
    /// A bare message is a configuration error.
    fn from(s: String) -> (r: AppError)
        ensures
            r == AppError::Config(s),
    {
        AppError::Config(s)
    }
}

impl vstd::std_specs::convert::FromSpecImpl<String> for AppError {
    open spec fn obeys_from_spec() -> bool {
        true
    }

    open spec fn from_spec(s: String) -> AppError {
        AppError::Config(s)
    }
}

} // verus!
