use vstd::prelude::*;

verus! {

/// The error taxonomy shared across graph construction, artifact handling
/// and orchestration. Each layer converts lower-level failures into one of
/// these; nothing is retried.
#[derive(Debug, PartialEq, Eq)]
pub enum ApplicationError {
    /// An operation exited unsuccessfully.
    Build,
    /// A final target was requested that no job produces.
    DefaultOutputNotFound,
    /// An operation's input slots disagree with what it received.
    WrongInputs(String),
    /// An operation's output slots disagree with what it received.
    WrongOutputs(String),
    /// Graph construction detected a structural problem in the recipe.
    InvalidRecipe(String),
    /// Wraps I/O failures, process launch failures and the like.
    Other(String),
    /// An artifact's lock holder panicked.
    MutexPoisoned,
    /// A font file could not be parsed.
    FontReadError(String),
}

impl Clone for ApplicationError {
    fn clone(&self) -> (r: Self)
        ensures
            r == *self,
    {
        match self {
            ApplicationError::Build => ApplicationError::Build,
            ApplicationError::DefaultOutputNotFound => ApplicationError::DefaultOutputNotFound,
            ApplicationError::WrongInputs(s) => ApplicationError::WrongInputs(s.clone()),
            ApplicationError::WrongOutputs(s) => ApplicationError::WrongOutputs(s.clone()),
            ApplicationError::InvalidRecipe(s) => ApplicationError::InvalidRecipe(s.clone()),
            ApplicationError::Other(s) => ApplicationError::Other(s.clone()),
            ApplicationError::MutexPoisoned => ApplicationError::MutexPoisoned,
            ApplicationError::FontReadError(s) => ApplicationError::FontReadError(s.clone()),
        }
    }
}

impl ApplicationError {
    /// The human-readable message for this error, one line.
    pub open spec fn spec_message(self) -> Seq<char> {
        match self {
            ApplicationError::Build => "build failed"@,
            ApplicationError::DefaultOutputNotFound => "default output not found"@,
            ApplicationError::WrongInputs(s) => "Inputs provided to operation are not correct: "@
                + s@,
            ApplicationError::WrongOutputs(s) => "Outputs provided to operation are not correct: "@
                + s@,
            ApplicationError::InvalidRecipe(s) => "Recipe is not valid: "@ + s@,
            ApplicationError::Other(s) => s@,
            ApplicationError::MutexPoisoned => "Mutex was poisoned"@,
            ApplicationError::FontReadError(s) => "Font read error: "@ + s@,
        }
    }

    /// Render the error as its message text.
    pub fn message(&self) -> (r: String)
        ensures
            r@ == self.spec_message(),
    {
        match self {
            ApplicationError::Build => String::from_str("build failed"),
            ApplicationError::DefaultOutputNotFound => String::from_str(
                "default output not found",
            ),
            ApplicationError::WrongInputs(s) => String::from_str(
                "Inputs provided to operation are not correct: ",
            ).concat(s.as_str()),
            ApplicationError::WrongOutputs(s) => String::from_str(
                "Outputs provided to operation are not correct: ",
            ).concat(s.as_str()),
            ApplicationError::InvalidRecipe(s) => String::from_str(
                "Recipe is not valid: ",
            ).concat(s.as_str()),
            ApplicationError::Other(s) => s.clone(),
            ApplicationError::MutexPoisoned => String::from_str("Mutex was poisoned"),
            ApplicationError::FontReadError(s) => String::from_str(
                "Font read error: ",
            ).concat(s.as_str()),
        }
    }
}

} // verus!
