//! Errors and command results.
use vstd::prelude::*;

verus! {

/// An error with a message for the user.
#[derive(Debug, Clone, PartialEq, Eq)]
pub struct AppError {
    pub message: String,
}

impl View for AppError {
    type V = Seq<char>;

    open spec fn view(&self) -> Seq<char> {
        self.message@
    }
}

impl AppError {
    /// The error that says `text`.
    pub fn message(text: &str) -> (r: AppError)
        ensures
            r@ == text@,
    {
        AppError { message: text.to_owned() }
    }
}

/// What a command answers.
#[derive(Debug, Clone, PartialEq, Eq)]
pub enum ApiResult<T> {
    Success(T),
    Failure(AppError),
}

impl<T> ApiResult<T> {
    /// The answer of a command that succeeded.
    pub fn ok(value: T) -> (r: ApiResult<T>)
        ensures
            r == ApiResult::Success(value),
    {
        ApiResult::Success(value)
    }

    /// The answer of a command that failed.
    pub fn err(error: AppError) -> (r: ApiResult<T>)
        ensures
            r == ApiResult::<T>::Failure(error),
    {
        ApiResult::Failure(error)
    }
}

/// The answer of a command that ran to `outcome`.
pub fn answer<T>(outcome: Result<T, AppError>) -> (r: ApiResult<T>)
    ensures
        match outcome {
            Ok(value) => r == ApiResult::Success(value),
            Err(error) => r == ApiResult::<T>::Failure(error),
        },
{
    match outcome {
        Ok(value) => ApiResult::ok(value),
        Err(error) => ApiResult::err(error),
    }
}

/// The characters of a fallible string, and of the message in place of it.
pub open spec fn outcome_text(r: Result<String, AppError>) -> Result<Seq<char>, Seq<char>> {
    match r {
        Ok(s) => Ok(s@),
        Err(e) => Err(e@),
    }
}

} // verus!
