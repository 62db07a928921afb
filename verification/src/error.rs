//! Errors with the exit code of the program.

use vstd::prelude::*;

verus! {

pub const EXIT_ARGS: i32 = 2;

pub const EXIT_CONFIG: i32 = 3;

pub const EXIT_AUTH: i32 = 4;

pub const EXIT_NETWORK: i32 = 5;

pub const EXIT_RATE_LIMIT: i32 = 6;

pub const EXIT_PROVIDER: i32 = 7;

pub const EXIT_MODEL: i32 = 8;

pub const EXIT_SESSION: i32 = 10;

#[derive(Debug)]
pub struct AppError {
    pub code: i32,
    pub message: String,
}

pub type AppResult<T> = Result<T, AppError>;

/// What an error says.
pub struct Failure {
    pub code: i32,
    pub message: Seq<char>,
}

impl View for AppError {
    type V = Failure;

    open spec fn view(&self) -> Failure {
        Failure { code: self.code, message: self.message@ }
    }
}

pub open spec fn failure(code: i32, message: Seq<char>) -> Failure {
    Failure { code, message }
}

impl AppError {
    pub fn new(code: i32, message: &str) -> (r: AppError)
        ensures
            r@ == failure(code, message@),
    {
        AppError { code, message: message.to_owned() }
    }
}

/// Gives an outcome without an exit code one.
pub trait ResultCodeExt<T> {
    fn code(self, code: i32, context: &str) -> AppResult<T>;
}

impl<T> ResultCodeExt<T> for Result<T, String> {
    fn code(self, code: i32, context: &str) -> (r: AppResult<T>)
        ensures
            match self {
                Ok(v) => r == Ok::<T, AppError>(v),
                Err(text) => r matches Err(e) && e@ == failure(code, context@ + ": "@ + text@),
            },
    {
        match self {
            Ok(v) => Ok(v),
            Err(text) => {
                let message = context.to_owned().concat(": ").concat(text.as_str());
                Err(AppError::new(code, message.as_str()))
            },
        }
    }
}

} // verus!
