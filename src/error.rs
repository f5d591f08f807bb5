//! The errors of the library, by the category that decides the exit code.
use vstd::prelude::*;

verus! {

/// The failure categories surfaced to the caller, each carrying its message.
#[derive(Debug)]
pub enum AppError {
    /// Bad or missing arguments, an unknown target, a conflict, a refused removal.
    User(String),
    /// A configuration that cannot be read or understood.
    Config(String),
    /// A failed backend command.
    Git(String),
    /// Anything else, filesystem failures included.
    Internal(String),
}

impl AppError {
    /// Process exit code for the category of this error.
    pub open spec fn spec_exit_code(&self) -> u8 {
        match self {
            AppError::User(_) => 1,
            AppError::Config(_) => 2,
            AppError::Git(_) => 3,
            AppError::Internal(_) => 10,
        }
    }

    /// The message that the error carries.
    pub open spec fn spec_message(&self) -> Seq<char> {
        match self {
            AppError::User(m) => m@,
            AppError::Config(m) => m@,
            AppError::Git(m) => m@,
            AppError::Internal(m) => m@,
        }
    }

    pub fn exit_code(&self) -> (r: u8)
        ensures
            r == self.spec_exit_code(),
    {
        match self {
            AppError::User(_) => 1,
            AppError::Config(_) => 2,
            AppError::Git(_) => 3,
            AppError::Internal(_) => 10,
        }
    }

    /// The text shown to the user for this error.
    pub fn message(&self) -> (r: String)
        ensures
            r@ == self.spec_message(),
    {
        match self {
            AppError::User(m) => m.clone(),
            AppError::Config(m) => m.clone(),
            AppError::Git(m) => m.clone(),
            AppError::Internal(m) => m.clone(),
        }
    }

    pub fn user(message: &str) -> (r: AppError)
        ensures
            r is User,
            r.spec_message() == message@,
    {
        AppError::User(message.to_owned())
    }

    pub fn config(message: &str) -> (r: AppError)
        ensures
            r is Config,
            r.spec_message() == message@,
    {
        AppError::Config(message.to_owned())
    }

    pub fn git(message: &str) -> (r: AppError)
        ensures
            r is Git,
            r.spec_message() == message@,
    {
        AppError::Git(message.to_owned())
    }

    pub fn internal(message: &str) -> (r: AppError)
        ensures
            r is Internal,
            r.spec_message() == message@,
    {
        AppError::Internal(message.to_owned())
    }

    /// An internal error carrying the displayed text of `error`.
    pub fn internal_from<E: std::fmt::Display>(error: E) -> (r: AppError)
        ensures
            r matches AppError::Internal(m) && vstd::string::to_string_from_display_ensures::<E>(
                &error,
                m,
            ),
    {
        AppError::Internal(error.to_string())
    }
}

} // verus!
