//! The errors of the library's operations.

use vstd::prelude::*;

verus! {

/// The result of an operation that can fail.
pub type AppResult<T> = Result<T, AppError>;

/// Why an operation failed.
#[derive(Debug)]
pub enum AppError {
    /// The caller's input is wrong.
    Validation(String),
    /// What was asked for does not exist.
    NotFound(String),
    /// A service that was asked failed.
    Upstream(String),
    /// Something that the operation needs is not set up.
    Precondition(String),
    /// The backend has no search by regular expression.
    RegexUnsupported,
}

/// An error with its message as a sequence of characters.
pub enum ErrorView {
    Validation(Seq<char>),
    NotFound(Seq<char>),
    Upstream(Seq<char>),
    Precondition(Seq<char>),
    RegexUnsupported,
}

impl View for AppError {
    type V = ErrorView;

    open spec fn view(&self) -> ErrorView {
        match self {
            AppError::Validation(message) => ErrorView::Validation(message@),
            AppError::NotFound(message) => ErrorView::NotFound(message@),
            AppError::Upstream(message) => ErrorView::Upstream(message@),
            AppError::Precondition(message) => ErrorView::Precondition(message@),
            AppError::RegexUnsupported => ErrorView::RegexUnsupported,
        }
    }
}

impl ErrorView {
    /// The text that is shown for the error.
    pub open spec fn text(self) -> Seq<char> {
        match self {
            ErrorView::Validation(message) => message,
            ErrorView::NotFound(message) => message,
            ErrorView::Upstream(message) => message,
            ErrorView::Precondition(message) => message,
            ErrorView::RegexUnsupported => "regex unsupported"@,
        }
    }

    /// The error with `context` before its message, where a service failed.
    pub open spec fn in_context(self, context: Seq<char>) -> ErrorView {
        match self {
            ErrorView::Upstream(message) => ErrorView::Upstream(context + ": "@ + message),
            other => other,
        }
    }
}

impl AppError {
    pub fn validation(message: String) -> (r: Self)
        ensures
            r@ == ErrorView::Validation(message@),
    {
        AppError::Validation(message)
    }

    pub fn not_found(message: String) -> (r: Self)
        ensures
            r@ == ErrorView::NotFound(message@),
    {
        AppError::NotFound(message)
    }

    pub fn upstream(message: String) -> (r: Self)
        ensures
            r@ == ErrorView::Upstream(message@),
    {
        AppError::Upstream(message)
    }

    pub fn precondition(message: String) -> (r: Self)
        ensures
            r@ == ErrorView::Precondition(message@),
    {
        AppError::Precondition(message)
    }

    /// The error with `context` before its message, where a service failed;
    /// any other error as it is.
    pub fn with_upstream_context(self, context: &str) -> (r: Self)
        ensures
            r@ == self@.in_context(context@),
    {
        match self {
            AppError::Upstream(message) => {
                let mut text = context.to_owned();
                text.append(": ");
                text.append(message.as_str());
                AppError::Upstream(text)
            },
            other => other,
        }
    }

    /// The text that is shown for the error.
    pub fn message(&self) -> (r: String)
        ensures
            r@ == self@.text(),
    {
        match self {
            AppError::Validation(message) => message.clone(),
            AppError::NotFound(message) => message.clone(),
            AppError::Upstream(message) => message.clone(),
            AppError::Precondition(message) => message.clone(),
            AppError::RegexUnsupported => "regex unsupported".to_owned(),
        }
    }
}

/// Context reaches only the failures of services, and only their message: the
/// kind of an error never changes.
pub proof fn law_context_keeps_the_kind(error: ErrorView, context: Seq<char>)
    ensures
        error is Upstream <==> error.in_context(context) is Upstream,
        error !is Upstream ==> error.in_context(context) == error,
{
}

/// The text of an error is its message; context stands before it, where a service failed.
pub proof fn law_the_text_of_an_error(message: Seq<char>, context: Seq<char>)
    ensures
        ErrorView::Validation(message).text() == message,
        ErrorView::NotFound(message).text() == message,
        ErrorView::Upstream(message).text() == message,
        ErrorView::Precondition(message).text() == message,
        ErrorView::RegexUnsupported.text() == "regex unsupported"@,
        ErrorView::Upstream(message).in_context(context).text() == context + ": "@ + message,
{
}

} // verus!
