//! The error of a scan.

use vstd::prelude::*;
use vstd::string::*;

verus! {

/// `From<&str> for String` copies the text to a string of its own.
pub assume_specification<'a>[ <String as From<&'a str>>::from ](text: &str) -> (string: String)
    ensures
        string@ == text@,
;

/// `From<T> for T` returns its argument unchanged.
pub assume_specification<T>[ <T as From<T>>::from ](value: T) -> (same: T)
    ensures
        same == value,
;

/// Native BLE backend error.
#[derive(Debug, Clone, PartialEq, Eq)]
pub struct Error {
    message: String,
}

impl View for Error {
    type V = Seq<char>;

    open spec fn view(&self) -> Seq<char> {
        self.text()@
    }
}

impl Error {
    /// The message.
    pub closed spec fn text(self) -> String {
        self.message
    }

    /// An error with the given message.
    pub fn new<M: Into<String>>(message: M) -> (error: Self)
        ensures
            call_ensures(<M as Into<String>>::into, (message,), error.text()),
    {
        Error { message: message.into() }
    }

    /// The message, as it is shown.
    pub fn message(&self) -> (text: &str)
        ensures
            text@ == self@,
    {
        self.message.as_str()
    }
}

/// What failed and why, as one text.
pub open spec fn failure_text(context: Seq<char>, cause: Seq<char>) -> Seq<char> {
    context + ": "@ + cause
}

/// What failed and why, as one text.
pub fn failure(context: &str, cause: &str) -> (text: String)
    ensures
        text@ == failure_text(context@, cause@),
{
    let mut text: String = context.to_owned();
    text.append(": ");
    text.append(cause);
    text
}

/// What is reported of an outcome: nothing of a success, and of a failure one text.
pub open spec fn failure_of(outcome: Result<(), String>, context: Seq<char>) -> Seq<Seq<char>> {
    match outcome {
        Ok(_) => seq![],
        Err(cause) => seq![failure_text(context, cause@)],
    }
}

} // verus!
