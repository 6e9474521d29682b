//! The library's error: a message, in which each cause follows its context.

use crate::text::{concat2, concat3, concat4};
use vstd::prelude::*;

verus! {

/// Why an operation failed, as told to the user.
#[derive(Debug)]
pub struct Error {
    /// The message: the context of the failure, then after a colon its cause.
    pub message: String,
}

impl View for Error {
    type V = Seq<char>;

    open spec fn view(&self) -> Seq<char> {
        self.message@
    }
}

/// A context and, after a colon, the cause.
pub open spec fn caused(context: Seq<char>, cause: Seq<char>) -> Seq<char> {
    context + ": "@ + cause
}

impl Error {
    /// An error with the given message.
    pub fn new(message: &str) -> (error: Error)
        ensures
            error@ == message@,
    {
        Error { message: message.to_owned() }
    }

    /// An error whose message is a text and what the text speaks of.
    pub fn about(text: &str, subject: &str) -> (error: Error)
        ensures
            error@ == text@ + subject@,
    {
        Error { message: concat2(text, subject) }
    }

    /// An error whose message is a subject and what is said of it.
    pub fn of(subject: &str, text: &str) -> (error: Error)
        ensures
            error@ == subject@ + text@,
    {
        Error { message: concat2(subject, text) }
    }

    /// An error with a context and a cause.
    pub fn because(context: &str, cause: &str) -> (error: Error)
        ensures
            error@ == caused(context@, cause@),
    {
        Error { message: concat3(context, ": ", cause) }
    }

    /// An error whose context is a text and what the text speaks of.
    pub fn because_of(text: &str, subject: &str, cause: &str) -> (error: Error)
        ensures
            error@ == caused(text@ + subject@, cause@),
    {
        Error { message: concat4(text, subject, ": ", cause) }
    }
}

impl Clone for Error {
    fn clone(&self) -> (error: Error)
        ensures
            error@ == self@,
    {
        Error { message: self.message.clone() }
    }
}

/// A message with a cause is the context, a colon and a blank, and the cause.
pub proof fn law_caused(context: Seq<char>, cause: Seq<char>)
    ensures
        caused(context, cause).len() == context.len() + 2 + cause.len(),
        caused(context, cause).take(context.len() as int) == context,
        caused(context, cause)[context.len() as int] == ':',
        caused(context, cause)[context.len() as int + 1] == ' ',
        caused(context, cause).skip(context.len() as int + 2) == cause,
{
    reveal_strlit(": ");
    assert(caused(context, cause).take(context.len() as int) =~= context);
    assert(caused(context, cause).skip(context.len() as int + 2) =~= cause);
}

} // verus!
