//! Command lines: why one gives no configuration, and the exit status that
//! goes with it.

use crate::text::{text_of, texts_of};
use vstd::prelude::*;
use vstd::string::*;

verus! {

/// Why a command line gave no configuration.
#[derive(Debug)]
pub enum ArgsError {
    /// The parser refused the command line; the text is its message.
    Usage(String),
    /// The command line asked for help or for the version; the text is what
    /// was asked for, and no failure.
    Notice(String),
    /// The line count is no positive integer; the text is the value given.
    LineCount(String),
    /// The byte count is no positive integer; the text is the value given.
    ByteCount(String),
    /// There is no text to echo.
    MissingText,
}

/// What precedes the value in the message of a refused line count.
pub open spec fn line_count_complaint() -> Seq<char> {
    "illegal line count -- "@
}

/// The message for a command line without text to echo.
pub open spec fn missing_text_complaint() -> Seq<char> {
    "no text was given"@
}

/// What precedes the value in the message of a refused byte count.
pub open spec fn byte_count_complaint() -> Seq<char> {
    "illegal byte count -- "@
}

impl ArgsError {
    /// The message of the error, as it is shown to the user.
    pub open spec fn message_text(&self) -> Seq<char> {
        match self {
            ArgsError::Usage(text) => text@,
            ArgsError::Notice(text) => text@,
            ArgsError::LineCount(value) => line_count_complaint() + value@,
            ArgsError::ByteCount(value) => byte_count_complaint() + value@,
            ArgsError::MissingText => missing_text_complaint(),
        }
    }

    /// Whether the error is the one for a command line that the parser did
    /// not accept, with the parser's `message`, which belongs on the error
    /// stream or does not: a refusal where it does, else the help or the
    /// version that was asked for, and the message as it is either way.
    pub open spec fn is_refusal(&self, message: Seq<char>, on_error_stream: bool) -> bool {
        &&& self.message_text() == message
        &&& self is Usage <==> on_error_stream
        &&& self is Notice <==> !on_error_stream
    }

    /// Whether the error is a failure of the invocation: all are, but a
    /// request for help or for the version.
    pub open spec fn is_failure(&self) -> bool {
        !(self is Notice)
    }

    /// The message of the error, as it is shown to the user.
    pub fn message(&self) -> (text: String)
        ensures
            text@ == self.message_text(),
    {
        match self {
            ArgsError::Usage(text) => text.clone(),
            ArgsError::Notice(text) => text.clone(),
            ArgsError::LineCount(value) => {
                let mut text = String::from_str("illegal line count -- ");
                text.append(value.as_str());
                text
            },
            ArgsError::ByteCount(value) => {
                let mut text = String::from_str("illegal byte count -- ");
                text.append(value.as_str());
                text
            },
            ArgsError::MissingText => String::from_str("no text was given"),
        }
    }

    /// The exit status that goes with the error: 0 for help or the version
    /// that was asked for, 2 for a command line that the parser refused, and
    /// 1 for every other error.
    pub open spec fn status(&self) -> u8 {
        match self {
            ArgsError::Notice(_) => 0,
            ArgsError::Usage(_) => 2,
            _ => 1,
        }
    }

    /// The exit status that goes with the error.
    pub fn exit_status(&self) -> (r: u8)
        ensures
            r == self.status(),
            r != 0 <==> self.is_failure(),
    {
        match self {
            ArgsError::Notice(_) => 0,
            ArgsError::Usage(_) => 2,
            _ => 1,
        }
    }

    /// Whether the invocation failed; a request for help or for the version
    /// is no failure.
    pub fn failed(&self) -> (r: bool)
        ensures
            r == self.is_failure(),
    {
        match self {
            ArgsError::Notice(_) => false,
            _ => true,
        }
    }
}

/// The exit status of an invocation that gave its output and ended with
/// `failure`, if with any: 1 after a failure, else 0.
pub open spec fn status_after(failure: Option<Seq<char>>) -> u8 {
    if failure is Some {
        1
    } else {
        0
    }
}

/// The exit status of an invocation that ended with `failure`, if with any.
/// Sources that could not be opened do not count.
pub fn exit_status(failure: &Option<String>) -> (r: u8)
    ensures
        r == status_after(text_of(*failure)),
{
    match failure {
        Some(_) => 1,
        None => 0,
    }
}

/// The first of the values, where there is one.
pub open spec fn first(values: Option<Seq<Seq<char>>>) -> Option<Seq<char>> {
    match values {
        Some(list) => if list.len() > 0 {
            Some(list[0])
        } else {
            None
        },
        None => None,
    }
}

/// The first of the values, where there is one.
pub(crate) fn first_of(values: Option<Vec<String>>) -> (first: Option<String>)
    ensures
        match first {
            Some(text) => values matches Some(list) && list@.len() > 0 && text@ == list@[0]@,
            None => !(values matches Some(list) && list@.len() > 0),
        },
        text_of(first) == self::first(texts_of(values)),
{
    match values {
        Some(list) => if list.len() > 0 {
            Some(list[0].clone())
        } else {
            None
        },
        None => None,
    }
}

/// The error for a command line that the parser did not accept, from the
/// parser's message and from whether that message belongs on the error
/// stream. Where it does, the parser refused the command line; where it does
/// not, the message is the help or the version that was asked for. Either
/// way the error carries the message as it is.
pub(crate) fn refusal(message: String, on_error_stream: bool) -> (r: ArgsError)
    ensures
        r.message_text() == message@,
        r is Usage <==> on_error_stream,
        r is Notice <==> !on_error_stream,
{
    if on_error_stream {
        ArgsError::Usage(message)
    } else {
        ArgsError::Notice(message)
    }
}

} // verus!
