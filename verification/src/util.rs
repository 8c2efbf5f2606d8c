//! Reading settings from texts that may be missing.

use vstd::prelude::*;
use vstd::string::StringExecFns;

verus! {

/// Why a setting could not be read.
#[derive(Clone, Copy, Debug, PartialEq, Eq, Structural)]
pub enum ParseError {
    /// The setting is not there.
    Missing,
    /// The setting is there and its text is not of the type asked for.
    Invalid,
}

impl ParseError {
    /// The message that reports this error for the setting `name` of type `ty`.
    pub open spec fn message(self, name: Seq<char>, ty: Seq<char>) -> Seq<char> {
        match self {
            ParseError::Invalid => "Invalid env var: "@ + name + " - must be "@ + ty,
            ParseError::Missing => "Missing required env var: "@ + name,
        }
    }

    /// The message with which a program that cannot go on without the setting
    /// `name` of type `ty` gives up.
    pub fn describe_panic(&self, name: &str, ty: &str) -> (message: String)
        ensures
            message@ == self.message(name@, ty@),
    {
        match self {
            ParseError::Invalid => {
                let mut message = String::from_str("Invalid env var: ");
                message.append(name);
                message.append(" - must be ");
                message.append(ty);
                message
            },
            ParseError::Missing => {
                let mut message = String::from_str("Missing required env var: ");
                message.append(name);
                message
            },
        }
    }
}

/// A text that may be missing, read as a value.
pub trait TryParse<E>: Sized {
    /// The text that is there to be read, if there is one.
    spec fn text(&self) -> Option<String>;

    /// The error for a text that is not there.
    spec fn missing() -> E;

    /// The error for a text that `parse` turns down.
    spec fn invalid() -> E;

    /// Reads the text with `parse`.
    fn try_parse<T, F: FnOnce(String) -> Option<T>>(self, parse: F) -> (result: Result<T, E>)
        requires
            forall|text: String| self.text() == Some(text) ==> parse.requires((text,)),
        ensures
            match self.text() {
                None => result == Err::<T, E>(Self::missing()),
                Some(text) => match result {
                    Ok(value) => parse.ensures((text,), Some(value)),
                    Err(error) => error == Self::invalid() && parse.ensures((text,), None::<T>),
                },
            },
    ;
}

impl<E> TryParse<ParseError> for Result<String, E> {
    open spec fn text(&self) -> Option<String> {
        match self {
            Ok(text) => Some(*text),
            Err(_) => None,
        }
    }

    open spec fn missing() -> ParseError {
        ParseError::Missing
    }

    open spec fn invalid() -> ParseError {
        ParseError::Invalid
    }

    fn try_parse<T, F: FnOnce(String) -> Option<T>>(self, parse: F) -> (result: Result<
        T,
        ParseError,
    >) {
        match self {
            Ok(text) => {
                match parse(text) {
                    Some(value) => Ok(value),
                    None => Err(ParseError::Invalid),
                }
            },
            Err(_) => Err(ParseError::Missing),
        }
    }
}

/// A default that may stand in for a setting that could not be read.
pub trait Operator<T, E>: Sized {
    /// The value that stands in, if there is one.
    spec fn fallback(&self) -> Option<T>;

    /// The setting `rh` where it was read, else the default where there is
    /// one, else the error of `rh`.
    fn if_none(self, rh: Result<T, E>) -> (result: Result<T, E>)
        ensures
            result == match rh {
                Ok(value) => Ok::<T, E>(value),
                Err(error) => match self.fallback() {
                    Some(value) => Ok::<T, E>(value),
                    None => Err::<T, E>(error),
                },
            },
    ;
}

impl<T, E> Operator<T, E> for () {
    open spec fn fallback(&self) -> Option<T> {
        None
    }

    fn if_none(self, rh: Result<T, E>) -> (result: Result<T, E>) {
        rh
    }
}

impl<T> Operator<T, ParseError> for (T,) {
    open spec fn fallback(&self) -> Option<T> {
        Some(self.0)
    }

    fn if_none(self, rh: Result<T, ParseError>) -> (result: Result<T, ParseError>) {
        match rh {
            Ok(value) => Ok(value),
            Err(_) => Ok(self.0),
        }
    }
}

} // verus!
