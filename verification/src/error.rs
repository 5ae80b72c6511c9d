//! The error type of a conversion and the text of its messages.

use crate::text::{decimal, push_decimal};
use vstd::prelude::*;
use vstd::string::StringExecFns;

verus! {

/// The message of an error that concerns CSV row `row_number`
/// (the header is row 1).
pub open spec fn row_message(row_number: nat, message: Seq<char>) -> Seq<char> {
    "CSV row "@ + decimal(row_number) + ": "@ + message
}

/// A recoverable failure while reading, validating, or writing a conversion.
#[derive(Debug)]
pub struct ConversionError {
    message: String,
}

impl View for ConversionError {
    type V = Seq<char>;

    closed spec fn view(&self) -> Seq<char> {
        self.message@
    }
}

impl ConversionError {
    /// An error with the given message.
    pub fn new(message: String) -> (e: Self)
        ensures
            e@ == message@,
    {
        ConversionError { message }
    }

    /// An error about CSV row `row_number`: `CSV row {row_number}: {message}`.
    pub fn row(row_number: u64, message: &str) -> (e: Self)
        ensures
            e@ == row_message(row_number as nat, message@),
    {
        let mut text = String::from_str("CSV row ");
        push_decimal(&mut text, row_number);
        text.append(": ");
        text.append(message);
        ConversionError { message: text }
    }

    /// The message of this error.
    pub fn message(&self) -> (m: &str)
        ensures
            m@ == self@,
    {
        self.message.as_str()
    }

    /// The message of this error, as its text is displayed.
    pub fn to_string(&self) -> (m: String)
        ensures
            m@ == self@,
    {
        self.message.clone()
    }
}

} // verus!
