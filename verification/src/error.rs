//! The errors of an analyze request.

use vstd::prelude::*;

verus! {

/// What can end a request early. All but `Storage` describe the request
/// or the data that was scanned; a response can carry them as a message.
/// `Storage` stands for a failure of the scan itself, which fails the
/// call.
#[derive(Debug)]
pub enum Error {
    /// The request names no column.
    EmptyColumnsInfo,
    /// A scanned entry ends before the column at this position.
    MissingColumn(usize),
    /// A scanned row comes without the canonical encoding or the sort key
    /// that the column at this position is counted by.
    MissingEncoding(usize),
    /// The group at this position names a column that the request lacks.
    GroupOutOfRange(usize),
    /// The request is of a kind that is not implemented.
    NotImplemented,
    /// A pass over columns and index gave no index statistics.
    MissingIndexResponse,
    /// The sampled rows take more memory than can be accounted for.
    MemoryExhausted,
    /// A key or a value could not be decoded or encoded.
    Codec(String),
    /// The scan failed.
    Storage(String),
}

/// The character that stands for a digit.
pub open spec fn digit(d: int) -> char {
    if d == 0 {
        '0'
    } else if d == 1 {
        '1'
    } else if d == 2 {
        '2'
    } else if d == 3 {
        '3'
    } else if d == 4 {
        '4'
    } else if d == 5 {
        '5'
    } else if d == 6 {
        '6'
    } else if d == 7 {
        '7'
    } else if d == 8 {
        '8'
    } else {
        '9'
    }
}

/// A number written in decimal digits, without sign or padding.
pub open spec fn decimal(n: nat) -> Seq<char>
    decreases n,
{
    if n < 10 {
        seq![digit(n as int)]
    } else {
        decimal(n / 10).push(digit((n % 10) as int))
    }
}

/// Calls `format!` with a number and a text, each written as `Display`
/// writes it: the number in decimal digits and the text as it is, one
/// after the other.
#[verifier::external_body]
fn numbered_message(position: usize, text: &str) -> (message: String)
    ensures
        message@ == decimal(position as nat) + text@,
{
    format!("{}{}", position, text)
}

impl Error {
    /// The error describes the request or the data, not the scan.
    pub open spec fn is_soft(self) -> bool {
        !(self is Storage)
    }

    /// The error in words. A position is written in decimal digits in
    /// front of what is said of it.
    pub open spec fn words(self) -> Seq<char> {
        match self {
            Error::EmptyColumnsInfo => "empty columns_info"@,
            Error::MissingColumn(position) => decimal(position as nat)
                + "th column is missing in datum buffer"@,
            Error::MissingEncoding(position) => decimal(position as nat)
                + "th column lacks its canonical encoding or its sort key"@,
            Error::GroupOutOfRange(position) => decimal(position as nat)
                + "th column group names a column out of range"@,
            Error::NotImplemented => "Analyze of this kind not implemented"@,
            Error::MissingIndexResponse => "Mixed analyze type should have index response."@,
            Error::MemoryExhausted => "sampled rows exceed the memory that can be accounted"@,
            Error::Codec(text) => text@,
            Error::Storage(text) => text@,
        }
    }

    /// Whether a response can carry the error as a message.
    pub fn soft(&self) -> (r: bool)
        ensures
            r == self.is_soft(),
    {
        match self {
            Error::Storage(_) => false,
            _ => true,
        }
    }

    /// The error in words.
    pub fn message(&self) -> (message: String)
        ensures
            message@ == self.words(),
    {
        match self {
            Error::EmptyColumnsInfo => "empty columns_info".to_owned(),
            Error::MissingColumn(position) => numbered_message(
                *position,
                "th column is missing in datum buffer",
            ),
            Error::MissingEncoding(position) => numbered_message(
                *position,
                "th column lacks its canonical encoding or its sort key",
            ),
            Error::GroupOutOfRange(position) => numbered_message(
                *position,
                "th column group names a column out of range",
            ),
            Error::NotImplemented => "Analyze of this kind not implemented".to_owned(),
            Error::MissingIndexResponse => "Mixed analyze type should have index response.".to_owned(),
            Error::MemoryExhausted => "sampled rows exceed the memory that can be accounted".to_owned(),
            Error::Codec(text) => text.clone(),
            Error::Storage(text) => text.clone(),
        }
    }
}

} // verus!
