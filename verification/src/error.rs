//! The failures that the layer reports.

use vstd::prelude::*;
use protobuf::ProtobufError;
use crate::message::failure_text;

verus! {

/// Why an operation failed. Absence of a key is never a failure.
#[derive(Debug)]
pub enum Error {
    /// A column family of this name is not known to the store.
    UnknownColumnFamily(String),
    /// A stored value does not have the width of the integer asked for.
    WrongLength { expected: usize, got: usize },
    /// A structured message could not be parsed or serialised; the codec's
    /// own failure is passed on as it came.
    Codec(ProtobufError),
    /// The store itself reported a failure; its words are passed on.
    Storage(String),
}

/// The decimal digit for a number under ten.
pub open spec fn digit(d: nat) -> char {
    if d == 0 {
        '0'
    } else if d == 1 {
        '1'
    } else if d == 2 {
        '2'
    } else if d == 3 {
        '3'
    } else if d == 4 {
        '4'
    } else if d == 5 {
        '5'
    } else if d == 6 {
        '6'
    } else if d == 7 {
        '7'
    } else if d == 8 {
        '8'
    } else {
        '9'
    }
}

/// A number written in decimal digits, the most significant first.
pub open spec fn decimal(n: nat) -> Seq<char>
    decreases n,
{
    if n < 10 {
        seq![digit(n)]
    } else {
        decimal(n / 10).push(digit(n % 10))
    }
}

/// The words of an error, where the layer words it. A failure of the
/// codec is worded by the codec, and has `None` here.
pub open spec fn error_text(e: Error) -> Option<Seq<char>> {
    match e {
        Error::UnknownColumnFamily(name) => Some("cf "@ + name@ + " not found"@),
        Error::WrongLength { expected, got } => Some(
            "need "@ + decimal(expected as nat) + " bytes, but only got "@ + decimal(got as nat),
        ),
        Error::Codec(_) => None,
        Error::Storage(text) => Some(text@),
    }
}

/// The digit for a number under ten, as text.
fn digit_text(d: usize) -> (text: &'static str)
    requires
        d < 10,
    ensures
        text@ == seq![digit(d as nat)],
{
    proof {
        reveal_strlit("0");
        reveal_strlit("1");
        reveal_strlit("2");
        reveal_strlit("3");
        reveal_strlit("4");
        reveal_strlit("5");
        reveal_strlit("6");
        reveal_strlit("7");
        reveal_strlit("8");
        reveal_strlit("9");
    }
    let text = if d == 0 {
        "0"
    } else if d == 1 {
        "1"
    } else if d == 2 {
        "2"
    } else if d == 3 {
        "3"
    } else if d == 4 {
        "4"
    } else if d == 5 {
        "5"
    } else if d == 6 {
        "6"
    } else if d == 7 {
        "7"
    } else if d == 8 {
        "8"
    } else {
        "9"
    };
    assert(text@ =~= seq![digit(d as nat)]);
    text
}

/// Writes a number in decimal digits.
pub fn decimal_text(n: usize) -> (text: String)
    ensures
        text@ == decimal(n as nat),
    decreases n,
{
    if n < 10 {
        String::from_str(digit_text(n))
    } else {
        let text = decimal_text(n / 10).concat(digit_text(n % 10));
        assert(text@ =~= decimal((n / 10) as nat).push(digit((n % 10) as nat)));
        text
    }
}

impl Error {
    /// The words of the error, for a reader: the layer's own, or for a
    /// failure of the codec those of the codec.
    pub fn message(&self) -> (text: String)
        ensures
            error_text(*self) matches Some(words) ==> text@ == words,
    {
        match self {
            Error::UnknownColumnFamily(name) => String::from_str("cf ").concat(
                name.as_str(),
            ).concat(" not found"),
            Error::WrongLength { expected, got } => {
                let wanted = decimal_text(*expected);
                let found = decimal_text(*got);
                String::from_str("need ").concat(wanted.as_str()).concat(
                    " bytes, but only got ",
                ).concat(found.as_str())
            },
            Error::Codec(failure) => failure_text(failure),
            Error::Storage(text) => text.clone(),
        }
    }
}

} // verus!
