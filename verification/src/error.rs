//! What can go wrong while a term is decoded.

use vstd::prelude::*;

verus! {

/// The reason why a term could not be decoded.
#[derive(Debug, PartialEq, Clone)]
pub enum RustDeserializationError {
    /// The term is of another kind than the one asked for.
    InvalidType { expected: String, occurred: String },
    /// A value was asked for where none was at hand.
    MissingValue,
    /// The term is metadata around no value.
    EmptyMetaValue,
    /// The term is of a kind that stands for no plain value.
    UnimplementedType { occurred: String },
    /// Fields of a record were left over; carries the number of fields the record had.
    InvalidRecordLength(usize),
    /// Elements of an array were left over; carries the number of elements the array had.
    InvalidArrayLength(usize),
    /// A failure that the consumer of the decoded values reported.
    Other(String),
}

/// What an error stands for: the same cases, over sequences of characters.
pub enum ErrorView {
    InvalidType { expected: Seq<char>, occurred: Seq<char> },
    MissingValue,
    EmptyMetaValue,
    UnimplementedType { occurred: Seq<char> },
    InvalidRecordLength(nat),
    InvalidArrayLength(nat),
    Other(Seq<char>),
}

impl View for RustDeserializationError {
    type V = ErrorView;

    open spec fn view(&self) -> ErrorView {
        match self {
            RustDeserializationError::InvalidType { expected, occurred } => ErrorView::InvalidType {
                expected: expected@,
                occurred: occurred@,
            },
            RustDeserializationError::MissingValue => ErrorView::MissingValue,
            RustDeserializationError::EmptyMetaValue => ErrorView::EmptyMetaValue,
            RustDeserializationError::UnimplementedType { occurred } => ErrorView::UnimplementedType {
                occurred: occurred@,
            },
            RustDeserializationError::InvalidRecordLength(len) => ErrorView::InvalidRecordLength(
                *len as nat,
            ),
            RustDeserializationError::InvalidArrayLength(len) => ErrorView::InvalidArrayLength(
                *len as nat,
            ),
            RustDeserializationError::Other(msg) => ErrorView::Other(msg@),
        }
    }
}

/// What the outcome of a decoding stands for.
pub open spec fn view_result<T: View>(r: Result<T, RustDeserializationError>) -> Result<
    T::V,
    ErrorView,
> {
    match r {
        Ok(v) => Ok(v@),
        Err(e) => Err(e@),
    }
}

/// The character that writes a digit.
pub open spec fn digit_char(d: nat) -> char
    recommends
        d < 10,
{
    "0123456789"@[d as int]
}

/// A number written in base ten, without leading zeros.
pub open spec fn decimal(n: nat) -> Seq<char>
    decreases n,
{
    if n < 10 {
        seq![digit_char(n)]
    } else {
        decimal(n / 10).push(digit_char(n % 10))
    }
}

/// The text that reports an error.
pub open spec fn spec_message(e: ErrorView) -> Seq<char> {
    match e {
        ErrorView::InvalidType { expected, occurred } => "invalid type: "@ + occurred
            + ", expected: "@ + expected,
        ErrorView::MissingValue => "missing value"@,
        ErrorView::EmptyMetaValue => "empty Metavalue"@,
        ErrorView::InvalidRecordLength(len) => "invalid record length, expected "@ + decimal(len),
        ErrorView::InvalidArrayLength(len) => "invalid array length, expected "@ + decimal(len),
        ErrorView::UnimplementedType { occurred } => "unimplemented conversion from type: "@
            + occurred,
        ErrorView::Other(msg) => msg,
    }
}

/// One digit as text.
fn digit_str(d: usize) -> (r: &'static str)
    requires
        d < 10,
    ensures
        r@ == seq![digit_char(d as nat)],
{
    proof {
        reveal_strlit("0123456789");
        reveal_strlit("0");
        reveal_strlit("1");
        reveal_strlit("2");
        reveal_strlit("3");
        reveal_strlit("4");
        reveal_strlit("5");
        reveal_strlit("6");
        reveal_strlit("7");
        reveal_strlit("8");
        reveal_strlit("9");
    }
    let r = if d == 0 {
        "0"
    } else if d == 1 {
        "1"
    } else if d == 2 {
        "2"
    } else if d == 3 {
        "3"
    } else if d == 4 {
        "4"
    } else if d == 5 {
        "5"
    } else if d == 6 {
        "6"
    } else if d == 7 {
        "7"
    } else if d == 8 {
        "8"
    } else {
        "9"
    };
    assert(r@ =~= seq![digit_char(d as nat)]);
    r
}

/// Writes a number in base ten.
pub fn decimal_string(n: usize) -> (r: String)
    ensures
        r@ == decimal(n as nat),
    decreases n,
{
    if n < 10 {
        digit_str(n).to_owned()
    } else {
        let mut s = decimal_string(n / 10);
        s.append(digit_str(n % 10));
        assert(s@ =~= decimal(n as nat));
        s
    }
}

impl RustDeserializationError {
    /// The failure that a consumer reports in its own words.
    pub fn custom<T: std::fmt::Display>(msg: T) -> (r: Self)
        ensures
            r matches RustDeserializationError::Other(text)
                && vstd::string::to_string_from_display_ensures::<T>(&msg, text),
    {
        RustDeserializationError::Other(msg.to_string())
    }

    /// The text that reports this error.
    pub fn message(&self) -> (r: String)
        ensures
            r@ == spec_message(self@),
    {
        match self {
            RustDeserializationError::InvalidType { expected, occurred } => {
                let mut s = "invalid type: ".to_owned();
                s.append(occurred.as_str());
                s.append(", expected: ");
                s.append(expected.as_str());
                s
            },
            RustDeserializationError::MissingValue => "missing value".to_owned(),
            RustDeserializationError::EmptyMetaValue => "empty Metavalue".to_owned(),
            RustDeserializationError::InvalidRecordLength(len) => {
                let mut s = "invalid record length, expected ".to_owned();
                s.append(decimal_string(*len).as_str());
                s
            },
            RustDeserializationError::InvalidArrayLength(len) => {
                let mut s = "invalid array length, expected ".to_owned();
                s.append(decimal_string(*len).as_str());
                s
            },
            RustDeserializationError::UnimplementedType { occurred } => {
                let mut s = "unimplemented conversion from type: ".to_owned();
                s.append(occurred.as_str());
                s
            },
            RustDeserializationError::Other(msg) => msg.clone(),
        }
    }
}

} // verus!
