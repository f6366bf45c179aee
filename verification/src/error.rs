//! The typed failures of the snapshot codec.

use vstd::prelude::*;
use vstd::string::StringExecFns;

verus! {

/// Why a snapshot could not be read or written.
#[derive(Debug, Clone, PartialEq, Eq)]
pub enum RdbError {
    /// The first five bytes are not the magic word.
    InvalidHeader,
    /// The version is not four ASCII bytes.
    InvalidVersion,
    /// The input ended inside a field.
    UnexpectedEof,
    /// A size is too large for the size encoding.
    InvalidSizeEncoding,
    /// A string uses a special encoding that is not an integer form.
    InvalidStringEncoding,
    /// A byte stands where a value type or a section marker was expected.
    InvalidValueType(u8),
    /// The trailing checksum does not match the content.
    ChecksumMismatch,
    /// The request names something that is not supported.
    UnsupportedFeature(&'static str),
}

/// The outcome of a codec operation.
pub type Result<T> = std::result::Result<T, RdbError>;

/// The decimal digit `d` as a character.
pub open spec fn digit_char(d: nat) -> char {
    if d == 0 {
        '0'
    } else if d == 1 {
        '1'
    } else if d == 2 {
        '2'
    } else if d == 3 {
        '3'
    } else if d == 4 {
        '4'
    } else if d == 5 {
        '5'
    } else if d == 6 {
        '6'
    } else if d == 7 {
        '7'
    } else if d == 8 {
        '8'
    } else {
        '9'
    }
}

/// The decimal text of a number, as characters.
pub open spec fn decimal_text(n: nat) -> Seq<char>
    decreases n,
{
    if n < 10 {
        seq![digit_char(n)]
    } else {
        decimal_text(n / 10).push(digit_char(n % 10))
    }
}

/// What an error says of itself.
pub open spec fn description(e: RdbError) -> Seq<char> {
    match e {
        RdbError::InvalidHeader => "Invalid RDB header"@,
        RdbError::InvalidVersion => "Invalid RDB version"@,
        RdbError::UnexpectedEof => "Unexpected end of file"@,
        RdbError::InvalidSizeEncoding => "Invalid size encoding"@,
        RdbError::InvalidStringEncoding => "Invalid string encoding"@,
        RdbError::InvalidValueType(t) => "Invalid value type: "@ + decimal_text(t as nat),
        RdbError::ChecksumMismatch => "Checksum mismatch"@,
        RdbError::UnsupportedFeature(feature) => "Unsupported feature: "@ + feature@,
    }
}

/// The decimal digit `d` as text.
fn digit_text(d: u8) -> (r: &'static str)
    requires
        d < 10,
    ensures
        r@ == seq![digit_char(d as nat)],
{
    proof {
        reveal_strlit("0");
        reveal_strlit("1");
        reveal_strlit("2");
        reveal_strlit("3");
        reveal_strlit("4");
        reveal_strlit("5");
        reveal_strlit("6");
        reveal_strlit("7");
        reveal_strlit("8");
        reveal_strlit("9");
    }
    let r = if d == 0 {
        "0"
    } else if d == 1 {
        "1"
    } else if d == 2 {
        "2"
    } else if d == 3 {
        "3"
    } else if d == 4 {
        "4"
    } else if d == 5 {
        "5"
    } else if d == 6 {
        "6"
    } else if d == 7 {
        "7"
    } else if d == 8 {
        "8"
    } else {
        "9"
    };
    assert(r@ =~= seq![digit_char(d as nat)]);
    r
}

/// Appends the decimal text of `n`.
fn append_decimal(out: &mut String, n: u8)
    ensures
        final(out)@ == old(out)@ + decimal_text(n as nat),
    decreases n,
{
    let ghost before = out@;
    if n >= 10 {
        append_decimal(out, n / 10);
    }
    out.append(digit_text(n % 10));
    assert(out@ =~= before + decimal_text(n as nat));
}

impl RdbError {
    /// What the error says of itself.
    pub fn message(&self) -> (r: String)
        ensures
            r@ == description(*self),
    {
        match self {
            RdbError::InvalidHeader => String::from_str("Invalid RDB header"),
            RdbError::InvalidVersion => String::from_str("Invalid RDB version"),
            RdbError::UnexpectedEof => String::from_str("Unexpected end of file"),
            RdbError::InvalidSizeEncoding => String::from_str("Invalid size encoding"),
            RdbError::InvalidStringEncoding => String::from_str("Invalid string encoding"),
            RdbError::InvalidValueType(t) => {
                let mut out = String::from_str("Invalid value type: ");
                append_decimal(&mut out, *t);
                out
            },
            RdbError::ChecksumMismatch => String::from_str("Checksum mismatch"),
            RdbError::UnsupportedFeature(feature) => {
                let mut out = String::from_str("Unsupported feature: ");
                out.append(feature);
                out
            },
        }
    }
}

} // verus!
