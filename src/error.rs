//! Errors that abort the decoding of the whole input.

use vstd::prelude::*;
use crate::text::{decimal, push_decimal, push_str};

verus! {

/// What stood where the grammar expected something else.
#[derive(Debug, Clone, Copy, PartialEq, Eq, Structural)]
pub enum Found {
    /// An element with this tag byte.
    Tag(u8),
    /// The input, or the enclosing element, ended.
    End,
    /// A length field that is malformed or runs past the enclosing element.
    BadLength,
    /// Content that does not have the form its tag requires.
    BadContent,
}

/// Why a PEM block could not be turned into bytes.
#[derive(Debug, Clone, Copy, PartialEq, Eq, Structural)]
pub enum PemFault {
    /// A `BEGIN` line without its `END` line.
    Unterminated,
    /// The body is not valid base64.
    BadBase64,
}

/// A failure that stops the report.
#[derive(Debug, Clone, Copy, PartialEq, Eq, Structural)]
pub enum DecodeError {
    /// The PEM block with this index (counted from zero) is malformed.
    PemDecodeError { index: usize, reason: PemFault },
    /// The DER of a certificate is malformed at this byte offset; `expected` is
    /// the tag byte the grammar asked for there (0 where any element may stand).
    DerStructureError { offset: usize, expected: u8, found: Found },
}

/// The words for what stood where something else was expected.
pub open spec fn found_text(f: Found) -> Seq<char> {
    match f {
        Found::Tag(t) => "tag "@ + decimal(t as nat),
        Found::End => "end of input"@,
        Found::BadLength => "malformed length"@,
        Found::BadContent => "malformed content"@,
    }
}

/// The words for why a PEM block is malformed.
pub open spec fn fault_text(f: PemFault) -> Seq<char> {
    match f {
        PemFault::Unterminated => "missing END line"@,
        PemFault::BadBase64 => "invalid base64"@,
    }
}

/// The message for an error.
pub open spec fn error_text(e: DecodeError) -> Seq<char> {
    match e {
        DecodeError::PemDecodeError { index, reason } =>
            "Error while decoding PEM entry "@ + decimal(index as nat) + ": "@ + fault_text(reason),
        DecodeError::DerStructureError { offset, expected, found } =>
            "DER structure error at offset "@ + decimal(offset as nat) + ": expected tag "@
                + decimal(expected as nat) + ", found "@ + found_text(found),
    }
}

impl DecodeError {
    /// The error as a message.
    pub fn to_text(&self) -> (r: String)
        ensures
            r@ == error_text(*self),
    {
        let mut out = String::new();
        match *self {
            DecodeError::PemDecodeError { index, reason } => {
                push_str(&mut out, "Error while decoding PEM entry ");
                push_decimal(&mut out, index as u64);
                push_str(&mut out, ": ");
                match reason {
                    PemFault::Unterminated => push_str(&mut out, "missing END line"),
                    PemFault::BadBase64 => push_str(&mut out, "invalid base64"),
                }
            }
            DecodeError::DerStructureError { offset, expected, found } => {
                push_str(&mut out, "DER structure error at offset ");
                push_decimal(&mut out, offset as u64);
                push_str(&mut out, ": expected tag ");
                push_decimal(&mut out, expected as u64);
                push_str(&mut out, ", found ");
                match found {
                    Found::Tag(t) => {
                        push_str(&mut out, "tag ");
                        push_decimal(&mut out, t as u64);
                    }
                    Found::End => push_str(&mut out, "end of input"),
                    Found::BadLength => push_str(&mut out, "malformed length"),
                    Found::BadContent => push_str(&mut out, "malformed content"),
                }
            }
        }
        assert(out@ =~= error_text(*self));
        out
    }
}

} // verus!
