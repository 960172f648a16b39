//! The single failure value that every stage surfaces to its caller:
//! lexical errors collected into a parse error, compile errors with a source
//! location, load faults, and runtime faults.

use vstd::prelude::*;
use vstd::string::StringExecFns;

use crate::text::{dec_nat, push_dec_u64, string_push};
use crate::token::{location_text, Location, LocationV};

verus! {

/// Every failure the toolchain can report. Nothing is retried and nothing is
/// recovered: each of these unwinds to the top-level driver.
#[derive(Debug, Clone)]
pub enum Error {
    RuntimeError(String),
    SegFault(usize, String),
    ParseError(String),
    CompileError(String, Location),
    InvalidFilepath(String),
    InvalidExtension(String),
    FailedToCreateFile(String),
    InvalidUTF8String,
    CorruptedBinary,
}

/// The mathematical model of an [`Error`].
#[verifier::ext_equal]
pub enum ErrorV {
    RuntimeError(Seq<char>),
    SegFault(nat, Seq<char>),
    ParseError(Seq<char>),
    CompileError(Seq<char>, LocationV),
    InvalidFilepath(Seq<char>),
    InvalidExtension(Seq<char>),
    FailedToCreateFile(Seq<char>),
    InvalidUTF8String,
    CorruptedBinary,
}

impl View for Error {
    type V = ErrorV;

    open spec fn view(&self) -> ErrorV {
        match self {
            Error::RuntimeError(m) => ErrorV::RuntimeError(m@),
            Error::SegFault(ip, m) => ErrorV::SegFault(*ip as nat, m@),
            Error::ParseError(m) => ErrorV::ParseError(m@),
            Error::CompileError(m, l) => ErrorV::CompileError(m@, l@),
            Error::InvalidFilepath(m) => ErrorV::InvalidFilepath(m@),
            Error::InvalidExtension(m) => ErrorV::InvalidExtension(m@),
            Error::FailedToCreateFile(m) => ErrorV::FailedToCreateFile(m@),
            Error::InvalidUTF8String => ErrorV::InvalidUTF8String,
            Error::CorruptedBinary => ErrorV::CorruptedBinary,
        }
    }
}

/// The one-line description of each failure.
pub open spec fn error_message(e: ErrorV) -> Seq<char> {
    match e {
        ErrorV::RuntimeError(m) => "uncaught runtime error: "@ + m,
        ErrorV::SegFault(ip, m) => "segmentation fault: at ip: "@ + dec_nat(ip) + ", "@ + m,
        ErrorV::ParseError(m) => m,
        ErrorV::CompileError(m, l) => location_text(l) + " compile error: "@ + m,
        ErrorV::InvalidFilepath(m) => "invalid filepath: '"@ + m + "'"@,
        ErrorV::InvalidExtension(m) => "invalid extension: '"@ + m + "'"@,
        ErrorV::FailedToCreateFile(m) => "failed to create file: '"@ + m + "'"@,
        ErrorV::InvalidUTF8String => "invalid utf-8 string: failed to read binary string"@,
        ErrorV::CorruptedBinary => "corrupted binary: failed to read bytecode"@,
    }
}

impl Error {
    /// The one-line description of this failure.
    pub fn message(&self) -> (r: String)
        ensures
            r@ == error_message(self@),
    {
        match self {
            Error::RuntimeError(m) => {
                let mut s = String::from_str("uncaught runtime error: ");
                s.append(m.as_str());
                proof {
                    assert(s@ =~= error_message(self@));
                }
                s
            },
            Error::SegFault(ip, m) => {
                let mut s = String::from_str("segmentation fault: at ip: ");
                push_dec_u64(&mut s, *ip as u64);
                s.append(", ");
                s.append(m.as_str());
                proof {
                    assert(s@ =~= error_message(self@));
                }
                s
            },
            Error::ParseError(m) => m.clone(),
            Error::CompileError(m, l) => {
                let mut s = l.text();
                s.append(" compile error: ");
                s.append(m.as_str());
                proof {
                    assert(s@ =~= error_message(self@));
                }
                s
            },
            Error::InvalidFilepath(m) => {
                let mut s = String::from_str("invalid filepath: '");
                s.append(m.as_str());
                string_push(&mut s, '\'');
                proof {
                    reveal_strlit("'");
                    assert(s@ =~= error_message(self@));
                }
                s
            },
            Error::InvalidExtension(m) => {
                let mut s = String::from_str("invalid extension: '");
                s.append(m.as_str());
                string_push(&mut s, '\'');
                proof {
                    reveal_strlit("'");
                    assert(s@ =~= error_message(self@));
                }
                s
            },
            Error::FailedToCreateFile(m) => {
                let mut s = String::from_str("failed to create file: '");
                s.append(m.as_str());
                string_push(&mut s, '\'');
                proof {
                    reveal_strlit("'");
                    assert(s@ =~= error_message(self@));
                }
                s
            },
            Error::InvalidUTF8String => String::from_str(
                "invalid utf-8 string: failed to read binary string",
            ),
            Error::CorruptedBinary => String::from_str("corrupted binary: failed to read bytecode"),
        }
    }
}

} // verus!
