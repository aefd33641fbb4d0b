//! Parsing and writing of video-bitstream headers.
use vstd::prelude::*;
use vstd::string::StringExecFns;

pub mod bit_reader;
pub mod bit_writer;
pub mod bits;
pub mod h266;
pub mod hevc;
pub mod ivf;
pub mod layout;
pub mod message;
pub mod mpeg2;
pub mod nal;
pub mod rbsp;
pub mod scan;
pub mod sei;
pub mod start_code;
pub mod vc1;
pub mod vp8;

verus! {

/// The class of a [`BitstreamError`], without its message.
pub enum Fault {
    /// The input ended too early.
    End,
    /// A value that the syntax does not allow.
    Invalid,
    /// A feature that is deliberately not handled.
    Unsupported,
}

/// Errors produced by the parsers and writers in this crate.
#[derive(Debug, Clone, PartialEq, Eq)]
pub enum BitstreamError {
    /// The byte stream ended in the middle of a header we expected
    /// to be complete (NAL too short, payload truncated, etc.).
    UnexpectedEnd(String),
    /// Syntax error inside an otherwise well-framed header (an
    /// Exp-Golomb code with too many leading zeros, an out-of-range
    /// field value, a forbidden bit set, …).
    InvalidData(String),
    /// The input parses successfully but uses a feature this crate
    /// deliberately does not handle.
    Unsupported(String),
}

impl BitstreamError {
    /// The class of this error.
    pub open spec fn fault(self) -> Fault {
        match self {
            BitstreamError::UnexpectedEnd(_) => Fault::End,
            BitstreamError::InvalidData(_) => Fault::Invalid,
            BitstreamError::Unsupported(_) => Fault::Unsupported,
        }
    }

    /// The text that the error carries.
    pub open spec fn text(self) -> Seq<char> {
        match self {
            BitstreamError::UnexpectedEnd(m) => m@,
            BitstreamError::InvalidData(m) => m@,
            BitstreamError::Unsupported(m) => m@,
        }
    }

    /// What the class of this error is called in front of its text.
    pub open spec fn label(self) -> Seq<char> {
        match self {
            BitstreamError::UnexpectedEnd(_) => "unexpected end of stream: "@,
            BitstreamError::InvalidData(_) => "invalid bitstream data: "@,
            BitstreamError::Unsupported(_) => "unsupported bitstream feature: "@,
        }
    }

    /// The error in words: its class and its text.
    pub fn to_string(&self) -> (s: String)
        ensures
            s@ == self.label() + self.text(),
    {
        let (label, text): (&str, &String) = match self {
            BitstreamError::UnexpectedEnd(m) => ("unexpected end of stream: ", m),
            BitstreamError::InvalidData(m) => ("invalid bitstream data: ", m),
            BitstreamError::Unsupported(m) => ("unsupported bitstream feature: ", m),
        };
        let mut s = label.to_owned();
        s.append(text.as_str());
        s
    }

    /// An [`BitstreamError::InvalidData`] with the given text.
    pub fn invalid(msg: &str) -> (e: Self)
        ensures
            e.fault() == Fault::Invalid,
            e.text() == msg@,
    {
        BitstreamError::InvalidData(msg.to_owned())
    }

    /// An [`BitstreamError::Unsupported`] with the given text.
    pub fn unsupported(msg: &str) -> (e: Self)
        ensures
            e.fault() == Fault::Unsupported,
            e.text() == msg@,
    {
        BitstreamError::Unsupported(msg.to_owned())
    }

    /// An [`BitstreamError::UnexpectedEnd`] with the given text.
    pub fn unexpected_end(msg: &str) -> (e: Self)
        ensures
            e.fault() == Fault::End,
            e.text() == msg@,
    {
        BitstreamError::UnexpectedEnd(msg.to_owned())
    }
}

/// What an error is shown as: the name of its class, and its text.
pub proof fn law_to_string(e: BitstreamError, s: String)
    requires
        call_ensures(BitstreamError::to_string, (&e,), s),
    ensures
        match e {
            BitstreamError::UnexpectedEnd(m) => s@ == "unexpected end of stream: "@ + m@,
            BitstreamError::InvalidData(m) => s@ == "invalid bitstream data: "@ + m@,
            BitstreamError::Unsupported(m) => s@ == "unsupported bitstream feature: "@ + m@,
        },
{
}

} // verus!
