//! Froggi: a small document-delivery protocol and its markup language.
//!
//! The crate has three parts: a little-endian byte codec, the wire framing of
//! requests and responses, and the scanner and parser for the FML markup that
//! pages are written in.

use vstd::prelude::*;
use vstd::string::{StringExecFns, StringSliceAdditionalSpecFns};

pub mod markup;
pub mod request;
pub mod response;

verus! {

/// Relies on std::str::from_utf8: it returns Ok exactly on valid UTF-8
/// input, and the returned str views those very bytes.
#[verifier::external_body]
pub(crate) fn utf8_to_str(b: &[u8]) -> (r: Option<&str>)
    ensures
        r is Some <==> vstd::utf8::valid_utf8(b@),
        r matches Some(s) ==> s.spec_bytes() == b@,
{
    std::str::from_utf8(b).ok()
}

/// Protocol version byte that both sides of the wire must send.
pub const FROGGI_VERSION: u8 = 0;

// ---------------------------------------------------------------------------
// Little-endian byte codec
// ---------------------------------------------------------------------------

/// The two little-endian bytes of a 16-bit value.
pub open spec fn u16_le_bytes(n: int) -> Seq<u8> {
    seq![(n % 256) as u8, ((n / 256) % 256) as u8]
}

/// The four little-endian bytes of a 32-bit value.
pub open spec fn u32_le_bytes(n: int) -> Seq<u8> {
    seq![
        (n % 256) as u8,
        ((n / 256) % 256) as u8,
        ((n / 65536) % 256) as u8,
        ((n / 16777216) % 256) as u8,
    ]
}

/// The value of two little-endian bytes.
pub open spec fn le16_val(b: Seq<u8>) -> int {
    b[0] + 256 * b[1]
}

/// The value of four little-endian bytes.
pub open spec fn le32_val(b: Seq<u8>) -> int {
    b[0] + 256 * b[1] + 65536 * b[2] + 16777216 * b[3]
}

/// Serialize a usize into a little-endian pair of bytes.
pub fn serialize_to_bytes(bytes: usize) -> (r: (u8, u8))
    requires
        bytes <= 0xffff,
    ensures
        seq![r.0, r.1] == u16_le_bytes(bytes as int),
        le16_val(seq![r.0, r.1]) == bytes,
{
    let low = (bytes % 256) as u8;
    let high = (bytes / 256) as u8;
    proof {
        lemma_u16_le_round_trip(bytes as int);
        assert(seq![low, high] =~= u16_le_bytes(bytes as int));
    }
    (low, high)
}

/// Serialize a usize into a little-endian quartet of bytes.
pub fn serialize_to_four_bytes(bytes: usize) -> (r: [u8; 4])
    requires
        bytes <= 0xffff_ffff,
    ensures
        r@ == u32_le_bytes(bytes as int),
        le32_val(r@) == bytes,
{
    let d = (bytes % 256) as u8;
    let c = ((bytes / 256) % 256) as u8;
    let b = ((bytes / 65536) % 256) as u8;
    let a = ((bytes / 16777216) % 256) as u8;
    let r = [d, c, b, a];
    proof {
        lemma_u32_le_round_trip(bytes as int);
        assert(r@ =~= u32_le_bytes(bytes as int));
    }
    r
}

/// Deserialize a pair of little-endian bytes into a usize.
pub fn deserialize_bytes(bytes: &[u8]) -> (r: usize)
    requires
        bytes@.len() == 2,
    ensures
        r == le16_val(bytes@),
        r <= 0xffff,
{
    (bytes[0] as usize) + 256 * (bytes[1] as usize)
}

/// Deserialize a quartet of little-endian bytes into a usize.
pub fn deserialize_four_bytes(bytes: &[u8]) -> (r: usize)
    requires
        bytes@.len() == 4,
    ensures
        r == le32_val(bytes@),
        r <= 0xffff_ffff,
{
    (bytes[0] as usize) + 256 * (bytes[1] as usize) + 65536 * (bytes[2] as usize) + 16777216
        * (bytes[3] as usize)
}

/// Law: decoding the two little-endian bytes of any 16-bit value gives the
/// value back.
pub proof fn lemma_u16_le_round_trip(n: int)
    requires
        0 <= n <= 0xffff,
    ensures
        le16_val(u16_le_bytes(n)) == n,
{
    assert(n % 256 + 256 * ((n / 256) % 256) == n) by (nonlinear_arith)
        requires
            0 <= n <= 0xffff,
    ;
}

/// Law: decoding the four little-endian bytes of any 32-bit value gives the
/// value back.
pub proof fn lemma_u32_le_round_trip(n: int)
    requires
        0 <= n <= 0xffff_ffff,
    ensures
        le32_val(u32_le_bytes(n)) == n,
{
    assert(n % 256 + 256 * ((n / 256) % 256) + 65536 * ((n / 65536) % 256) + 16777216 * ((n
        / 16777216) % 256) == n) by (nonlinear_arith)
        requires
            0 <= n <= 0xffff_ffff,
    ;
}

// ---------------------------------------------------------------------------
// Errors
// ---------------------------------------------------------------------------

use crate::markup::scan::TokenKind;

/// FML document scan error.
#[derive(Debug, Clone, PartialEq, Eq)]
pub enum ScanError {
    UnknownEscapeCode { code: char },
    UnterminatedString { start_line: usize },
}

/// FML document parse error.
#[derive(Debug, Clone, PartialEq, Eq)]
pub enum ParseError {
    UnexpectedToken { expected: TokenKind, got: Vec<u8> },
    UnbalancedParentheses,
    ExpectedStyle { got: Vec<u8> },
    ExpectedItem { got: Vec<u8> },
    UnknownStyle { style: Vec<u8> },
    RecursiveStyle { style: Vec<u8> },
    IncorrectNumberFormat { num: Vec<u8>, wanted: Vec<u8> },
}

/// Errors that are possible in the froggi protocol.
#[derive(Debug, Clone, PartialEq, Eq)]
pub enum ErrorKind {
    EncodingError,
    RequestFormatError,
    IOError,
    ScanError { error: ScanError, line: usize },
    ParseError { error: ParseError, line: usize },
}

/// An error of the froggi protocol: a machine-readable kind plus an optional
/// human context string that callers may append to.
#[derive(Debug)]
pub struct FroggiError {
    error: ErrorKind,
    msg: Option<String>,
}

impl FroggiError {
    /// The kind of this error, for use in specifications.
    pub closed spec fn kind_spec(&self) -> ErrorKind {
        self.error
    }

    /// The context string accumulated so far, for use in specifications.
    pub closed spec fn context_spec(&self) -> Option<Seq<char>> {
        match self.msg {
            Some(m) => Some(m@),
            None => None,
        }
    }

    pub fn new(error: ErrorKind) -> (r: FroggiError)
        ensures
            r.kind_spec() == error,
            r.context_spec() is None,
    {
        FroggiError { error, msg: None }
    }

    pub fn kind(&self) -> (r: &ErrorKind)
        ensures
            *r == self.kind_spec(),
    {
        &self.error
    }

    pub fn scan(error: ScanError, line: usize) -> (r: FroggiError)
        ensures
            r.kind_spec() == (ErrorKind::ScanError { error, line }),
            r.context_spec() is None,
    {
        FroggiError { error: ErrorKind::ScanError { error, line }, msg: None }
    }

    pub fn io() -> (r: FroggiError)
        ensures
            r.kind_spec() == ErrorKind::IOError,
            r.context_spec() is None,
    {
        FroggiError { error: ErrorKind::IOError, msg: None }
    }

    pub fn encoding() -> (r: FroggiError)
        ensures
            r.kind_spec() == ErrorKind::EncodingError,
            r.context_spec() is None,
    {
        FroggiError { error: ErrorKind::EncodingError, msg: None }
    }

    pub fn parse(error: ParseError, line: usize) -> (r: FroggiError)
        ensures
            r.kind_spec() == (ErrorKind::ParseError { error, line }),
            r.context_spec() is None,
    {
        FroggiError { error: ErrorKind::ParseError { error, line }, msg: None }
    }

    /// Append a breadcrumb to the error's context string: a first one
    /// stands alone, later ones are comma-joined.
    pub fn msg(self, msg: String) -> (r: FroggiError)
        ensures
            r.kind_spec() == self.kind_spec(),
            self.context_spec() is None ==> r.context_spec() == Some(msg@),
            self.context_spec() matches Some(m0) ==> r.context_spec() == Some(
                m0 + seq![',', ' '] + msg@,
            ),
    {
        let FroggiError { error, msg: old_msg } = self;
        let new_msg = match old_msg {
            Some(mut m) => {
                m.append(", ");
                m.append(msg.as_str());
                proof {
                    reveal_strlit(", ");
                    assert(", "@ =~= seq![',', ' ']);
                }
                m
            },
            None => msg,
        };
        FroggiError { error, msg: Some(new_msg) }
    }

    /// Append a breadcrumb given as a string slice.
    pub fn msg_str(self, msg: &str) -> (r: FroggiError)
        ensures
            r.kind_spec() == self.kind_spec(),
            self.context_spec() is None ==> r.context_spec() == Some(msg@),
            self.context_spec() matches Some(m0) ==> r.context_spec() == Some(
                m0 + seq![',', ' '] + msg@,
            ),
    {
        self.msg(msg.to_owned())
    }

    /// The context string accumulated so far, if any.
    pub fn context(&self) -> (r: Option<&String>)
        ensures
            match r {
                Some(m) => self.context_spec() == Some(m@),
                None => self.context_spec() is None,
            },
    {
        self.msg.as_ref()
    }
}

} // verus!
