//! The request side of the wire protocol.
//!
//! A request is a protocol version byte, a 16-bit little-endian path length,
//! and the UTF-8 bytes of the path.

use crate::{le16_val, u16_le_bytes, ErrorKind, FroggiError, FROGGI_VERSION};
use vstd::prelude::*;
use vstd::slice::{slice_subrange, slice_to_vec};
use vstd::string::{StrSliceExecFns, StringExecFns, StringSliceAdditionalSpecFns};
use vstd::utf8::valid_utf8;

verus! {

/// A request for a page: the protocol version and the path asked for.
#[derive(Debug, PartialEq)]
pub struct Request {
    pub version: u8,
    pub path: Vec<u8>,
}

/// The byte encoding of a request for the given path.
pub open spec fn spec_request_bytes(path: Seq<u8>) -> Seq<u8> {
    seq![0u8] + u16_le_bytes(path.len() as int) + path
}

/// What reading a request from the given bytes yields: the path, or the
/// error that the read fails with.
pub open spec fn spec_parse_request(b: Seq<u8>) -> Result<Seq<u8>, ErrorKind> {
    if b.len() < 3 {
        Err(ErrorKind::IOError)
    } else if b[0] != 0 {
        Err(ErrorKind::RequestFormatError)
    } else {
        let n = le16_val(b.subrange(1, 3));
        if b.len() < 3 + n {
            Err(ErrorKind::IOError)
        } else if !valid_utf8(b.subrange(3, 3 + n)) {
            Err(ErrorKind::EncodingError)
        } else {
            Ok(b.subrange(3, 3 + n))
        }
    }
}

impl Request {
    /// The request is sound: version zero, a path that fits its length
    /// field, and valid UTF-8 path bytes.
    pub open spec fn wf(&self) -> bool {
        &&& self.version == 0
        &&& self.path@.len() <= 0xffff
        &&& valid_utf8(self.path@)
    }

    /// Build a request for a path; fails when the path cannot fit the
    /// 16-bit length field of the wire format.
    pub fn new(path: &str) -> (r: Result<Request, FroggiError>)
        ensures
            r is Ok <==> path.spec_bytes().len() <= 0xffff,
            r matches Ok(req) ==> req.wf() && req.path@ == path.spec_bytes() && req.version == 0,
            r matches Err(e) ==> e.kind_spec() == ErrorKind::RequestFormatError,
    {
        let bytes = path.as_bytes_vec();
        if bytes.len() > 0xffff {
            Err(
                FroggiError::new(ErrorKind::RequestFormatError).msg_str(
                    "the path is longer than the wire format allows",
                ),
            )
        } else {
            proof {
                vstd::utf8::encode_utf8_valid_utf8(path@);
            }
            Ok(Request { version: FROGGI_VERSION, path: bytes })
        }
    }

    pub fn version(&self) -> (v: u8)
        ensures
            v == self.version,
    {
        self.version
    }

    /// The request's path, decoded back to text.
    pub fn path(&self) -> (r: String)
        requires
            self.wf(),
        ensures
            vstd::utf8::encode_utf8(r@) == self.path@,
    {
        match crate::utf8_to_str(self.path.as_slice()) {
            Some(s) => String::from_str(s),
            None => {
                proof {
                    assert(false);
                }
                String::new()
            },
        }
    }

    /// Serialize the request into its wire bytes.
    pub fn to_bytes(&self) -> (r: Vec<u8>)
        requires
            self.wf(),
        ensures
            r@ == spec_request_bytes(self.path@),
            r@.len() == 3 + self.path@.len(),
    {
        let mut out: Vec<u8> = Vec::new();
        out.push(FROGGI_VERSION);
        let (low, high) = crate::serialize_to_bytes(self.path.len());
        out.push(low);
        out.push(high);
        proof {
            assert(out@ =~= seq![0u8] + u16_le_bytes(self.path@.len() as int));
        }
        let mut i: usize = 0;
        while i < self.path.len()
            invariant
                0 <= i <= self.path@.len(),
                out@ == seq![0u8] + u16_le_bytes(self.path@.len() as int) + self.path@.take(
                    i as int,
                ),
            decreases self.path@.len() - i,
        {
            out.push(self.path[i]);
            proof {
                assert(out@ =~= seq![0u8] + u16_le_bytes(self.path@.len() as int)
                    + self.path@.take(i + 1 as int));
            }
            i = i + 1;
        }
        proof {
            assert(self.path@.take(self.path@.len() as int) =~= self.path@);
        }
        out
    }

    /// Read one request from the front of the given bytes. Nothing beyond
    /// the declared path is looked at.
    pub fn from_bytes(bytes: &[u8]) -> (r: Result<Request, FroggiError>)
        ensures
            r is Ok <==> spec_parse_request(bytes@) is Ok,
            r matches Ok(req) ==> spec_parse_request(bytes@) == Ok::<_, ErrorKind>(req.path@)
                && req.wf() && req.version == 0,
            r matches Err(e) ==> spec_parse_request(bytes@) is Err && e.kind_spec()
                == spec_parse_request(bytes@)->Err_0,
    {
        if bytes.len() < 3 {
            return Err(FroggiError::io().msg_str("the stream ended before the request header"));
        }
        if bytes[0] != FROGGI_VERSION {
            return Err(
                FroggiError::new(ErrorKind::RequestFormatError).msg_str(
                    "unsupported protocol version",
                ),
            );
        }
        let len_bytes = slice_subrange(bytes, 1, 3);
        let n = crate::deserialize_bytes(len_bytes);
        if bytes.len() - 3 < n {
            return Err(FroggiError::io().msg_str("the stream ended inside the request path"));
        }
        let path_slice = slice_subrange(bytes, 3, 3 + n);
        match crate::utf8_to_str(path_slice) {
            None => Err(
                FroggiError::encoding().msg_str("could not decode the request path from utf8"),
            ),
            Some(_) => {
                let path = slice_to_vec(path_slice);
                Ok(Request { version: FROGGI_VERSION, path })
            },
        }
    }
}

/// Law: a request round-trips through its byte encoding — reading back the
/// encoding of any valid path yields that path.
pub proof fn lemma_request_round_trip(path: Seq<u8>)
    requires
        path.len() <= 0xffff,
        valid_utf8(path),
    ensures
        spec_parse_request(spec_request_bytes(path)) == Ok::<Seq<u8>, ErrorKind>(path),
{
    let b = spec_request_bytes(path);
    assert(b.len() == 3 + path.len());
    assert(b[0] == 0);
    assert(b.subrange(1, 3) =~= u16_le_bytes(path.len() as int));
    crate::lemma_u16_le_round_trip(path.len() as int);
    assert(b.subrange(3, 3 + path.len() as int) =~= path);
}

/// Law: a request whose first byte is not the protocol version is rejected
/// as a format error.
pub proof fn lemma_request_version_rejected(b: Seq<u8>)
    requires
        b.len() >= 3,
        b[0] != 0,
    ensures
        spec_parse_request(b) == Err::<Seq<u8>, ErrorKind>(ErrorKind::RequestFormatError),
{
}

} // verus!
