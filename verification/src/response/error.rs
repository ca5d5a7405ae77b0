//! The failures a client can be told of.

use vstd::prelude::*;
use vstd::utf8::encode_utf8;

use crate::response::bencode::{bencoding, encode, fields, BencodeTree, BencodeValue};
use crate::response::TrackerResponse;

verus! {

/// Why a request was turned down.
#[derive(Clone, Copy, Debug, PartialEq, Eq, Structural)]
pub enum ErrorResponse {
    BadAuth,
    BadRequest,
    BadAction,
    BadPeer,
}

impl ErrorResponse {
    /// What the client is told.
    pub open spec fn message(self) -> Seq<char> {
        match self {
            ErrorResponse::BadAuth => "Improper authentication provided."@,
            ErrorResponse::BadRequest => "Improper request sent."@,
            ErrorResponse::BadAction => "Improper action sent."@,
            ErrorResponse::BadPeer => "Your client is not allowed."@,
        }
    }

    /// The failure as a dictionary: the message under `failure reason`.
    pub open spec fn tree(self) -> BencodeTree {
        BencodeTree::Dict(
            seq![("failure reason"@, BencodeTree::Bytes(encode_utf8(self.message())))],
        )
    }

    /// What the client is told.
    pub fn reason(&self) -> (text: &'static str)
        ensures
            text@ == self.message(),
    {
        match self {
            ErrorResponse::BadAuth => "Improper authentication provided.",
            ErrorResponse::BadRequest => "Improper request sent.",
            ErrorResponse::BadAction => "Improper action sent.",
            ErrorResponse::BadPeer => "Your client is not allowed.",
        }
    }
}

impl TrackerResponse for ErrorResponse {
    open spec fn writable(&self) -> bool {
        true
    }

    open spec fn wire(&self) -> Seq<u8> {
        bencoding(self.tree())
    }

    fn to_bencode(&self) -> (bytes: Vec<u8>) {
        let mut entries: Vec<(String, BencodeValue)> = Vec::with_capacity(1);
        entries.push(BencodeValue::entry("failure reason", BencodeValue::text(self.reason())));
        assert(fields(entries@) =~= self.tree()->Dict_0);
        encode(&BencodeValue::dict(entries))
    }
}

} // verus!
