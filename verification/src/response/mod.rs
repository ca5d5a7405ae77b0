//! What goes back to the client, and how it is written on the wire.

pub mod bencode;
pub mod error;
pub mod success;
pub mod text;

use vstd::prelude::*;

verus! {

/// A response that goes to the client bencoded.
pub trait TrackerResponse {
    /// Whether the response can be written.
    spec fn writable(&self) -> bool;

    /// The bytes of the response on the wire.
    spec fn wire(&self) -> Seq<u8>;

    fn to_bencode(&self) -> (bytes: Vec<u8>)
        requires
            self.writable(),
        ensures
            bytes@ == self.wire(),
    ;
}

/// The bytes that answer a request: those of the response if it was
/// served, those of the failure if it was not.
pub open spec fn result_wire<S: TrackerResponse, E: TrackerResponse>(result: Result<S, E>) -> Seq<
    u8,
> {
    match result {
        Ok(resp) => resp.wire(),
        Err(err) => err.wire(),
    }
}

pub fn bencode_result<S: TrackerResponse, E: TrackerResponse>(result: Result<S, E>) -> (bytes: Vec<
    u8,
>)
    requires
        match result {
            Ok(resp) => resp.writable(),
            Err(err) => err.writable(),
        },
    ensures
        bytes@ == result_wire(result),
{
    match result {
        Ok(resp) => resp.to_bencode(),
        Err(err) => err.to_bencode(),
    }
}

pub fn bencode_resp<T: TrackerResponse>(resp: T) -> (bytes: Vec<u8>)
    requires
        resp.writable(),
    ensures
        bytes@ == resp.wire(),
{
    resp.to_bencode()
}

} // verus!
