//! Request and response payload variants of the session protocol, and their
//! mathematical views. A request decodes to `Ping`, `Bye` or `GetLogs`; every
//! response frame is a `Row`, `End`, `Error` or `Fatal`.

use vstd::prelude::*;

use crate::types::{Address, ADDRESS_LEN, HASH_LEN};

verus! {

/// Arguments of a log query: an inclusive block range and a set of
/// (address, topic-zero) filters, ORed together.
pub struct GetLogsArg {
    pub from_block: i64,
    pub to_block: i64,
    pub filters: Vec<(Address, crate::types::Hash)>,
}

/// One decoded request.
pub enum ServerRequest {
    /// Check that the server is responsive.
    Ping,
    /// Close the connection gracefully.
    Bye,
    /// Stream logs from the data source.
    GetLogs(GetLogsArg),
}

/// One response frame, as a value; the codec turns it into bytes.
pub enum ServerResponse {
    /// One result record, already serialized.
    Row(Vec<u8>),
    /// Terminal frame of a request: the number of `Row` frames sent for it.
    End(u64),
    /// Request-scoped error; the connection stays usable.
    Error(Vec<u8>),
    /// Connection-scoped error; the connection closes after it.
    Fatal(Vec<u8>),
}

/// Mathematical view of a query argument.
pub ghost struct GetLogsArgV {
    pub from_block: i64,
    pub to_block: i64,
    pub filters: Seq<(Seq<u8>, Seq<u8>)>,
}

/// Mathematical view of a request.
pub ghost enum ServerRequestV {
    Ping,
    Bye,
    GetLogs(GetLogsArgV),
}

/// Mathematical view of a response frame.
pub ghost enum ServerResponseV {
    Row(Seq<u8>),
    End(u64),
    Error(Seq<u8>),
    Fatal(Seq<u8>),
}

/// The views of a sequence of filter pairs.
pub open spec fn filters_view(s: Seq<(Address, crate::types::Hash)>) -> Seq<(Seq<u8>, Seq<u8>)> {
    s.map_values(|f: (Address, crate::types::Hash)| (f.0@, f.1@))
}

impl View for GetLogsArg {
    type V = GetLogsArgV;

    open spec fn view(&self) -> GetLogsArgV {
        GetLogsArgV {
            from_block: self.from_block,
            to_block: self.to_block,
            filters: filters_view(self.filters@),
        }
    }
}

impl View for ServerRequest {
    type V = ServerRequestV;

    open spec fn view(&self) -> ServerRequestV {
        match self {
            ServerRequest::Ping => ServerRequestV::Ping,
            ServerRequest::Bye => ServerRequestV::Bye,
            ServerRequest::GetLogs(arg) => ServerRequestV::GetLogs(arg@),
        }
    }
}

impl View for ServerResponse {
    type V = ServerResponseV;

    open spec fn view(&self) -> ServerResponseV {
        match self {
            ServerResponse::Row(p) => ServerResponseV::Row(p@),
            ServerResponse::End(n) => ServerResponseV::End(*n),
            ServerResponse::Error(m) => ServerResponseV::Error(m@),
            ServerResponse::Fatal(m) => ServerResponseV::Fatal(m@),
        }
    }
}

/// The views of a sequence of response frames.
pub open spec fn frames_view(s: Seq<ServerResponse>) -> Seq<ServerResponseV> {
    s.map_values(|r: ServerResponse| r@)
}

/// A well-formed filter pair: a 20-byte address and a 32-byte hash.
pub open spec fn filter_wf(f: (Seq<u8>, Seq<u8>)) -> bool {
    f.0.len() == ADDRESS_LEN && f.1.len() == HASH_LEN
}

/// A well-formed query argument: every filter well formed, and the filter
/// count representable in the 32-bit count field of the wire format.
pub open spec fn arg_wf(a: GetLogsArgV) -> bool {
    &&& forall|i: int| 0 <= i < a.filters.len() ==> #[trigger] filter_wf(a.filters[i])
    &&& a.filters.len() <= u32::MAX
}

/// A well-formed request.
pub open spec fn request_wf(r: ServerRequestV) -> bool {
    match r {
        ServerRequestV::Ping => true,
        ServerRequestV::Bye => true,
        ServerRequestV::GetLogs(a) => arg_wf(a),
    }
}

/// A valid query: a non-negative, non-empty inclusive block range.
pub open spec fn query_valid(a: GetLogsArgV) -> bool {
    0 <= a.from_block <= a.to_block
}

/// The fixed acknowledgment payload that answers a `Ping`: the bytes of
/// `"Pong"`.
pub open spec fn spec_ping_ack() -> Seq<u8> {
    seq![0x50u8, 0x6fu8, 0x6eu8, 0x67u8]
}

/// Build the fixed `Ping` acknowledgment payload.
pub fn ping_ack() -> (r: Vec<u8>)
    ensures
        r@ == spec_ping_ack(),
{
    let mut r: Vec<u8> = Vec::new();
    r.push(0x50);
    r.push(0x6f);
    r.push(0x6e);
    r.push(0x67);
    proof {
        assert(r@ =~= spec_ping_ack());
    }
    r
}

} // verus!
