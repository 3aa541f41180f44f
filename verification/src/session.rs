//! Connection session: the per-request state machine. One decoded request
//! maps to the frames written in reply, a query to run, and the next state;
//! a decode failure maps to a single Fatal frame and the closed state. The
//! frames of a `GetLogs` reply are built by a writer that counts its rows
//! and terminates the request with exactly one `End` frame carrying that
//! count, whatever mix of logs and errors the fetch produced.
//!
//! The caller owns the socket: it reads one frame payload, hands it here,
//! writes back the frames it gets, runs the query if one is returned, and
//! closes when the state says so.

use vstd::prelude::*;

use crate::codec::{spec_decode_request, decode_request, spec_encode_log, log_encodable,
    encode_log, DecodeError};
use crate::engine::{Error, Log, LogV, RawLogV, items_view, spec_assemble, spec_normalize,
    spec_row_count, spec_total_raws, lemma_empty_filters_full_count, lemma_row_count_concat};
use crate::msg::{frames_view, query_valid, spec_ping_ack, ping_ack, GetLogsArg, GetLogsArgV,
    ServerRequest, ServerRequestV, ServerResponse, ServerResponseV};

verus! {

/// The states of one connection: reading the next request, or closed.
#[derive(Clone, Copy, Debug, PartialEq, Eq, Structural)]
pub enum SessionState {
    AwaitingRequest,
    Closed,
}

/// The bytes of `"invalid block range"`: message of the request-scoped error for a query whose range is invalid.
pub open spec fn spec_msg_invalid_range() -> Seq<u8> {
    seq![0x69u8, 0x6eu8, 0x76u8, 0x61u8, 0x6cu8, 0x69u8, 0x64u8, 0x20u8, 0x62u8, 0x6cu8, 0x6fu8, 0x63u8, 0x6bu8, 0x20u8, 0x72u8, 0x61u8, 0x6eu8, 0x67u8, 0x65u8]
}

/// Build the `"invalid block range"` message.
pub fn msg_invalid_range() -> (r: Vec<u8>)
    ensures
        r@ == spec_msg_invalid_range(),
{
    let mut r: Vec<u8> = Vec::new();
    r.push(0x69);
    r.push(0x6e);
    r.push(0x76);
    r.push(0x61);
    r.push(0x6c);
    r.push(0x69);
    r.push(0x64);
    r.push(0x20);
    r.push(0x62);
    r.push(0x6c);
    r.push(0x6f);
    r.push(0x63);
    r.push(0x6b);
    r.push(0x20);
    r.push(0x72);
    r.push(0x61);
    r.push(0x6e);
    r.push(0x67);
    r.push(0x65);
    proof {
        assert(r@ =~= spec_msg_invalid_range());
    }
    r
}

/// The bytes of `"malformed log record"`: message of the error item for a raw record missing a required field.
pub open spec fn spec_msg_malformed() -> Seq<u8> {
    seq![0x6du8, 0x61u8, 0x6cu8, 0x66u8, 0x6fu8, 0x72u8, 0x6du8, 0x65u8, 0x64u8, 0x20u8, 0x6cu8, 0x6fu8, 0x67u8, 0x20u8, 0x72u8, 0x65u8, 0x63u8, 0x6fu8, 0x72u8, 0x64u8]
}

/// Build the `"malformed log record"` message.
pub fn msg_malformed() -> (r: Vec<u8>)
    ensures
        r@ == spec_msg_malformed(),
{
    let mut r: Vec<u8> = Vec::new();
    r.push(0x6d);
    r.push(0x61);
    r.push(0x6c);
    r.push(0x66);
    r.push(0x6f);
    r.push(0x72);
    r.push(0x6d);
    r.push(0x65);
    r.push(0x64);
    r.push(0x20);
    r.push(0x6c);
    r.push(0x6f);
    r.push(0x67);
    r.push(0x20);
    r.push(0x72);
    r.push(0x65);
    r.push(0x63);
    r.push(0x6f);
    r.push(0x72);
    r.push(0x64);
    proof {
        assert(r@ =~= spec_msg_malformed());
    }
    r
}

/// The bytes of `"chunk fetch failed"`: message of the error item for a chunk whose upstream fetch failed.
pub open spec fn spec_msg_chunk_failed() -> Seq<u8> {
    seq![0x63u8, 0x68u8, 0x75u8, 0x6eu8, 0x6bu8, 0x20u8, 0x66u8, 0x65u8, 0x74u8, 0x63u8, 0x68u8, 0x20u8, 0x66u8, 0x61u8, 0x69u8, 0x6cu8, 0x65u8, 0x64u8]
}

/// Build the `"chunk fetch failed"` message.
pub fn msg_chunk_failed() -> (r: Vec<u8>)
    ensures
        r@ == spec_msg_chunk_failed(),
{
    let mut r: Vec<u8> = Vec::new();
    r.push(0x63);
    r.push(0x68);
    r.push(0x75);
    r.push(0x6e);
    r.push(0x6b);
    r.push(0x20);
    r.push(0x66);
    r.push(0x65);
    r.push(0x74);
    r.push(0x63);
    r.push(0x68);
    r.push(0x20);
    r.push(0x66);
    r.push(0x61);
    r.push(0x69);
    r.push(0x6c);
    r.push(0x65);
    r.push(0x64);
    proof {
        assert(r@ =~= spec_msg_chunk_failed());
    }
    r
}

/// The bytes of `"truncated frame"`: fatal message: the bytes end before the record does.
pub open spec fn spec_msg_truncated() -> Seq<u8> {
    seq![0x74u8, 0x72u8, 0x75u8, 0x6eu8, 0x63u8, 0x61u8, 0x74u8, 0x65u8, 0x64u8, 0x20u8, 0x66u8, 0x72u8, 0x61u8, 0x6du8, 0x65u8]
}

/// Build the `"truncated frame"` message.
pub fn msg_truncated() -> (r: Vec<u8>)
    ensures
        r@ == spec_msg_truncated(),
{
    let mut r: Vec<u8> = Vec::new();
    r.push(0x74);
    r.push(0x72);
    r.push(0x75);
    r.push(0x6e);
    r.push(0x63);
    r.push(0x61);
    r.push(0x74);
    r.push(0x65);
    r.push(0x64);
    r.push(0x20);
    r.push(0x66);
    r.push(0x72);
    r.push(0x61);
    r.push(0x6d);
    r.push(0x65);
    proof {
        assert(r@ =~= spec_msg_truncated());
    }
    r
}

/// The bytes of `"unknown request tag"`: fatal message: no known request starts this way.
pub open spec fn spec_msg_unknown_tag() -> Seq<u8> {
    seq![0x75u8, 0x6eu8, 0x6bu8, 0x6eu8, 0x6fu8, 0x77u8, 0x6eu8, 0x20u8, 0x72u8, 0x65u8, 0x71u8, 0x75u8, 0x65u8, 0x73u8, 0x74u8, 0x20u8, 0x74u8, 0x61u8, 0x67u8]
}

/// Build the `"unknown request tag"` message.
pub fn msg_unknown_tag() -> (r: Vec<u8>)
    ensures
        r@ == spec_msg_unknown_tag(),
{
    let mut r: Vec<u8> = Vec::new();
    r.push(0x75);
    r.push(0x6e);
    r.push(0x6b);
    r.push(0x6e);
    r.push(0x6f);
    r.push(0x77);
    r.push(0x6e);
    r.push(0x20);
    r.push(0x72);
    r.push(0x65);
    r.push(0x71);
    r.push(0x75);
    r.push(0x65);
    r.push(0x73);
    r.push(0x74);
    r.push(0x20);
    r.push(0x74);
    r.push(0x61);
    r.push(0x67);
    proof {
        assert(r@ =~= spec_msg_unknown_tag());
    }
    r
}

/// The bytes of `"bad address length"`: fatal message: an address field that is not 20 bytes.
pub open spec fn spec_msg_bad_address() -> Seq<u8> {
    seq![0x62u8, 0x61u8, 0x64u8, 0x20u8, 0x61u8, 0x64u8, 0x64u8, 0x72u8, 0x65u8, 0x73u8, 0x73u8, 0x20u8, 0x6cu8, 0x65u8, 0x6eu8, 0x67u8, 0x74u8, 0x68u8]
}

/// Build the `"bad address length"` message.
pub fn msg_bad_address() -> (r: Vec<u8>)
    ensures
        r@ == spec_msg_bad_address(),
{
    let mut r: Vec<u8> = Vec::new();
    r.push(0x62);
    r.push(0x61);
    r.push(0x64);
    r.push(0x20);
    r.push(0x61);
    r.push(0x64);
    r.push(0x64);
    r.push(0x72);
    r.push(0x65);
    r.push(0x73);
    r.push(0x73);
    r.push(0x20);
    r.push(0x6c);
    r.push(0x65);
    r.push(0x6e);
    r.push(0x67);
    r.push(0x74);
    r.push(0x68);
    proof {
        assert(r@ =~= spec_msg_bad_address());
    }
    r
}

/// The bytes of `"bad hash length"`: fatal message: a hash field that is not 32 bytes.
pub open spec fn spec_msg_bad_hash() -> Seq<u8> {
    seq![0x62u8, 0x61u8, 0x64u8, 0x20u8, 0x68u8, 0x61u8, 0x73u8, 0x68u8, 0x20u8, 0x6cu8, 0x65u8, 0x6eu8, 0x67u8, 0x74u8, 0x68u8]
}

/// Build the `"bad hash length"` message.
pub fn msg_bad_hash() -> (r: Vec<u8>)
    ensures
        r@ == spec_msg_bad_hash(),
{
    let mut r: Vec<u8> = Vec::new();
    r.push(0x62);
    r.push(0x61);
    r.push(0x64);
    r.push(0x20);
    r.push(0x68);
    r.push(0x61);
    r.push(0x73);
    r.push(0x68);
    r.push(0x20);
    r.push(0x6c);
    r.push(0x65);
    r.push(0x6e);
    r.push(0x67);
    r.push(0x74);
    r.push(0x68);
    proof {
        assert(r@ =~= spec_msg_bad_hash());
    }
    r
}

/// The bytes of `"trailing bytes"`: fatal message: bytes left over after the record.
pub open spec fn spec_msg_trailing() -> Seq<u8> {
    seq![0x74u8, 0x72u8, 0x61u8, 0x69u8, 0x6cu8, 0x69u8, 0x6eu8, 0x67u8, 0x20u8, 0x62u8, 0x79u8, 0x74u8, 0x65u8, 0x73u8]
}

/// Build the `"trailing bytes"` message.
pub fn msg_trailing() -> (r: Vec<u8>)
    ensures
        r@ == spec_msg_trailing(),
{
    let mut r: Vec<u8> = Vec::new();
    r.push(0x74);
    r.push(0x72);
    r.push(0x61);
    r.push(0x69);
    r.push(0x6c);
    r.push(0x69);
    r.push(0x6e);
    r.push(0x67);
    r.push(0x20);
    r.push(0x62);
    r.push(0x79);
    r.push(0x74);
    r.push(0x65);
    r.push(0x73);
    proof {
        assert(r@ =~= spec_msg_trailing());
    }
    r
}

/// The message of one stream error item, for a request-scoped Error frame.
pub open spec fn spec_error_message(e: Error) -> Seq<u8> {
    match e {
        Error::Malformed(_) => spec_msg_malformed(),
        Error::Transport { .. } => spec_msg_chunk_failed(),
    }
}

/// Build the message of one stream error item.
pub fn error_message(e: &Error) -> (r: Vec<u8>)
    ensures
        r@ == spec_error_message(*e),
{
    match e {
        Error::Malformed(_) => msg_malformed(),
        Error::Transport { .. } => msg_chunk_failed(),
    }
}

/// The message of a connection-fatal decode failure; each failure shape has
/// its own words.
pub open spec fn spec_fatal_message(e: DecodeError) -> Seq<u8> {
    match e {
        DecodeError::Truncated => spec_msg_truncated(),
        DecodeError::UnknownTag => spec_msg_unknown_tag(),
        DecodeError::BadAddressLength => spec_msg_bad_address(),
        DecodeError::BadHashLength => spec_msg_bad_hash(),
        DecodeError::TrailingBytes => spec_msg_trailing(),
    }
}

/// Build the message of a connection-fatal decode failure.
pub fn fatal_message(e: &DecodeError) -> (r: Vec<u8>)
    ensures
        r@ == spec_fatal_message(*e),
{
    match e {
        DecodeError::Truncated => msg_truncated(),
        DecodeError::UnknownTag => msg_unknown_tag(),
        DecodeError::BadAddressLength => msg_bad_address(),
        DecodeError::BadHashLength => msg_bad_hash(),
        DecodeError::TrailingBytes => msg_trailing(),
    }
}

/// The frames written immediately in reply to one request: a Ping is
/// answered by one Row holding the fixed acknowledgment and End(1); a Bye
/// by nothing; a valid query by nothing yet (the query runs first); an
/// invalid query by a request-scoped Error and End(0).
pub open spec fn spec_dispatch_frames(req: ServerRequestV) -> Seq<ServerResponseV> {
    match req {
        ServerRequestV::Ping => seq![
            ServerResponseV::Row(spec_ping_ack()),
            ServerResponseV::End(1),
        ],
        ServerRequestV::Bye => Seq::empty(),
        ServerRequestV::GetLogs(a) => if query_valid(a) {
            Seq::empty()
        } else {
            seq![ServerResponseV::Error(spec_msg_invalid_range()), ServerResponseV::End(0)]
        },
    }
}

/// The query to run for one request: exactly the valid `GetLogs` queries.
pub open spec fn spec_dispatch_query(req: ServerRequestV) -> Option<GetLogsArgV> {
    match req {
        ServerRequestV::GetLogs(a) => if query_valid(a) {
            Some(a)
        } else {
            None
        },
        _ => None,
    }
}

/// The state after one request: only `Bye` closes the connection.
pub open spec fn spec_dispatch_state(req: ServerRequestV) -> SessionState {
    match req {
        ServerRequestV::Bye => SessionState::Closed,
        _ => SessionState::AwaitingRequest,
    }
}

/// Dispatch one decoded request: the frames to write now, the query to run
/// (if any), and the next session state.
pub fn dispatch_request(req: ServerRequest) -> (r: (
    Vec<ServerResponse>,
    Option<GetLogsArg>,
    SessionState,
))
    ensures
        frames_view(r.0@) == spec_dispatch_frames(req@),
        match r.1 {
            Some(q) => spec_dispatch_query(req@) == Some(q@),
            None => spec_dispatch_query(req@) is None,
        },
        r.2 == spec_dispatch_state(req@),
{
    match req {
        ServerRequest::Ping => {
            let mut frames: Vec<ServerResponse> = Vec::new();
            frames.push(ServerResponse::Row(ping_ack()));
            frames.push(ServerResponse::End(1));
            proof {
                assert(frames_view(frames@) =~= spec_dispatch_frames(ServerRequestV::Ping));
            }
            (frames, None, SessionState::AwaitingRequest)
        },
        ServerRequest::Bye => {
            let frames: Vec<ServerResponse> = Vec::new();
            proof {
                assert(frames_view(frames@) =~= spec_dispatch_frames(ServerRequestV::Bye));
            }
            (frames, None, SessionState::Closed)
        },
        ServerRequest::GetLogs(arg) => {
            if 0 <= arg.from_block && arg.from_block <= arg.to_block {
                let frames: Vec<ServerResponse> = Vec::new();
                proof {
                    assert(frames_view(frames@) =~= spec_dispatch_frames(
                        ServerRequestV::GetLogs(arg@),
                    ));
                }
                (frames, Some(arg), SessionState::AwaitingRequest)
            } else {
                let mut frames: Vec<ServerResponse> = Vec::new();
                frames.push(ServerResponse::Error(msg_invalid_range()));
                frames.push(ServerResponse::End(0));
                proof {
                    assert(frames_view(frames@) =~= spec_dispatch_frames(
                        ServerRequestV::GetLogs(arg@),
                    ));
                }
                (frames, None, SessionState::AwaitingRequest)
            }
        },
    }
}

/// One step of the session from one received frame payload: decode, then
/// dispatch. A payload that does not decode is connection-fatal: one Fatal
/// frame naming the failure, no query, and the closed state.
pub fn handle_frame(payload: &[u8]) -> (r: (
    Vec<ServerResponse>,
    Option<GetLogsArg>,
    SessionState,
))
    ensures
        match spec_decode_request(payload@) {
            Ok(req) => {
                &&& frames_view(r.0@) == spec_dispatch_frames(req)
                &&& (match r.1 {
                    Some(q) => spec_dispatch_query(req) == Some(q@),
                    None => spec_dispatch_query(req) is None,
                })
                &&& r.2 == spec_dispatch_state(req)
            },
            Err(e) => {
                &&& frames_view(r.0@) == seq![ServerResponseV::Fatal(spec_fatal_message(e))]
                &&& r.1 is None
                &&& r.2 == SessionState::Closed
            },
        },
{
    match decode_request(payload) {
        Ok(req) => dispatch_request(req),
        Err(e) => {
            let mut frames: Vec<ServerResponse> = Vec::new();
            frames.push(ServerResponse::Fatal(fatal_message(&e)));
            proof {
                assert(frames_view(frames@) =~= seq![
                    ServerResponseV::Fatal(spec_fatal_message(e)),
                ]);
            }
            (frames, None, SessionState::Closed)
        },
    }
}

/// Accumulates one request's response frames: counts the rows it writes
/// and terminates the request with exactly one `End` frame carrying that
/// count. The count can no longer change once the request has ended.
pub struct ResponseWriter {
    frames: Vec<ServerResponse>,
    count: u64,
    ended: bool,
}

impl ResponseWriter {
    /// The frames accumulated so far.
    pub closed spec fn frames(&self) -> Seq<ServerResponseV> {
        frames_view(self.frames@)
    }

    /// How many Row frames have been written.
    pub closed spec fn count(&self) -> u64 {
        self.count
    }

    /// Has the terminal `End` frame been written?
    pub closed spec fn ended(&self) -> bool {
        self.ended
    }

    /// A fresh writer for one request: no frames, no rows, not ended.
    pub fn new() -> (r: ResponseWriter)
        ensures
            r.frames() == Seq::<ServerResponseV>::empty(),
            r.count() == 0,
            !r.ended(),
    {
        let r = ResponseWriter { frames: Vec::new(), count: 0, ended: false };
        proof {
            assert(r.frames() =~= Seq::<ServerResponseV>::empty());
        }
        r
    }

    /// Write one Row frame and count it.
    pub fn write_row(&mut self, payload: Vec<u8>)
        requires
            !old(self).ended(),
            old(self).count() < u64::MAX,
        ensures
            final(self).frames() == old(self).frames() + seq![ServerResponseV::Row(payload@)],
            final(self).count() == old(self).count() + 1,
            !final(self).ended(),
    {
        let ghost prev = self.frames@;
        self.frames.push(ServerResponse::Row(payload));
        self.count = self.count + 1;
        proof {
            assert(frames_view(self.frames@) =~= frames_view(prev) + seq![
                ServerResponseV::Row(self.frames@[prev.len() as int]->Row_0@),
            ]);
        }
    }

    /// Write one request-scoped Error frame; the row count is untouched.
    pub fn write_error(&mut self, message: Vec<u8>)
        requires
            !old(self).ended(),
        ensures
            final(self).frames() == old(self).frames() + seq![
                ServerResponseV::Error(message@),
            ],
            final(self).count() == old(self).count(),
            !final(self).ended(),
    {
        let ghost prev = self.frames@;
        self.frames.push(ServerResponse::Error(message));
        proof {
            assert(frames_view(self.frames@) =~= frames_view(prev) + seq![
                ServerResponseV::Error(self.frames@[prev.len() as int]->Error_0@),
            ]);
        }
    }

    /// Terminate the request: write the one `End` frame with the count of
    /// rows actually written. Nothing more can be written after it.
    pub fn write_end(&mut self)
        requires
            !old(self).ended(),
        ensures
            final(self).frames() == old(self).frames() + seq![
                ServerResponseV::End(old(self).count()),
            ],
            final(self).count() == old(self).count(),
            final(self).ended(),
    {
        let ghost prev = self.frames@;
        self.frames.push(ServerResponse::End(self.count));
        self.ended = true;
        proof {
            assert(frames_view(self.frames@) =~= frames_view(prev) + seq![
                ServerResponseV::End(self.count),
            ]);
        }
    }

    /// Hand the accumulated frames out for writing to the wire.
    pub fn into_frames(self) -> (r: Vec<ServerResponse>)
        ensures
            frames_view(r@) == self.frames(),
    {
        let ResponseWriter { frames, count, ended } = self;
        frames
    }
}

/// The frame of one stream item: a Row holding the encoded log, or a
/// request-scoped Error holding the item's message.
pub open spec fn spec_item_frame(item: Result<LogV, Error>) -> ServerResponseV {
    match item {
        Ok(l) => ServerResponseV::Row(spec_encode_log(l)),
        Err(e) => ServerResponseV::Error(spec_error_message(e)),
    }
}

/// The frames of a whole item stream, one per item, in order.
pub open spec fn spec_item_frames(items: Seq<Result<LogV, Error>>) -> Seq<ServerResponseV>
    decreases items.len(),
{
    if items.len() == 0 {
        Seq::empty()
    } else {
        seq![spec_item_frame(items[0])] + spec_item_frames(items.drop_first())
    }
}

/// Item framing distributes over concatenation, one frame per item.
pub proof fn lemma_item_frames_concat(
    a: Seq<Result<LogV, Error>>,
    b: Seq<Result<LogV, Error>>,
)
    ensures
        spec_item_frames(a + b) == spec_item_frames(a) + spec_item_frames(b),
        spec_item_frames(a).len() == a.len(),
    decreases a.len(),
{
    if a.len() == 0 {
        assert(a + b =~= b);
        assert(spec_item_frames(a) + spec_item_frames(b) =~= spec_item_frames(b));
    } else {
        assert((a + b)[0] == a[0]);
        assert((a + b).drop_first() =~= a.drop_first() + b);
        lemma_item_frames_concat(a.drop_first(), b);
        assert(seq![spec_item_frame(a[0])] + (spec_item_frames(a.drop_first())
            + spec_item_frames(b)) =~= (seq![spec_item_frame(a[0])] + spec_item_frames(
            a.drop_first(),
        )) + spec_item_frames(b));
    }
}

/// Every log of the item stream can be framed: its topics count and data
/// length fit the 32-bit fields of the wire format.
pub open spec fn spec_items_encodable(items: Seq<Result<LogV, Error>>) -> bool {
    forall|i: int|
        0 <= i < items.len() && (#[trigger] items[i]) is Ok ==> log_encodable(items[i]->Ok_0)
}

/// The frames of one `GetLogs` reply: one Row per log in stream order, one
/// Error in place of each error item, then exactly one terminal End frame
/// whose count is the number of Row frames actually written — also when
/// some items are errors, also when there are no items at all.
pub fn respond_get_logs(items: &Vec<Result<Log, Error>>) -> (frames: Vec<ServerResponse>)
    requires
        spec_items_encodable(items_view(items@)),
    ensures
        frames_view(frames@) == spec_item_frames(items_view(items@)) + seq![
            ServerResponseV::End(spec_row_count(items_view(items@)) as u64),
        ],
        0 <= spec_row_count(items_view(items@)) <= items@.len(),
{
    let ghost iv = items_view(items@);
    proof {
        lemma_row_count_concat(iv, Seq::empty());
        assert(iv + Seq::<Result<LogV, Error>>::empty() =~= iv);
    }
    let mut w = ResponseWriter::new();
    let mut i: usize = 0;
    while i < items.len()
        invariant
            0 <= i <= items@.len(),
            iv == items_view(items@),
            iv.len() == items@.len(),
            spec_items_encodable(iv),
            !w.ended(),
            w.frames() == spec_item_frames(iv.take(i as int)),
            w.count() == spec_row_count(iv.take(i as int)),
            w.count() <= i,
        decreases items@.len() - i,
    {
        proof {
            assert(iv[i as int] == items_view(items@)[i as int]);
            assert(iv.take(i + 1) =~= iv.take(i as int) + seq![iv[i as int]]);
            lemma_item_frames_concat(iv.take(i as int), seq![iv[i as int]]);
            lemma_row_count_concat(iv.take(i as int), seq![iv[i as int]]);
            assert(seq![iv[i as int]].drop_first() =~= Seq::<Result<LogV, Error>>::empty());
            assert(spec_item_frames(Seq::<Result<LogV, Error>>::empty()) == Seq::<
                ServerResponseV,
            >::empty());
            assert(spec_row_count(Seq::<Result<LogV, Error>>::empty()) == 0);
            assert(spec_item_frames(seq![iv[i as int]]) =~= seq![spec_item_frame(iv[i as int])]);
            assert(spec_row_count(seq![iv[i as int]]) == (if iv[i as int] is Ok {
                1int
            } else {
                0int
            }));
        }
        match &items[i] {
            Ok(l) => {
                w.write_row(encode_log(l));
            },
            Err(e) => {
                w.write_error(error_message(e));
            },
        }
        i += 1;
    }
    proof {
        assert(iv.take(iv.len() as int) =~= iv);
    }
    w.write_end();
    w.into_frames()
}

/// The terminal frame is owed exactly once: the reply to a `GetLogs`
/// request is never empty, its last frame is an End frame, and no frame
/// before the last is an End frame — whatever mix of logs and errors the
/// fetch produced, and also when it produced nothing.
pub proof fn lemma_end_frame_exactly_once(items: Seq<Result<LogV, Error>>)
    ensures
        ({
            let fr = spec_item_frames(items) + seq![
                ServerResponseV::End(spec_row_count(items) as u64),
            ];
            &&& fr.len() == items.len() + 1
            &&& fr.last() is End
            &&& forall|i: int| 0 <= i < fr.len() - 1 ==> !((#[trigger] fr[i]) is End)
        }),
    decreases items.len(),
{
    lemma_item_frames_concat(items, Seq::empty());
    let fr = spec_item_frames(items) + seq![ServerResponseV::End(spec_row_count(items) as u64)];
    assert forall|i: int| 0 <= i < fr.len() - 1 implies !((#[trigger] fr[i]) is End) by {
        lemma_item_frames_not_end(items, i);
    }
}

/// How many frames of a reply are Row frames.
pub open spec fn spec_frame_row_count(frames: Seq<ServerResponseV>) -> int
    decreases frames.len(),
{
    if frames.len() == 0 {
        0
    } else {
        (if frames[0] is Row {
            1int
        } else {
            0int
        }) + spec_frame_row_count(frames.drop_first())
    }
}

/// Row-frame counting distributes over concatenation.
pub proof fn lemma_frame_row_count_concat(a: Seq<ServerResponseV>, b: Seq<ServerResponseV>)
    ensures
        spec_frame_row_count(a + b) == spec_frame_row_count(a) + spec_frame_row_count(b),
    decreases a.len(),
{
    if a.len() == 0 {
        assert(a + b =~= b);
    } else {
        assert((a + b)[0] == a[0]);
        assert((a + b).drop_first() =~= a.drop_first() + b);
        lemma_frame_row_count_concat(a.drop_first(), b);
    }
}

/// The End count is honest: the count the terminal frame carries equals
/// the number of Row frames that actually stand in the reply — exactly one
/// Row per successful log item, none for error items.
pub proof fn lemma_end_count_equals_rows(items: Seq<Result<LogV, Error>>)
    ensures
        spec_frame_row_count(
            spec_item_frames(items) + seq![
                ServerResponseV::End(spec_row_count(items) as u64),
            ],
        ) == spec_row_count(items),
    decreases items.len(),
{
    lemma_row_count_concat(items, Seq::empty());
    assert(items + Seq::<Result<LogV, Error>>::empty() =~= items);
    lemma_item_frames_rows(items);
    lemma_frame_row_count_concat(
        spec_item_frames(items),
        seq![ServerResponseV::End(spec_row_count(items) as u64)],
    );
    assert(seq![ServerResponseV::End(spec_row_count(items) as u64)].drop_first() =~= Seq::<
        ServerResponseV,
    >::empty());
    assert(spec_frame_row_count(Seq::<ServerResponseV>::empty()) == 0);
}

/// The item frames hold exactly one Row frame per successful item.
proof fn lemma_item_frames_rows(items: Seq<Result<LogV, Error>>)
    ensures
        spec_frame_row_count(spec_item_frames(items)) == spec_row_count(items),
    decreases items.len(),
{
    if items.len() == 0 {
    } else {
        lemma_item_frames_rows(items.drop_first());
        lemma_frame_row_count_concat(
            seq![spec_item_frame(items[0])],
            spec_item_frames(items.drop_first()),
        );
        assert(seq![spec_item_frame(items[0])].drop_first() =~= Seq::<ServerResponseV>::empty());
        assert(spec_frame_row_count(Seq::<ServerResponseV>::empty()) == 0);
    }
}

/// No unintended filtering: with an empty filter set, against an upstream
/// whose returned records are all well formed, the reply holds one Row
/// frame per raw log the upstream returned — and the End count, which
/// equals the number of Row frames, equals that total as well.
pub proof fn lemma_empty_filters_reply(chunks: Seq<Result<Seq<RawLogV>, Error>>)
    requires
        forall|i: int, j: int|
            0 <= i < chunks.len() && chunks[i] is Ok && 0 <= j < chunks[i]->Ok_0.len() ==> (
            #[trigger] spec_normalize(chunks[i]->Ok_0[j])) is Ok,
    ensures
        ({
            let items = spec_assemble(chunks, Seq::empty());
            let fr = spec_item_frames(items) + seq![
                ServerResponseV::End(spec_row_count(items) as u64),
            ];
            &&& spec_row_count(items) == spec_total_raws(chunks)
            &&& spec_frame_row_count(fr) == spec_total_raws(chunks)
        }),
{
    lemma_empty_filters_full_count(chunks);
    lemma_end_count_equals_rows(spec_assemble(chunks, Seq::empty()));
}

/// No frame that stands for a stream item is an End frame.
proof fn lemma_item_frames_not_end(items: Seq<Result<LogV, Error>>, i: int)
    requires
        0 <= i < spec_item_frames(items).len(),
    ensures
        !(spec_item_frames(items)[i] is End),
    decreases items.len(),
{
    lemma_item_frames_concat(items, Seq::empty());
    if items.len() > 0 {
        if i == 0 {
        } else {
            lemma_item_frames_not_end(items.drop_first(), i - 1);
        }
    }
}

} // verus!
