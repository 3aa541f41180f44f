//! Binary wire codec. Every frame on the wire is a 4-byte big-endian length
//! followed by that many payload bytes. Payloads are tag-prefixed records:
//!
//! - request:  `0` = Ping, `1` = Bye, `2` = GetLogs followed by the two 8-byte
//!   block bounds, a 4-byte filter count and the filters, each filter a
//!   length-prefixed address then a length-prefixed hash;
//! - response: `0` = Row with a length-prefixed record payload, `1` = End with
//!   an 8-byte count, `2` = Error and `3` = Fatal with a length-prefixed
//!   message.
//!
//! Decoding consumes the whole payload or fails; it never partially accepts a
//! frame. A wrong-length address or hash fails with its own error, and the
//! error says which.

use vstd::prelude::*;

use crate::msg::{GetLogsArg, GetLogsArgV, ServerRequest, ServerRequestV, ServerResponse,
    ServerResponseV};
use crate::types::{Address, ADDRESS_LEN, HASH_LEN};
use crate::wire::{lemma_i64_be_round_trip, lemma_u32_be_round_trip, push_bytes, push_i64_be,
    push_u32_be, push_u64_be, read_i64_be, read_u32_be,
    spec_i64_from_be_bytes, spec_i64_to_be_bytes, spec_u32_from_be_bytes, spec_u32_to_be_bytes,
    spec_u64_to_be_bytes};

verus! {

/// Request tag: `Ping`.
pub const TAG_PING: u8 = 0;

/// Request tag: `Bye`.
pub const TAG_BYE: u8 = 1;

/// Request tag: `GetLogs`.
pub const TAG_GET_LOGS: u8 = 2;

/// Response tag: `Row`.
pub const TAG_ROW: u8 = 0;

/// Response tag: `End`.
pub const TAG_END: u8 = 1;

/// Response tag: `Error`.
pub const TAG_ERROR: u8 = 2;

/// Response tag: `Fatal`.
pub const TAG_FATAL: u8 = 3;

/// Why a decode failed. Each malformed shape has its own variant, so the
/// error a caller sees says what was wrong with the bytes.
#[derive(Clone, Copy, Debug, PartialEq, Eq, Structural)]
pub enum DecodeError {
    /// The bytes end before the record does.
    Truncated,
    /// The payload starts with no known tag.
    UnknownTag,
    /// An address field whose length is not 20.
    BadAddressLength,
    /// A hash field whose length is not 32.
    BadHashLength,
    /// Bytes left over after the record.
    TrailingBytes,
}

/// A filter as the codec sees it: address bytes and topic-zero hash bytes.
pub type FilterV = (Seq<u8>, Seq<u8>);

/// A length-prefixed byte string: 4-byte big-endian length, then the bytes.
pub open spec fn spec_enc_lp(b: Seq<u8>) -> Seq<u8>
    recommends
        b.len() <= u32::MAX,
{
    spec_u32_to_be_bytes(b.len() as u32) + b
}

/// One encoded filter: length-prefixed address, then length-prefixed hash.
pub open spec fn spec_enc_filter(f: FilterV) -> Seq<u8> {
    spec_enc_lp(f.0) + spec_enc_lp(f.1)
}

/// The filters of a query, encoded one after the other.
pub open spec fn spec_enc_filters(fs: Seq<FilterV>) -> Seq<u8>
    decreases fs.len(),
{
    if fs.len() == 0 {
        Seq::empty()
    } else {
        spec_enc_filter(fs[0]) + spec_enc_filters(fs.drop_first())
    }
}

/// The encoded bytes of a request payload.
pub open spec fn spec_encode_request(r: ServerRequestV) -> Seq<u8> {
    match r {
        ServerRequestV::Ping => seq![TAG_PING],
        ServerRequestV::Bye => seq![TAG_BYE],
        ServerRequestV::GetLogs(a) => seq![TAG_GET_LOGS] + spec_i64_to_be_bytes(a.from_block)
            + spec_i64_to_be_bytes(a.to_block) + spec_u32_to_be_bytes(a.filters.len() as u32)
            + spec_enc_filters(a.filters),
    }
}

/// The encoded bytes of a response payload.
pub open spec fn spec_encode_response(r: ServerResponseV) -> Seq<u8> {
    match r {
        ServerResponseV::Row(p) => seq![TAG_ROW] + spec_enc_lp(p),
        ServerResponseV::End(n) => seq![TAG_END] + spec_u64_to_be_bytes(n),
        ServerResponseV::Error(m) => seq![TAG_ERROR] + spec_enc_lp(m),
        ServerResponseV::Fatal(m) => seq![TAG_FATAL] + spec_enc_lp(m),
    }
}

/// A whole frame: the payload behind its 4-byte big-endian length.
pub open spec fn spec_frame(payload: Seq<u8>) -> Seq<u8>
    recommends
        payload.len() <= u32::MAX,
{
    spec_enc_lp(payload)
}

/// A request the codec can write: the filter count fits the 32-bit count
/// field. (Filter fields themselves are always the right length, by the
/// invariants of `Address` and `Hash`.)
pub open spec fn encodable_request(r: ServerRequestV) -> bool {
    match r {
        ServerRequestV::GetLogs(a) => a.filters.len() <= u32::MAX,
        _ => true,
    }
}

/// A response the codec can write: its payload or message fits a 32-bit
/// length field.
pub open spec fn encodable_response(r: ServerResponseV) -> bool {
    match r {
        ServerResponseV::Row(p) => p.len() <= u32::MAX,
        ServerResponseV::End(n) => true,
        ServerResponseV::Error(m) => m.len() <= u32::MAX,
        ServerResponseV::Fatal(m) => m.len() <= u32::MAX,
    }
}

/// Encoding distributes over concatenation of filter lists.
pub proof fn lemma_enc_filters_concat(a: Seq<FilterV>, b: Seq<FilterV>)
    ensures
        spec_enc_filters(a + b) == spec_enc_filters(a) + spec_enc_filters(b),
    decreases a.len(),
{
    if a.len() == 0 {
        assert(a + b =~= b);
        assert(spec_enc_filters(a) + spec_enc_filters(b) =~= spec_enc_filters(b));
    } else {
        assert((a + b).len() > 0);
        assert((a + b)[0] == a[0]);
        assert((a + b).drop_first() =~= a.drop_first() + b);
        lemma_enc_filters_concat(a.drop_first(), b);
        assert(spec_enc_filter(a[0]) + (spec_enc_filters(a.drop_first()) + spec_enc_filters(b))
            =~= (spec_enc_filter(a[0]) + spec_enc_filters(a.drop_first())) + spec_enc_filters(b));
    }
}

/// Append a length-prefixed byte string to `out`.
pub fn push_lp(out: &mut Vec<u8>, b: &[u8])
    requires
        b@.len() <= u32::MAX,
    ensures
        final(out)@ == old(out)@ + spec_enc_lp(b@),
{
    push_u32_be(out, b.len() as u32);
    push_bytes(out, b);
    proof {
        assert(out@ =~= old(out)@ + spec_enc_lp(b@));
    }
}

/// Encode one request payload.
pub fn encode_request(req: &ServerRequest) -> (out: Vec<u8>)
    requires
        encodable_request(req@),
    ensures
        out@ == spec_encode_request(req@),
{
    let mut out: Vec<u8> = Vec::new();
    match req {
        ServerRequest::Ping => {
            out.push(TAG_PING);
            proof {
                assert(out@ =~= spec_encode_request(req@));
            }
        },
        ServerRequest::Bye => {
            out.push(TAG_BYE);
            proof {
                assert(out@ =~= spec_encode_request(req@));
            }
        },
        ServerRequest::GetLogs(arg) => {
            let ghost fv = arg@.filters;
            out.push(TAG_GET_LOGS);
            push_i64_be(&mut out, arg.from_block);
            push_i64_be(&mut out, arg.to_block);
            push_u32_be(&mut out, arg.filters.len() as u32);
            let ghost head = out@;
            let mut i: usize = 0;
            while i < arg.filters.len()
                invariant
                    0 <= i <= arg.filters.len(),
                    fv == arg@.filters,
                    fv.len() == arg.filters@.len(),
                    out@ == head + spec_enc_filters(fv.take(i as int)),
                decreases arg.filters@.len() - i,
            {
                let f = &arg.filters[i];
                proof {
                    assert(fv[i as int] == (f.0@, f.1@));
                }
                push_lp(&mut out, f.0.bytes().as_slice());
                push_lp(&mut out, f.1.bytes().as_slice());
                proof {
                    assert(fv.take(i + 1) =~= fv.take(i as int) + seq![fv[i as int]]);
                    lemma_enc_filters_concat(fv.take(i as int), seq![fv[i as int]]);
                    assert(seq![fv[i as int]].drop_first() =~= Seq::<FilterV>::empty());
                    assert(spec_enc_filters(Seq::<FilterV>::empty()) == Seq::<u8>::empty());
                    assert(spec_enc_filters(seq![fv[i as int]]) =~= spec_enc_filter(fv[i as int]));
                    assert(out@ =~= head + spec_enc_filters(fv.take(i + 1)));
                }
                i += 1;
            }
            proof {
                assert(fv.take(fv.len() as int) =~= fv);
                assert(out@ =~= spec_encode_request(req@));
            }
        },
    }
    out
}

/// Encode one response payload.
pub fn encode_response(resp: &ServerResponse) -> (out: Vec<u8>)
    requires
        encodable_response(resp@),
    ensures
        out@ == spec_encode_response(resp@),
{
    let mut out: Vec<u8> = Vec::new();
    match resp {
        ServerResponse::Row(p) => {
            out.push(TAG_ROW);
            push_lp(&mut out, p.as_slice());
        },
        ServerResponse::End(n) => {
            out.push(TAG_END);
            push_u64_be(&mut out, *n);
        },
        ServerResponse::Error(m) => {
            out.push(TAG_ERROR);
            push_lp(&mut out, m.as_slice());
        },
        ServerResponse::Fatal(m) => {
            out.push(TAG_FATAL);
            push_lp(&mut out, m.as_slice());
        },
    }
    proof {
        assert(out@ =~= spec_encode_response(resp@));
    }
    out
}

/// Parse a length-prefixed byte string at `pos`: the bytes and the position
/// after them, or `Truncated`.
pub open spec fn spec_parse_lp(b: Seq<u8>, pos: int) -> Result<(Seq<u8>, int), DecodeError>
    recommends
        0 <= pos <= b.len(),
{
    if pos + 4 > b.len() {
        Err(DecodeError::Truncated)
    } else {
        let n = spec_u32_from_be_bytes(b.subrange(pos, pos + 4)) as int;
        if pos + 4 + n > b.len() {
            Err(DecodeError::Truncated)
        } else {
            Ok((b.subrange(pos + 4, pos + 4 + n), pos + 4 + n))
        }
    }
}

/// Parse an address field: a length-prefixed byte string that must hold
/// exactly 20 bytes.
pub open spec fn spec_parse_address(b: Seq<u8>, pos: int) -> Result<(Seq<u8>, int), DecodeError> {
    match spec_parse_lp(b, pos) {
        Ok((s, p)) => if s.len() == ADDRESS_LEN {
            Ok((s, p))
        } else {
            Err(DecodeError::BadAddressLength)
        },
        Err(e) => Err(e),
    }
}

/// Parse a hash field: a length-prefixed byte string that must hold exactly
/// 32 bytes.
pub open spec fn spec_parse_hash(b: Seq<u8>, pos: int) -> Result<(Seq<u8>, int), DecodeError> {
    match spec_parse_lp(b, pos) {
        Ok((s, p)) => if s.len() == HASH_LEN {
            Ok((s, p))
        } else {
            Err(DecodeError::BadHashLength)
        },
        Err(e) => Err(e),
    }
}

/// Parse one filter: an address field, then a hash field.
pub open spec fn spec_parse_filter(b: Seq<u8>, pos: int) -> Result<(FilterV, int), DecodeError> {
    match spec_parse_address(b, pos) {
        Ok((a, p1)) => match spec_parse_hash(b, p1) {
            Ok((h, p2)) => Ok(((a, h), p2)),
            Err(e) => Err(e),
        },
        Err(e) => Err(e),
    }
}

/// Parse exactly `n` filters, one after the other.
pub open spec fn spec_parse_filters(b: Seq<u8>, pos: int, n: nat) -> Result<
    (Seq<FilterV>, int),
    DecodeError,
>
    decreases n,
{
    if n == 0 {
        Ok((Seq::empty(), pos))
    } else {
        match spec_parse_filter(b, pos) {
            Ok((f, p1)) => match spec_parse_filters(b, p1, (n - 1) as nat) {
                Ok((fs, p2)) => Ok((seq![f] + fs, p2)),
                Err(e) => Err(e),
            },
            Err(e) => Err(e),
        }
    }
}

/// What a request payload means: the request it decodes to, or why it is
/// rejected. The whole payload must be consumed.
pub open spec fn spec_decode_request(b: Seq<u8>) -> Result<ServerRequestV, DecodeError> {
    if b.len() < 1 {
        Err(DecodeError::Truncated)
    } else if b[0] == TAG_PING {
        if b.len() == 1 {
            Ok(ServerRequestV::Ping)
        } else {
            Err(DecodeError::TrailingBytes)
        }
    } else if b[0] == TAG_BYE {
        if b.len() == 1 {
            Ok(ServerRequestV::Bye)
        } else {
            Err(DecodeError::TrailingBytes)
        }
    } else if b[0] == TAG_GET_LOGS {
        if b.len() < 21 {
            Err(DecodeError::Truncated)
        } else {
            let from_block = spec_i64_from_be_bytes(b.subrange(1, 9));
            let to_block = spec_i64_from_be_bytes(b.subrange(9, 17));
            let n = spec_u32_from_be_bytes(b.subrange(17, 21));
            match spec_parse_filters(b, 21, n as nat) {
                Ok((fs, p)) => if p == b.len() {
                    Ok(
                        ServerRequestV::GetLogs(
                            GetLogsArgV { from_block, to_block, filters: fs },
                        ),
                    )
                } else {
                    Err(DecodeError::TrailingBytes)
                },
                Err(e) => Err(e),
            }
        }
    } else {
        Err(DecodeError::UnknownTag)
    }
}

/// Parse a length-prefixed byte string out of `b` at `pos`.
pub fn parse_lp(b: &[u8], pos: usize) -> (r: Result<(Vec<u8>, usize), DecodeError>)
    requires
        pos <= b@.len(),
    ensures
        match r {
            Ok(v) => spec_parse_lp(b@, pos as int) == Ok::<_, DecodeError>((v.0@, v.1 as int))
                && pos <= v.1 <= b@.len(),
            Err(e) => spec_parse_lp(b@, pos as int) == Err::<(Seq<u8>, int), _>(e),
        },
{
    if b.len() - pos < 4 {
        return Err(DecodeError::Truncated);
    }
    let n32 = read_u32_be(b, pos);
    let n = n32 as usize;
    if b.len() - (pos + 4) < n {
        return Err(DecodeError::Truncated);
    }
    let body = vstd::slice::slice_subrange(b, pos + 4, pos + 4 + n);
    Ok((vstd::slice::slice_to_vec(body), pos + 4 + n))
}

/// Parse an address field and build the validated `Address`.
pub fn parse_address(b: &[u8], pos: usize) -> (r: Result<(Address, usize), DecodeError>)
    requires
        pos <= b@.len(),
    ensures
        match r {
            Ok(v) => spec_parse_address(b@, pos as int) == Ok::<_, DecodeError>(
                (v.0@, v.1 as int),
            ) && pos <= v.1 <= b@.len(),
            Err(e) => spec_parse_address(b@, pos as int) == Err::<(Seq<u8>, int), _>(e),
        },
{
    let (bytes, p) = match parse_lp(b, pos) {
        Ok(v) => v,
        Err(e) => {
            return Err(e);
        },
    };
    match Address::from_bytes(bytes) {
        Some(a) => Ok((a, p)),
        None => Err(DecodeError::BadAddressLength),
    }
}

/// Parse a hash field and build the validated `Hash`.
pub fn parse_hash(b: &[u8], pos: usize) -> (r: Result<(crate::types::Hash, usize), DecodeError>)
    requires
        pos <= b@.len(),
    ensures
        match r {
            Ok(v) => spec_parse_hash(b@, pos as int) == Ok::<_, DecodeError>((v.0@, v.1 as int))
                && pos <= v.1 <= b@.len(),
            Err(e) => spec_parse_hash(b@, pos as int) == Err::<(Seq<u8>, int), _>(e),
        },
{
    let (bytes, p) = match parse_lp(b, pos) {
        Ok(v) => v,
        Err(e) => {
            return Err(e);
        },
    };
    match crate::types::Hash::from_bytes(bytes) {
        Some(h) => Ok((h, p)),
        None => Err(DecodeError::BadHashLength),
    }
}

/// Parse one filter pair.
pub fn parse_filter(b: &[u8], pos: usize) -> (r: Result<
    ((Address, crate::types::Hash), usize),
    DecodeError,
>)
    requires
        pos <= b@.len(),
    ensures
        match r {
            Ok(v) => spec_parse_filter(b@, pos as int) == Ok::<_, DecodeError>(
                ((v.0.0@, v.0.1@), v.1 as int),
            ) && pos <= v.1 <= b@.len(),
            Err(e) => spec_parse_filter(b@, pos as int) == Err::<(FilterV, int), _>(e),
        },
{
    let (a, p1) = match parse_address(b, pos) {
        Ok(v) => v,
        Err(e) => {
            return Err(e);
        },
    };
    let (h, p2) = match parse_hash(b, p1) {
        Ok(v) => v,
        Err(e) => {
            return Err(e);
        },
    };
    Ok(((a, h), p2))
}

/// Decode one request payload. The whole payload must be one well-formed
/// request record; anything else fails with the error that says why, and
/// nothing is partially consumed.
pub fn decode_request(b: &[u8]) -> (r: Result<ServerRequest, DecodeError>)
    ensures
        match r {
            Ok(req) => spec_decode_request(b@) == Ok::<ServerRequestV, DecodeError>(req@),
            Err(e) => spec_decode_request(b@) == Err::<ServerRequestV, DecodeError>(e),
        },
{
    if b.len() < 1 {
        return Err(DecodeError::Truncated);
    }
    let tag = b[0];
    if tag == TAG_PING {
        if b.len() == 1 {
            Ok(ServerRequest::Ping)
        } else {
            Err(DecodeError::TrailingBytes)
        }
    } else if tag == TAG_BYE {
        if b.len() == 1 {
            Ok(ServerRequest::Bye)
        } else {
            Err(DecodeError::TrailingBytes)
        }
    } else if tag == TAG_GET_LOGS {
        if b.len() < 21 {
            return Err(DecodeError::Truncated);
        }
        let from_block = read_i64_be(b, 1);
        let to_block = read_i64_be(b, 9);
        let n32 = read_u32_be(b, 17);
        let n = n32 as usize;
        let mut filters: Vec<(Address, crate::types::Hash)> = Vec::new();
        let mut pos: usize = 21;
        let mut i: usize = 0;
        while i < n
            invariant
                0 <= i <= n,
                21 <= pos <= b@.len(),
                b@.len() >= 21,
                b@[0] == TAG_GET_LOGS,
                from_block == spec_i64_from_be_bytes(b@.subrange(1, 9)),
                to_block == spec_i64_from_be_bytes(b@.subrange(9, 17)),
                n == spec_u32_from_be_bytes(b@.subrange(17, 21)),
                crate::msg::filters_view(filters@).len() == i,
                spec_parse_filters(b@, 21, n as nat) == (match spec_parse_filters(
                    b@,
                    pos as int,
                    (n - i) as nat,
                ) {
                    Ok((fs, p)) => Ok::<_, DecodeError>(
                        (crate::msg::filters_view(filters@) + fs, p),
                    ),
                    Err(e) => Err::<(Seq<FilterV>, int), _>(e),
                }),
            decreases n - i,
        {
            let ghost acc = crate::msg::filters_view(filters@);
            let (f, p1) = match parse_filter(b, pos) {
                Ok(v) => v,
                Err(e) => {
                    proof {
                        assert((n - i) as nat != 0);
                        assert(spec_parse_filters(b@, pos as int, (n - i) as nat) == Err::<
                            (Seq<FilterV>, int),
                            DecodeError,
                        >(e));
                    }
                    return Err(e);
                },
            };
            let ghost fval = (f.0@, f.1@);
            filters.push(f);
            proof {
                assert(crate::msg::filters_view(filters@) =~= acc + seq![fval]);
                let rest = spec_parse_filters(b@, p1 as int, (n - i - 1) as nat);
                match rest {
                    Ok((fs, p2)) => {
                        assert(acc + (seq![fval] + fs) =~= (acc + seq![fval]) + fs);
                    },
                    Err(_) => {},
                }
            }
            pos = p1;
            i += 1;
        }
        if pos != b.len() {
            return Err(DecodeError::TrailingBytes);
        }
        let arg = GetLogsArg { from_block, to_block, filters };
        proof {
            assert(crate::msg::filters_view(arg.filters@) + Seq::<FilterV>::empty()
                =~= crate::msg::filters_view(arg.filters@));
        }
        Ok(ServerRequest::GetLogs(arg))
    } else {
        Err(DecodeError::UnknownTag)
    }
}

/// An encoded length-prefixed byte string parses back to the bytes it was
/// built from, wherever it stands in a larger buffer.
pub proof fn lemma_parse_lp_at(buf: Seq<u8>, pos: int, body: Seq<u8>)
    requires
        0 <= pos,
        body.len() <= u32::MAX,
        pos + 4 + body.len() <= buf.len(),
        buf.subrange(pos, pos + 4 + body.len()) == spec_enc_lp(body),
    ensures
        spec_parse_lp(buf, pos) == Ok::<_, DecodeError>((body, pos + 4 + body.len())),
{
    let blen = body.len() as int;
    let enc = spec_enc_lp(body);
    lemma_u32_be_round_trip(body.len() as u32);
    assert(spec_u32_to_be_bytes(body.len() as u32).len() == 4);
    assert(enc.len() == 4 + blen);
    assert(buf.subrange(pos, pos + 4) =~= enc.subrange(0, 4));
    assert(enc.subrange(0, 4) =~= spec_u32_to_be_bytes(body.len() as u32));
    assert(spec_u32_from_be_bytes(buf.subrange(pos, pos + 4)) == body.len() as u32);
    assert(buf.subrange(pos + 4, pos + 4 + blen) =~= enc.subrange(4, 4 + blen));
    assert(enc.subrange(4, 4 + blen) =~= body);
}

/// An encoded 20-byte address field parses back as that address.
pub proof fn lemma_parse_address_at(buf: Seq<u8>, pos: int, a: Seq<u8>)
    requires
        0 <= pos,
        a.len() == ADDRESS_LEN,
        pos + 24 <= buf.len(),
        buf.subrange(pos, pos + 24) == spec_enc_lp(a),
    ensures
        spec_parse_address(buf, pos) == Ok::<_, DecodeError>((a, pos + 24)),
{
    lemma_parse_lp_at(buf, pos, a);
}

/// An encoded 32-byte hash field parses back as that hash.
pub proof fn lemma_parse_hash_at(buf: Seq<u8>, pos: int, h: Seq<u8>)
    requires
        0 <= pos,
        h.len() == HASH_LEN,
        pos + 36 <= buf.len(),
        buf.subrange(pos, pos + 36) == spec_enc_lp(h),
    ensures
        spec_parse_hash(buf, pos) == Ok::<_, DecodeError>((h, pos + 36)),
{
    lemma_parse_lp_at(buf, pos, h);
}

/// A length-prefixed address field whose body is not exactly 20 bytes fails
/// with `BadAddressLength` — its own, descriptive error.
pub proof fn lemma_address_length_rejected(buf: Seq<u8>, pos: int, body: Seq<u8>)
    requires
        0 <= pos,
        body.len() != ADDRESS_LEN,
        body.len() <= u32::MAX,
        pos + 4 + body.len() <= buf.len(),
        buf.subrange(pos, pos + 4 + body.len()) == spec_enc_lp(body),
    ensures
        spec_parse_address(buf, pos) == Err::<(Seq<u8>, int), _>(DecodeError::BadAddressLength),
{
    lemma_parse_lp_at(buf, pos, body);
}

/// A length-prefixed hash field whose body is not exactly 32 bytes fails
/// with `BadHashLength` — its own, descriptive error.
pub proof fn lemma_hash_length_rejected(buf: Seq<u8>, pos: int, body: Seq<u8>)
    requires
        0 <= pos,
        body.len() != HASH_LEN,
        body.len() <= u32::MAX,
        pos + 4 + body.len() <= buf.len(),
        buf.subrange(pos, pos + 4 + body.len()) == spec_enc_lp(body),
    ensures
        spec_parse_hash(buf, pos) == Err::<(Seq<u8>, int), _>(DecodeError::BadHashLength),
{
    lemma_parse_lp_at(buf, pos, body);
}

/// A well-formed encoded filter is 60 bytes: 4+20 for the address field,
/// 4+32 for the hash field.
pub proof fn lemma_enc_filter_len(f: FilterV)
    requires
        crate::msg::filter_wf(f),
    ensures
        spec_enc_filter(f).len() == 60,
{
}

/// A sequence of well-formed encoded filters is 60 bytes per filter.
pub proof fn lemma_enc_filters_len(fs: Seq<FilterV>)
    requires
        forall|i: int| 0 <= i < fs.len() ==> #[trigger] crate::msg::filter_wf(fs[i]),
    ensures
        spec_enc_filters(fs).len() == 60 * fs.len(),
    decreases fs.len(),
{
    if fs.len() == 0 {
    } else {
        assert(crate::msg::filter_wf(fs[0]));
        lemma_enc_filter_len(fs[0]);
        assert(forall|i: int| 0 <= i < fs.drop_first().len() ==> #[trigger] crate::msg::filter_wf(
            fs.drop_first()[i],
        )) by {
            assert(forall|i: int| 0 <= i < fs.drop_first().len() ==> fs.drop_first()[i] == fs[i
                + 1]);
        }
        lemma_enc_filters_len(fs.drop_first());
    }
}

/// An encoded filter parses back as itself.
pub proof fn lemma_parse_filter_at(buf: Seq<u8>, pos: int, f: FilterV)
    requires
        0 <= pos,
        crate::msg::filter_wf(f),
        pos + 60 <= buf.len(),
        buf.subrange(pos, pos + 60) == spec_enc_filter(f),
    ensures
        spec_parse_filter(buf, pos) == Ok::<_, DecodeError>((f, pos + 60)),
{
    let enc = spec_enc_filter(f);
    assert(spec_enc_lp(f.0).len() == 24);
    assert(spec_enc_lp(f.1).len() == 36);
    assert(buf.subrange(pos, pos + 24) =~= enc.subrange(0, 24));
    assert(enc.subrange(0, 24) =~= spec_enc_lp(f.0));
    lemma_parse_address_at(buf, pos, f.0);
    assert(buf.subrange(pos + 24, pos + 60) =~= enc.subrange(24, 60));
    assert(enc.subrange(24, 60) =~= spec_enc_lp(f.1));
    lemma_parse_hash_at(buf, pos + 24, f.1);
}

/// An encoded filter list parses back as itself, element by element.
pub proof fn lemma_parse_filters_at(buf: Seq<u8>, pos: int, fs: Seq<FilterV>)
    requires
        0 <= pos,
        forall|i: int| 0 <= i < fs.len() ==> #[trigger] crate::msg::filter_wf(fs[i]),
        pos + 60 * fs.len() <= buf.len(),
        buf.subrange(pos, pos + 60 * fs.len()) == spec_enc_filters(fs),
    ensures
        spec_parse_filters(buf, pos, fs.len()) == Ok::<_, DecodeError>(
            (fs, pos + 60 * fs.len()),
        ),
    decreases fs.len(),
{
    lemma_enc_filters_len(fs);
    if fs.len() == 0 {
        assert(fs =~= Seq::<FilterV>::empty());
    } else {
        let enc = spec_enc_filters(fs);
        let rest = fs.drop_first();
        assert(crate::msg::filter_wf(fs[0]));
        lemma_enc_filter_len(fs[0]);
        assert(forall|i: int| 0 <= i < rest.len() ==> #[trigger] crate::msg::filter_wf(rest[i]))
            by {
            assert(forall|i: int| 0 <= i < rest.len() ==> rest[i] == fs[i + 1]);
        }
        lemma_enc_filters_len(rest);
        assert(buf.subrange(pos, pos + 60) =~= enc.subrange(0, 60));
        assert(enc.subrange(0, 60) =~= spec_enc_filter(fs[0]));
        lemma_parse_filter_at(buf, pos, fs[0]);
        assert(buf.subrange(pos + 60, pos + 60 + 60 * (rest.len() as int)) =~= enc.subrange(
            60,
            60 + 60 * (rest.len() as int),
        ));
        assert(enc.subrange(60, 60 + 60 * (rest.len() as int)) =~= spec_enc_filters(rest));
        lemma_parse_filters_at(buf, pos + 60, rest);
        assert(seq![fs[0]] + rest =~= fs);
    }
}

/// Round trip: every well-formed request decodes from its own encoding back
/// to exactly itself. Together with the exact contracts of `encode_request`
/// and `decode_request`, the codec loses nothing and invents nothing.
pub proof fn lemma_request_round_trip(r: ServerRequestV)
    requires
        crate::msg::request_wf(r),
    ensures
        spec_decode_request(spec_encode_request(r)) == Ok::<ServerRequestV, DecodeError>(r),
{
    match r {
        ServerRequestV::Ping => {
            assert(spec_encode_request(r).len() == 1);
        },
        ServerRequestV::Bye => {
            assert(spec_encode_request(r).len() == 1);
        },
        ServerRequestV::GetLogs(a) => {
            let b = spec_encode_request(r);
            let fs = a.filters;
            let k = fs.len() as int;
            lemma_i64_be_round_trip(a.from_block);
            lemma_i64_be_round_trip(a.to_block);
            lemma_u32_be_round_trip(fs.len() as u32);
            lemma_enc_filters_len(fs);
            assert(b.len() == 21 + 60 * k);
            assert(b[0] == TAG_GET_LOGS);
            assert(b.subrange(1, 9) =~= spec_i64_to_be_bytes(a.from_block));
            assert(b.subrange(9, 17) =~= spec_i64_to_be_bytes(a.to_block));
            assert(b.subrange(17, 21) =~= spec_u32_to_be_bytes(fs.len() as u32));
            assert(spec_i64_from_be_bytes(b.subrange(1, 9)) == a.from_block);
            assert(spec_i64_from_be_bytes(b.subrange(9, 17)) == a.to_block);
            assert(spec_u32_from_be_bytes(b.subrange(17, 21)) == fs.len() as u32);
            assert(b.subrange(21, 21 + 60 * k) =~= spec_enc_filters(fs));
            lemma_parse_filters_at(b, 21, fs);
        },
    }
}

/// A topics list, encoded one length-prefixed hash after the other.
pub open spec fn spec_enc_topics(ts: Seq<Seq<u8>>) -> Seq<u8>
    decreases ts.len(),
{
    if ts.len() == 0 {
        Seq::empty()
    } else {
        spec_enc_lp(ts[0]) + spec_enc_topics(ts.drop_first())
    }
}

/// Topic encoding distributes over concatenation.
pub proof fn lemma_enc_topics_concat(a: Seq<Seq<u8>>, b: Seq<Seq<u8>>)
    ensures
        spec_enc_topics(a + b) == spec_enc_topics(a) + spec_enc_topics(b),
    decreases a.len(),
{
    if a.len() == 0 {
        assert(a + b =~= b);
        assert(spec_enc_topics(a) + spec_enc_topics(b) =~= spec_enc_topics(b));
    } else {
        assert((a + b)[0] == a[0]);
        assert((a + b).drop_first() =~= a.drop_first() + b);
        lemma_enc_topics_concat(a.drop_first(), b);
        assert(spec_enc_lp(a[0]) + (spec_enc_topics(a.drop_first()) + spec_enc_topics(b)) =~= (
        spec_enc_lp(a[0]) + spec_enc_topics(a.drop_first())) + spec_enc_topics(b));
    }
}

/// The encoded bytes of one log record: the row payload of the wire
/// protocol. Fixed-width integers, length-prefixed byte fields, the topics
/// behind a 4-byte count.
pub open spec fn spec_encode_log(l: crate::engine::LogV) -> Seq<u8> {
    spec_i64_to_be_bytes(l.block_number) + spec_enc_lp(l.block_hash) + spec_i64_to_be_bytes(
        l.block_timestamp,
    ) + spec_i64_to_be_bytes(l.log_index) + spec_enc_lp(l.tx_hash) + spec_i64_to_be_bytes(
        l.tx_index,
    ) + spec_enc_lp(l.address) + spec_u32_to_be_bytes(l.topics.len() as u32) + spec_enc_topics(
        l.topics,
    ) + spec_enc_lp(l.data)
}

/// A log the codec can write: its topics count and data length fit the
/// 32-bit fields of the wire format.
pub open spec fn log_encodable(l: crate::engine::LogV) -> bool {
    l.topics.len() <= u32::MAX && l.data.len() <= u32::MAX
}

/// Encode one log record as a row payload.
pub fn encode_log(l: &crate::engine::Log) -> (out: Vec<u8>)
    requires
        log_encodable(l@),
    ensures
        out@ == spec_encode_log(l@),
{
    let ghost tv = l@.topics;
    let mut out: Vec<u8> = Vec::new();
    push_i64_be(&mut out, l.block_number);
    push_lp(&mut out, l.block_hash.bytes().as_slice());
    push_i64_be(&mut out, l.block_timestamp);
    push_i64_be(&mut out, l.log_index);
    push_lp(&mut out, l.tx_hash.bytes().as_slice());
    push_i64_be(&mut out, l.tx_index);
    push_lp(&mut out, l.address.bytes().as_slice());
    push_u32_be(&mut out, l.topics.len() as u32);
    let ghost head = out@;
    let mut i: usize = 0;
    while i < l.topics.len()
        invariant
            0 <= i <= l.topics@.len(),
            tv == crate::engine::topics_view(l.topics@),
            tv.len() == l.topics@.len(),
            out@ == head + spec_enc_topics(tv.take(i as int)),
        decreases l.topics@.len() - i,
    {
        let t = &l.topics[i];
        proof {
            assert(tv[i as int] == t@);
        }
        push_lp(&mut out, t.bytes().as_slice());
        proof {
            assert(tv.take(i + 1) =~= tv.take(i as int) + seq![tv[i as int]]);
            lemma_enc_topics_concat(tv.take(i as int), seq![tv[i as int]]);
            assert(seq![tv[i as int]].drop_first() =~= Seq::<Seq<u8>>::empty());
            assert(spec_enc_topics(Seq::<Seq<u8>>::empty()) == Seq::<u8>::empty());
            assert(spec_enc_topics(seq![tv[i as int]]) =~= spec_enc_lp(tv[i as int]));
            assert(out@ =~= head + spec_enc_topics(tv.take(i + 1)));
        }
        i += 1;
    }
    push_lp(&mut out, l.data.as_slice());
    proof {
        assert(tv.take(tv.len() as int) =~= tv);
        assert(out@ =~= spec_encode_log(l@));
    }
    out
}

/// Put a payload behind its 4-byte big-endian length header.
pub fn frame_payload(payload: &[u8]) -> (out: Vec<u8>)
    requires
        payload@.len() <= u32::MAX,
    ensures
        out@ == spec_frame(payload@),
{
    let mut out: Vec<u8> = Vec::new();
    push_lp(&mut out, payload);
    proof {
        assert(out@ =~= spec_frame(payload@));
    }
    out
}

} // verus!
