use engine_core::codec::encode_request;
use engine_core::engine::{assemble_results, Error, RawLog};
use engine_core::msg::{GetLogsArg, ServerRequest, ServerResponse};
use engine_core::session::{dispatch_request, handle_frame, respond_get_logs, ResponseWriter,
    SessionState};
use engine_core::types::Address;

fn addr(b: u8) -> Address {
    Address::from_bytes(vec![b; 20]).unwrap()
}

fn hash(b: u8) -> engine_core::types::Hash {
    engine_core::types::Hash::from_bytes(vec![b; 32]).unwrap()
}

fn raw(address: u8, topic: u8) -> RawLog {
    RawLog {
        block_number: Some(7),
        block_hash: Some(hash(0x11)),
        block_timestamp: None,
        log_index: Some(0),
        tx_hash: Some(hash(0x22)),
        tx_index: Some(3),
        address: Some(addr(address)),
        topics: vec![hash(topic)],
        data: vec![],
    }
}

#[test]
fn ping_yields_one_pong_row_then_end_one() {
    let (frames, query, state) = dispatch_request(ServerRequest::Ping);
    assert!(query.is_none());
    assert_eq!(state, SessionState::AwaitingRequest);
    assert_eq!(frames.len(), 2);
    match &frames[0] {
        ServerResponse::Row(payload) => assert_eq!(payload, b"Pong"),
        _ => panic!("expected a Row frame first"),
    }
    assert!(matches!(frames[1], ServerResponse::End(1)));
}

#[test]
fn bye_yields_no_frames_and_closes() {
    let (frames, query, state) = dispatch_request(ServerRequest::Bye);
    assert!(frames.is_empty());
    assert!(query.is_none());
    assert_eq!(state, SessionState::Closed);
}

#[test]
fn valid_query_is_handed_on_without_frames() {
    let arg = GetLogsArg { from_block: 100, to_block: 100, filters: vec![] };
    let (frames, query, state) = dispatch_request(ServerRequest::GetLogs(arg));
    assert!(frames.is_empty());
    assert_eq!(state, SessionState::AwaitingRequest);
    let q = query.unwrap();
    assert_eq!((q.from_block, q.to_block), (100, 100));
}

#[test]
fn invalid_range_yields_error_then_end_zero() {
    let arg = GetLogsArg { from_block: 10, to_block: 5, filters: vec![] };
    let (frames, query, state) = dispatch_request(ServerRequest::GetLogs(arg));
    assert!(query.is_none());
    assert_eq!(state, SessionState::AwaitingRequest);
    assert_eq!(frames.len(), 2);
    match &frames[0] {
        ServerResponse::Error(msg) => assert_eq!(msg, b"invalid block range"),
        _ => panic!("expected an Error frame first"),
    }
    assert!(matches!(frames[1], ServerResponse::End(0)));
}

#[test]
fn negative_from_block_is_invalid() {
    let arg = GetLogsArg { from_block: -1, to_block: 5, filters: vec![] };
    let (frames, query, _) = dispatch_request(ServerRequest::GetLogs(arg));
    assert!(query.is_none());
    assert_eq!(frames.len(), 2);
    assert!(matches!(frames[1], ServerResponse::End(0)));
}

#[test]
fn undecodable_frame_is_fatal_and_closes() {
    let (frames, query, state) = handle_frame(&[0xff, 0x00]);
    assert!(query.is_none());
    assert_eq!(state, SessionState::Closed);
    assert_eq!(frames.len(), 1);
    match &frames[0] {
        ServerResponse::Fatal(msg) => assert_eq!(msg, b"unknown request tag"),
        _ => panic!("expected a Fatal frame"),
    }
}

#[test]
fn handle_frame_decodes_and_dispatches() {
    let bytes = encode_request(&ServerRequest::Ping);
    let (frames, query, state) = handle_frame(&bytes);
    assert!(query.is_none());
    assert_eq!(state, SessionState::AwaitingRequest);
    assert_eq!(frames.len(), 2);
    assert!(matches!(frames[1], ServerResponse::End(1)));
}

#[test]
fn empty_result_stream_is_exactly_end_zero() {
    // A query over an upstream with no logs in range: one End(0), no Rows.
    let filters: Vec<(Address, engine_core::types::Hash)> = vec![];
    let chunks: Vec<Result<Vec<RawLog>, Error>> = vec![Ok(vec![])];
    let items = assemble_results(&chunks, &filters);
    let frames = respond_get_logs(&items);
    assert_eq!(frames.len(), 1);
    assert!(matches!(frames[0], ServerResponse::End(0)));
}

#[test]
fn rows_then_honest_end_count() {
    let filters: Vec<(Address, engine_core::types::Hash)> = vec![];
    let chunks = vec![Ok(vec![raw(1, 2), raw(3, 4)])];
    let items = assemble_results(&chunks, &filters);
    let frames = respond_get_logs(&items);
    assert_eq!(frames.len(), 3);
    assert!(matches!(frames[0], ServerResponse::Row(_)));
    assert!(matches!(frames[1], ServerResponse::Row(_)));
    assert!(matches!(frames[2], ServerResponse::End(2)));
}

#[test]
fn failed_chunk_of_three_still_yields_the_other_rows() {
    // Three chunks, the middle fetch timed out: rows for the two chunks
    // that succeeded, one Error frame for the failed one, and an End count
    // that reflects only the rows.
    let filters: Vec<(Address, engine_core::types::Hash)> = vec![];
    let chunks = vec![
        Ok(vec![raw(1, 2)]),
        Err(Error::Transport { from_block: 2000, to_block: 3999 }),
        Ok(vec![raw(5, 6)]),
    ];
    let items = assemble_results(&chunks, &filters);
    let frames = respond_get_logs(&items);
    assert_eq!(frames.len(), 4);
    assert!(matches!(frames[0], ServerResponse::Row(_)));
    match &frames[1] {
        ServerResponse::Error(msg) => assert_eq!(msg, b"chunk fetch failed"),
        _ => panic!("expected an Error frame for the failed chunk"),
    }
    assert!(matches!(frames[2], ServerResponse::Row(_)));
    assert!(matches!(frames[3], ServerResponse::End(2)));
}

#[test]
fn malformed_record_yields_error_frame_in_place() {
    let filters: Vec<(Address, engine_core::types::Hash)> = vec![];
    let mut bad = raw(1, 2);
    bad.block_hash = None;
    let chunks = vec![Ok(vec![bad, raw(3, 4)])];
    let items = assemble_results(&chunks, &filters);
    let frames = respond_get_logs(&items);
    assert_eq!(frames.len(), 3);
    match &frames[0] {
        ServerResponse::Error(msg) => assert_eq!(msg, b"malformed log record"),
        _ => panic!("expected an Error frame for the malformed record"),
    }
    assert!(matches!(frames[1], ServerResponse::Row(_)));
    assert!(matches!(frames[2], ServerResponse::End(1)));
}

#[test]
fn end_frame_is_always_last_and_unique() {
    let filters: Vec<(Address, engine_core::types::Hash)> = vec![];
    let chunks = vec![
        Ok(vec![raw(1, 2)]),
        Err(Error::Transport { from_block: 0, to_block: 0 }),
    ];
    let items = assemble_results(&chunks, &filters);
    let frames = respond_get_logs(&items);
    let ends = frames.iter().filter(|f| matches!(f, ServerResponse::End(_))).count();
    assert_eq!(ends, 1);
    assert!(matches!(frames.last().unwrap(), ServerResponse::End(_)));
}

#[test]
fn writer_counts_rows_and_ends_once() {
    let mut w = ResponseWriter::new();
    w.write_row(vec![1]);
    w.write_error(vec![2]);
    w.write_row(vec![3]);
    w.write_end();
    let frames = w.into_frames();
    assert_eq!(frames.len(), 4);
    assert!(matches!(frames[3], ServerResponse::End(2)));
}

#[test]
fn identical_requests_give_identical_frames() {
    let filters = vec![(addr(0xaa), hash(0xbb))];
    let chunks = vec![Ok(vec![raw(0xaa, 0xbb), raw(0x01, 0x02)])];
    let first = respond_get_logs(&assemble_results(&chunks, &filters));
    let second = respond_get_logs(&assemble_results(&chunks, &filters));
    assert_eq!(first.len(), second.len());
    for (a, b) in first.iter().zip(second.iter()) {
        match (a, b) {
            (ServerResponse::Row(x), ServerResponse::Row(y)) => assert_eq!(x, y),
            (ServerResponse::End(x), ServerResponse::End(y)) => assert_eq!(x, y),
            (ServerResponse::Error(x), ServerResponse::Error(y)) => assert_eq!(x, y),
            _ => panic!("frame kinds differ"),
        }
    }
}

#[test]
fn empty_filters_count_all_raw_logs() {
    // No filtering with an empty filter set: the End count equals the
    // number of raw logs over all chunks.
    let filters: Vec<(Address, engine_core::types::Hash)> = vec![];
    let chunks = vec![Ok(vec![raw(1, 2), raw(3, 4)]), Ok(vec![raw(5, 6)])];
    let items = assemble_results(&chunks, &filters);
    let frames = respond_get_logs(&items);
    assert!(matches!(frames.last().unwrap(), ServerResponse::End(3)));
    let rows = frames.iter().filter(|f| matches!(f, ServerResponse::Row(_))).count();
    assert_eq!(rows, 3);
}
