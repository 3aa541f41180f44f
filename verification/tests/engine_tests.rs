use engine_core::engine::{assemble_results, coarse_addresses, coarse_topics, log_matches,
    normalize_log, plan_chunks, process_chunk, raw_matches, Error, MissingField, RawLog};
use engine_core::types::Address;

fn addr(b: u8) -> Address {
    Address::from_bytes(vec![b; 20]).unwrap()
}

fn hash(b: u8) -> engine_core::types::Hash {
    engine_core::types::Hash::from_bytes(vec![b; 32]).unwrap()
}

fn raw(address: u8, topic: Option<u8>) -> RawLog {
    RawLog {
        block_number: Some(7),
        block_hash: Some(hash(0x11)),
        block_timestamp: None,
        log_index: Some(0),
        tx_hash: Some(hash(0x22)),
        tx_index: Some(3),
        address: Some(addr(address)),
        topics: match topic {
            Some(t) => vec![hash(t)],
            None => vec![],
        },
        data: vec![1, 2, 3],
    }
}

#[test]
fn plan_single_chunk() {
    let plan = plan_chunks(0, 1999);
    assert_eq!(plan.len(), 1);
    assert_eq!((plan[0].start, plan[0].end), (0, 1999));
}

#[test]
fn plan_single_block() {
    let plan = plan_chunks(100, 100);
    assert_eq!(plan.len(), 1);
    assert_eq!((plan[0].start, plan[0].end), (100, 100));
}

#[test]
fn plan_short_last_chunk() {
    let plan = plan_chunks(0, 5000);
    assert_eq!(plan.len(), 3);
    assert_eq!((plan[0].start, plan[0].end), (0, 1999));
    assert_eq!((plan[1].start, plan[1].end), (2000, 3999));
    assert_eq!((plan[2].start, plan[2].end), (4000, 5000));
}

#[test]
fn plan_exact_multiple() {
    let plan = plan_chunks(1000, 4999);
    assert_eq!(plan.len(), 2);
    assert_eq!((plan[0].start, plan[0].end), (1000, 2999));
    assert_eq!((plan[1].start, plan[1].end), (3000, 4999));
}

#[test]
fn empty_filters_match_everything() {
    let filters: Vec<(Address, engine_core::types::Hash)> = vec![];
    assert!(raw_matches(&raw(0xaa, Some(0xbb)), &filters));
    assert!(raw_matches(&raw(0xaa, None), &filters));
}

#[test]
fn matching_filter_hits() {
    let filters = vec![(addr(0xaa), hash(0xbb))];
    assert!(raw_matches(&raw(0xaa, Some(0xbb)), &filters));
}

#[test]
fn wrong_address_or_topic_misses() {
    let filters = vec![(addr(0xaa), hash(0xbb))];
    assert!(!raw_matches(&raw(0xcc, Some(0xbb)), &filters));
    assert!(!raw_matches(&raw(0xaa, Some(0xcc)), &filters));
}

#[test]
fn no_topics_never_matches_nonempty_filters() {
    let filters = vec![(addr(0xaa), hash(0xbb))];
    assert!(!raw_matches(&raw(0xaa, None), &filters));
}

#[test]
fn second_filter_of_the_or_set_hits() {
    let filters = vec![(addr(0x01), hash(0x02)), (addr(0xaa), hash(0xbb))];
    assert!(raw_matches(&raw(0xaa, Some(0xbb)), &filters));
}

#[test]
fn log_matches_agrees_with_raw() {
    let filters = vec![(addr(0xaa), hash(0xbb))];
    let l = normalize_log(&raw(0xaa, Some(0xbb))).unwrap();
    assert!(log_matches(&l, &filters));
    let l = normalize_log(&raw(0xcc, Some(0xbb))).unwrap();
    assert!(!log_matches(&l, &filters));
}

#[test]
fn normalize_fills_fields_and_defaults_timestamp() {
    let l = normalize_log(&raw(0xaa, Some(0xbb))).unwrap();
    assert_eq!(l.block_number, 7);
    assert_eq!(l.block_timestamp, 0);
    assert_eq!(l.log_index, 0);
    assert_eq!(l.tx_index, 3);
    assert_eq!(l.address.bytes(), &vec![0xaa; 20]);
    assert_eq!(l.topics.len(), 1);
    assert_eq!(l.data, vec![1, 2, 3]);
}

#[test]
fn normalize_reports_first_missing_field() {
    let mut r = raw(0xaa, Some(0xbb));
    r.block_number = None;
    assert!(matches!(normalize_log(&r), Err(Error::Malformed(MissingField::BlockNumber))));

    let mut r = raw(0xaa, Some(0xbb));
    r.block_hash = None;
    assert!(matches!(normalize_log(&r), Err(Error::Malformed(MissingField::BlockHash))));

    let mut r = raw(0xaa, Some(0xbb));
    r.log_index = None;
    assert!(matches!(normalize_log(&r), Err(Error::Malformed(MissingField::LogIndex))));

    let mut r = raw(0xaa, Some(0xbb));
    r.tx_hash = None;
    assert!(matches!(normalize_log(&r), Err(Error::Malformed(MissingField::TxHash))));

    let mut r = raw(0xaa, Some(0xbb));
    r.tx_index = None;
    assert!(matches!(normalize_log(&r), Err(Error::Malformed(MissingField::TxIndex))));

    let mut r = raw(0xaa, Some(0xbb));
    r.address = None;
    assert!(matches!(normalize_log(&r), Err(Error::Malformed(MissingField::Address))));
}

#[test]
fn process_chunk_filters_and_keeps_order() {
    let filters = vec![(addr(0xaa), hash(0xbb))];
    let raws = vec![raw(0xaa, Some(0xbb)), raw(0xcc, Some(0xbb)), raw(0xaa, Some(0xbb))];
    let items = process_chunk(&raws, &filters);
    assert_eq!(items.len(), 2);
    assert!(items.iter().all(|i| i.is_ok()));
}

#[test]
fn process_chunk_surfaces_malformed_matching_record() {
    let filters = vec![(addr(0xaa), hash(0xbb))];
    let mut bad = raw(0xaa, Some(0xbb));
    bad.tx_hash = None;
    let raws = vec![bad, raw(0xaa, Some(0xbb))];
    let items = process_chunk(&raws, &filters);
    assert_eq!(items.len(), 2);
    assert!(matches!(items[0], Err(Error::Malformed(MissingField::TxHash))));
    assert!(items[1].is_ok());
}

#[test]
fn assemble_keeps_chunk_order_and_surfaces_chunk_errors() {
    let filters: Vec<(Address, engine_core::types::Hash)> = vec![];
    let chunks = vec![
        Ok(vec![raw(0x01, Some(0x02))]),
        Err(Error::Transport { from_block: 2000, to_block: 3999 }),
        Ok(vec![raw(0x03, Some(0x04)), raw(0x05, Some(0x06))]),
    ];
    let items = assemble_results(&chunks, &filters);
    assert_eq!(items.len(), 4);
    assert!(items[0].is_ok());
    assert!(matches!(items[1], Err(Error::Transport { from_block: 2000, to_block: 3999 })));
    assert!(items[2].is_ok());
    assert!(items[3].is_ok());
    assert_eq!(items[0].as_ref().unwrap().address.bytes(), &vec![0x01; 20]);
    assert_eq!(items[2].as_ref().unwrap().address.bytes(), &vec![0x03; 20]);
    assert_eq!(items[3].as_ref().unwrap().address.bytes(), &vec![0x05; 20]);
}

#[test]
fn identical_requests_yield_identical_items() {
    let filters = vec![(addr(0xaa), hash(0xbb))];
    let chunks = vec![Ok(vec![raw(0xaa, Some(0xbb)), raw(0xcc, Some(0xdd))])];
    let first = assemble_results(&chunks, &filters);
    let second = assemble_results(&chunks, &filters);
    assert_eq!(first.len(), second.len());
    for (a, b) in first.iter().zip(second.iter()) {
        match (a, b) {
            (Ok(x), Ok(y)) => {
                assert_eq!(x.block_number, y.block_number);
                assert_eq!(x.address.bytes(), y.address.bytes());
                assert_eq!(x.data, y.data);
            },
            (Err(x), Err(y)) => assert_eq!(x, y),
            _ => panic!("streams differ"),
        }
    }
}

#[test]
fn chunked_query_equals_manual_partition() {
    // The same upstream data, fetched as the one plan of [0, 5999] and as
    // the plans of [0, 1999] and [2000, 5999]; the assembled streams agree.
    let filters: Vec<(Address, engine_core::types::Hash)> = vec![];
    let per_chunk = |start: i64| -> Result<Vec<RawLog>, Error> {
        Ok(vec![raw((start / 2000) as u8 + 1, Some(0x0f))])
    };
    let whole: Vec<Result<Vec<RawLog>, Error>> =
        vec![per_chunk(0), per_chunk(2000), per_chunk(4000)];
    let left: Vec<Result<Vec<RawLog>, Error>> = vec![per_chunk(0)];
    let right: Vec<Result<Vec<RawLog>, Error>> = vec![per_chunk(2000), per_chunk(4000)];

    let one_call = assemble_results(&whole, &filters);
    let mut stitched = assemble_results(&left, &filters);
    stitched.extend(assemble_results(&right, &filters));

    assert_eq!(one_call.len(), stitched.len());
    for (a, b) in one_call.iter().zip(stitched.iter()) {
        let (a, b) = (a.as_ref().unwrap(), b.as_ref().unwrap());
        assert_eq!(a.address.bytes(), b.address.bytes());
    }
}

#[test]
fn coarse_addresses_deduplicates() {
    let filters = vec![
        (addr(0xaa), hash(0x01)),
        (addr(0xbb), hash(0x02)),
        (addr(0xaa), hash(0x03)),
    ];
    let addrs = coarse_addresses(&filters);
    assert_eq!(addrs.len(), 2);
    assert_eq!(addrs[0].bytes(), &vec![0xaa; 20]);
    assert_eq!(addrs[1].bytes(), &vec![0xbb; 20]);
}

#[test]
fn coarse_topics_deduplicates() {
    let filters = vec![
        (addr(0x01), hash(0xaa)),
        (addr(0x02), hash(0xaa)),
        (addr(0x03), hash(0xbb)),
    ];
    let topics = coarse_topics(&filters);
    assert_eq!(topics.len(), 2);
    assert_eq!(topics[0].bytes(), &vec![0xaa; 32]);
    assert_eq!(topics[1].bytes(), &vec![0xbb; 32]);
}
