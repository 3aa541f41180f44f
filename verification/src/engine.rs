//! Log fetch pipeline. A block range is cut into fixed-size chunks; each
//! chunk is fetched upstream with a coarse, set-deduplicated filter; the raw
//! records that come back are post-filtered exactly, normalized into `Log`
//! records, and flattened in chunk order. A chunk whose fetch failed, or a
//! record missing a required field, contributes an error item in place —
//! never a silent gap.
//!
//! The upstream call itself is I/O and lives outside this crate; everything
//! here takes the fetched chunk results as plain values, so each function is
//! verified for every outcome of the fetch.

use vstd::prelude::*;

use crate::codec::FilterV;
use crate::msg::filters_view;
use crate::types::Address;

verus! {

/// Width of one chunk in blocks. A tunable bound, not an architectural
/// necessity: it keeps each upstream query inside typical range caps.
pub const CHUNK_SIZE: i64 = 2000;

/// How many chunk fetches may be in flight at once. The runner of the fetch
/// loop reads this tunable; results are still emitted in chunk start-order.
pub const CHUNK_CONCURRENCY: usize = 10;

/// A required field a raw upstream record failed to provide.
#[derive(Clone, Copy, Debug, PartialEq, Eq, Structural)]
pub enum MissingField {
    BlockNumber,
    BlockHash,
    LogIndex,
    TxHash,
    TxIndex,
    Address,
}

/// Why an item of the result stream is an error instead of a log.
#[derive(Clone, Copy, Debug, PartialEq, Eq, Structural)]
pub enum Error {
    /// One raw record lacked a required field; only that record is lost.
    Malformed(MissingField),
    /// One chunk's upstream fetch failed (timeout, transport); the range
    /// says which chunk. Only that chunk's contribution is lost.
    Transport { from_block: i64, to_block: i64 },
}

/// A raw log record as the upstream reports it: every required field may be
/// absent, and then normalization rejects the record.
pub struct RawLog {
    pub block_number: Option<i64>,
    pub block_hash: Option<crate::types::Hash>,
    pub block_timestamp: Option<i64>,
    pub log_index: Option<i64>,
    pub tx_hash: Option<crate::types::Hash>,
    pub tx_index: Option<i64>,
    pub address: Option<Address>,
    pub topics: Vec<crate::types::Hash>,
    pub data: Vec<u8>,
}

/// The normalized result record. Immutable once constructed.
pub struct Log {
    pub block_number: i64,
    pub block_hash: crate::types::Hash,
    pub block_timestamp: i64,
    pub log_index: i64,
    pub tx_hash: crate::types::Hash,
    pub tx_index: i64,
    pub address: Address,
    pub topics: Vec<crate::types::Hash>,
    pub data: Vec<u8>,
}

/// Mathematical view of a raw record.
pub ghost struct RawLogV {
    pub block_number: Option<i64>,
    pub block_hash: Option<Seq<u8>>,
    pub block_timestamp: Option<i64>,
    pub log_index: Option<i64>,
    pub tx_hash: Option<Seq<u8>>,
    pub tx_index: Option<i64>,
    pub address: Option<Seq<u8>>,
    pub topics: Seq<Seq<u8>>,
    pub data: Seq<u8>,
}

/// Mathematical view of a normalized record.
pub ghost struct LogV {
    pub block_number: i64,
    pub block_hash: Seq<u8>,
    pub block_timestamp: i64,
    pub log_index: i64,
    pub tx_hash: Seq<u8>,
    pub tx_index: i64,
    pub address: Seq<u8>,
    pub topics: Seq<Seq<u8>>,
    pub data: Seq<u8>,
}

/// The views of a topics list.
pub open spec fn topics_view(s: Seq<crate::types::Hash>) -> Seq<Seq<u8>> {
    s.map_values(|h: crate::types::Hash| h@)
}

/// The view of an optional hash.
pub open spec fn opt_hash_view(o: Option<crate::types::Hash>) -> Option<Seq<u8>> {
    match o {
        Some(h) => Some(h@),
        None => None,
    }
}

/// The view of an optional address.
pub open spec fn opt_addr_view(o: Option<Address>) -> Option<Seq<u8>> {
    match o {
        Some(a) => Some(a@),
        None => None,
    }
}

impl View for RawLog {
    type V = RawLogV;

    open spec fn view(&self) -> RawLogV {
        RawLogV {
            block_number: self.block_number,
            block_hash: opt_hash_view(self.block_hash),
            block_timestamp: self.block_timestamp,
            log_index: self.log_index,
            tx_hash: opt_hash_view(self.tx_hash),
            tx_index: self.tx_index,
            address: opt_addr_view(self.address),
            topics: topics_view(self.topics@),
            data: self.data@,
        }
    }
}

impl View for Log {
    type V = LogV;

    open spec fn view(&self) -> LogV {
        LogV {
            block_number: self.block_number,
            block_hash: self.block_hash@,
            block_timestamp: self.block_timestamp,
            log_index: self.log_index,
            tx_hash: self.tx_hash@,
            tx_index: self.tx_index,
            address: self.address@,
            topics: topics_view(self.topics@),
            data: self.data@,
        }
    }
}

/// One filter pair hits: the address matches and the first topic equals the
/// filter's hash. A record with no topics hits no filter.
pub open spec fn spec_filter_hit(addr: Seq<u8>, topics: Seq<Seq<u8>>, f: FilterV) -> bool {
    f.0 == addr && topics.len() > 0 && topics[0] == f.1
}

/// The exact filter: with no filters every record matches (no restriction);
/// otherwise some filter pair must hit.
pub open spec fn spec_matches(addr: Seq<u8>, topics: Seq<Seq<u8>>, filters: Seq<FilterV>) -> bool {
    filters.len() == 0 || exists|i: int|
        0 <= i < filters.len() && spec_filter_hit(addr, topics, #[trigger] filters[i])
}

/// The exact filter on a raw record: a record with no address can only pass
/// the empty (match-all) filter set.
pub open spec fn spec_raw_matches(r: RawLogV, filters: Seq<FilterV>) -> bool {
    filters.len() == 0 || (match r.address {
        Some(a) => spec_matches(a, r.topics, filters),
        None => false,
    })
}

/// Normalization: every required field must be present; the timestamp alone
/// may be absent and then becomes zero. The error names the first missing
/// field in record order.
pub open spec fn spec_normalize(r: RawLogV) -> Result<LogV, Error> {
    if r.block_number is None {
        Err(Error::Malformed(MissingField::BlockNumber))
    } else if r.block_hash is None {
        Err(Error::Malformed(MissingField::BlockHash))
    } else if r.log_index is None {
        Err(Error::Malformed(MissingField::LogIndex))
    } else if r.tx_hash is None {
        Err(Error::Malformed(MissingField::TxHash))
    } else if r.tx_index is None {
        Err(Error::Malformed(MissingField::TxIndex))
    } else if r.address is None {
        Err(Error::Malformed(MissingField::Address))
    } else {
        Ok(
            LogV {
                block_number: r.block_number.unwrap(),
                block_hash: r.block_hash.unwrap(),
                block_timestamp: match r.block_timestamp {
                    Some(t) => t,
                    None => 0,
                },
                log_index: r.log_index.unwrap(),
                tx_hash: r.tx_hash.unwrap(),
                tx_index: r.tx_index.unwrap(),
                address: r.address.unwrap(),
                topics: r.topics,
                data: r.data,
            },
        )
    }
}

/// One chunk's contribution: keep exactly the raw records that pass the
/// exact filter, each normalized in place, in upstream order.
pub open spec fn spec_process_chunk(raws: Seq<RawLogV>, filters: Seq<FilterV>) -> Seq<
    Result<LogV, Error>,
>
    decreases raws.len(),
{
    if raws.len() == 0 {
        Seq::empty()
    } else {
        (if spec_raw_matches(raws[0], filters) {
            seq![spec_normalize(raws[0])]
        } else {
            Seq::empty()
        }) + spec_process_chunk(raws.drop_first(), filters)
    }
}

/// What one fetched chunk contributes to the stream: its processed records,
/// or a single error item if the fetch itself failed.
pub open spec fn spec_chunk_items(
    c: Result<Seq<RawLogV>, Error>,
    filters: Seq<FilterV>,
) -> Seq<Result<LogV, Error>> {
    match c {
        Ok(raws) => spec_process_chunk(raws, filters),
        Err(e) => seq![Err(e)],
    }
}

/// The whole stream: chunk contributions flattened in chunk order.
pub open spec fn spec_assemble(
    chunks: Seq<Result<Seq<RawLogV>, Error>>,
    filters: Seq<FilterV>,
) -> Seq<Result<LogV, Error>>
    decreases chunks.len(),
{
    if chunks.len() == 0 {
        Seq::empty()
    } else {
        spec_chunk_items(chunks[0], filters) + spec_assemble(chunks.drop_first(), filters)
    }
}

/// The views of a list of result items.
pub open spec fn items_view(s: Seq<Result<Log, Error>>) -> Seq<Result<LogV, Error>> {
    s.map_values(
        |r: Result<Log, Error>|
            match r {
                Ok(l) => Ok(l@),
                Err(e) => Err(e),
            },
    )
}

/// The views of a list of raw records.
pub open spec fn raws_view(s: Seq<RawLog>) -> Seq<RawLogV> {
    s.map_values(|r: RawLog| r@)
}

/// The views of a list of fetched chunk results.
pub open spec fn chunks_view(s: Seq<Result<Vec<RawLog>, Error>>) -> Seq<
    Result<Seq<RawLogV>, Error>,
> {
    s.map_values(
        |c: Result<Vec<RawLog>, Error>|
            match c {
                Ok(v) => Ok(raws_view(v@)),
                Err(e) => Err(e),
            },
    )
}

/// Does this log pass the exact filter?
pub fn log_matches(log: &Log, filters: &Vec<(Address, crate::types::Hash)>) -> (r: bool)
    ensures
        r == spec_matches(log@.address, log@.topics, filters_view(filters@)),
{
    let ghost fv = filters_view(filters@);
    if filters.len() == 0 {
        return true;
    }
    if log.topics.len() == 0 {
        return false;
    }
    let first_topic = &log.topics[0];
    let mut i: usize = 0;
    while i < filters.len()
        invariant
            0 <= i <= filters.len(),
            fv == filters_view(filters@),
            fv.len() == filters@.len(),
            fv.len() > 0,
            log@.topics.len() > 0,
            first_topic@ == log@.topics[0],
            forall|j: int| 0 <= j < i ==> !spec_filter_hit(log@.address, log@.topics, fv[j]),
        decreases filters@.len() - i,
    {
        let f = &filters[i];
        proof {
            assert(fv[i as int] == (f.0@, f.1@));
        }
        if crate::types::bytes_eq(f.0.bytes().as_slice(), log.address.bytes().as_slice())
            && crate::types::bytes_eq(f.1.bytes().as_slice(), first_topic.bytes().as_slice()) {
            proof {
                assert(spec_filter_hit(log@.address, log@.topics, fv[i as int]));
            }
            return true;
        }
        i += 1;
    }
    false
}

/// Does this raw record pass the exact filter?
pub fn raw_matches(raw: &RawLog, filters: &Vec<(Address, crate::types::Hash)>) -> (r: bool)
    ensures
        r == spec_raw_matches(raw@, filters_view(filters@)),
{
    let ghost fv = filters_view(filters@);
    if filters.len() == 0 {
        return true;
    }
    let addr = match &raw.address {
        Some(a) => a,
        None => {
            return false;
        },
    };
    if raw.topics.len() == 0 {
        return false;
    }
    let first_topic = &raw.topics[0];
    let mut i: usize = 0;
    while i < filters.len()
        invariant
            0 <= i <= filters.len(),
            fv == filters_view(filters@),
            fv.len() == filters@.len(),
            fv.len() > 0,
            raw@.address == Some(addr@),
            raw@.topics.len() > 0,
            first_topic@ == raw@.topics[0],
            forall|j: int| 0 <= j < i ==> !spec_filter_hit(addr@, raw@.topics, fv[j]),
        decreases filters@.len() - i,
    {
        let f = &filters[i];
        proof {
            assert(fv[i as int] == (f.0@, f.1@));
        }
        if crate::types::bytes_eq(f.0.bytes().as_slice(), addr.bytes().as_slice())
            && crate::types::bytes_eq(f.1.bytes().as_slice(), first_topic.bytes().as_slice()) {
            proof {
                assert(spec_filter_hit(addr@, raw@.topics, fv[i as int]));
            }
            return true;
        }
        i += 1;
    }
    false
}

/// Copy a byte vector.
fn clone_bytes(v: &Vec<u8>) -> (r: Vec<u8>)
    ensures
        r@ == v@,
{
    vstd::slice::slice_to_vec(v.as_slice())
}

/// Copy a topics list.
fn clone_topics(v: &Vec<crate::types::Hash>) -> (r: Vec<crate::types::Hash>)
    ensures
        topics_view(r@) == topics_view(v@),
{
    let mut r: Vec<crate::types::Hash> = Vec::new();
    let mut i: usize = 0;
    while i < v.len()
        invariant
            0 <= i <= v@.len(),
            r@.len() == i,
            forall|j: int| 0 <= j < i ==> r@[j]@ == v@[j]@,
        decreases v@.len() - i,
    {
        r.push(v[i].clone());
        i += 1;
    }
    proof {
        assert(topics_view(r@) =~= topics_view(v@));
    }
    r
}

/// Normalize one raw record, or say which required field is missing.
pub fn normalize_log(raw: &RawLog) -> (r: Result<Log, Error>)
    ensures
        match r {
            Ok(l) => spec_normalize(raw@) == Ok::<LogV, Error>(l@),
            Err(e) => spec_normalize(raw@) == Err::<LogV, Error>(e),
        },
{
    let block_number = match raw.block_number {
        Some(n) => n,
        None => {
            return Err(Error::Malformed(MissingField::BlockNumber));
        },
    };
    let block_hash = match &raw.block_hash {
        Some(h) => h.clone(),
        None => {
            return Err(Error::Malformed(MissingField::BlockHash));
        },
    };
    let log_index = match raw.log_index {
        Some(n) => n,
        None => {
            return Err(Error::Malformed(MissingField::LogIndex));
        },
    };
    let tx_hash = match &raw.tx_hash {
        Some(h) => h.clone(),
        None => {
            return Err(Error::Malformed(MissingField::TxHash));
        },
    };
    let tx_index = match raw.tx_index {
        Some(n) => n,
        None => {
            return Err(Error::Malformed(MissingField::TxIndex));
        },
    };
    let address = match &raw.address {
        Some(a) => a.clone(),
        None => {
            return Err(Error::Malformed(MissingField::Address));
        },
    };
    let block_timestamp = match raw.block_timestamp {
        Some(t) => t,
        None => 0,
    };
    Ok(
        Log {
            block_number,
            block_hash,
            block_timestamp,
            log_index,
            tx_hash,
            tx_index,
            address,
            topics: clone_topics(&raw.topics),
            data: clone_bytes(&raw.data),
        },
    )
}

/// Processing distributes over concatenation of raw record lists.
pub proof fn lemma_process_chunk_concat(a: Seq<RawLogV>, b: Seq<RawLogV>, filters: Seq<FilterV>)
    ensures
        spec_process_chunk(a + b, filters) == spec_process_chunk(a, filters)
            + spec_process_chunk(b, filters),
    decreases a.len(),
{
    if a.len() == 0 {
        assert(a + b =~= b);
        assert(spec_process_chunk(a, filters) + spec_process_chunk(b, filters)
            =~= spec_process_chunk(b, filters));
    } else {
        assert((a + b)[0] == a[0]);
        assert((a + b).drop_first() =~= a.drop_first() + b);
        lemma_process_chunk_concat(a.drop_first(), b, filters);
        let h = if spec_raw_matches(a[0], filters) {
            seq![spec_normalize(a[0])]
        } else {
            Seq::<Result<LogV, Error>>::empty()
        };
        assert(h + (spec_process_chunk(a.drop_first(), filters) + spec_process_chunk(b, filters))
            =~= (h + spec_process_chunk(a.drop_first(), filters)) + spec_process_chunk(b, filters));
    }
}

/// Assembly distributes over concatenation of chunk lists.
pub proof fn lemma_assemble_concat(
    a: Seq<Result<Seq<RawLogV>, Error>>,
    b: Seq<Result<Seq<RawLogV>, Error>>,
    filters: Seq<FilterV>,
)
    ensures
        spec_assemble(a + b, filters) == spec_assemble(a, filters) + spec_assemble(b, filters),
    decreases a.len(),
{
    if a.len() == 0 {
        assert(a + b =~= b);
        assert(spec_assemble(a, filters) + spec_assemble(b, filters) =~= spec_assemble(
            b,
            filters,
        ));
    } else {
        assert((a + b)[0] == a[0]);
        assert((a + b).drop_first() =~= a.drop_first() + b);
        lemma_assemble_concat(a.drop_first(), b, filters);
        assert(spec_chunk_items(a[0], filters) + (spec_assemble(a.drop_first(), filters)
            + spec_assemble(b, filters)) =~= (spec_chunk_items(a[0], filters) + spec_assemble(
            a.drop_first(),
            filters,
        )) + spec_assemble(b, filters));
    }
}

/// Filter and normalize one fetched chunk, in upstream order.
pub fn process_chunk(raws: &Vec<RawLog>, filters: &Vec<(Address, crate::types::Hash)>) -> (out:
    Vec<Result<Log, Error>>)
    ensures
        items_view(out@) == spec_process_chunk(raws_view(raws@), filters_view(filters@)),
{
    let ghost rv = raws_view(raws@);
    let ghost fv = filters_view(filters@);
    let mut out: Vec<Result<Log, Error>> = Vec::new();
    let mut i: usize = 0;
    while i < raws.len()
        invariant
            0 <= i <= raws@.len(),
            rv == raws_view(raws@),
            fv == filters_view(filters@),
            rv.len() == raws@.len(),
            items_view(out@) == spec_process_chunk(rv.take(i as int), fv),
        decreases raws@.len() - i,
    {
        let ghost prev = out@;
        let raw = &raws[i];
        proof {
            assert(rv[i as int] == raw@);
        }
        if raw_matches(raw, filters) {
            out.push(normalize_log(raw));
        }
        proof {
            assert(rv.take(i + 1) =~= rv.take(i as int) + seq![rv[i as int]]);
            lemma_process_chunk_concat(rv.take(i as int), seq![rv[i as int]], fv);
            assert(seq![rv[i as int]].drop_first() =~= Seq::<RawLogV>::empty());
            assert(spec_process_chunk(Seq::<RawLogV>::empty(), fv) == Seq::<
                Result<LogV, Error>,
            >::empty());
            assert(items_view(out@) =~= spec_process_chunk(rv.take(i + 1), fv));
        }
        i += 1;
    }
    proof {
        assert(rv.take(rv.len() as int) =~= rv);
    }
    out
}

/// Move every item of `items` onto the end of `out`.
fn append_items(out: &mut Vec<Result<Log, Error>>, items: Vec<Result<Log, Error>>)
    ensures
        items_view(final(out)@) == items_view(old(out)@) + items_view(items@),
{
    let ghost orig = items@;
    let mut rest = items;
    while rest.len() > 0
        invariant
            items_view(out@) + items_view(rest@) == items_view(old(out)@) + items_view(orig),
        decreases rest@.len(),
    {
        let ghost out_before = out@;
        let ghost rest_before = rest@;
        let item = rest.remove(0);
        out.push(item);
        proof {
            assert(items_view(out@) =~= items_view(out_before) + seq![items_view(rest_before)[0]]);
            assert(items_view(rest_before) =~= seq![items_view(rest_before)[0]] + items_view(
                rest@,
            ));
            assert(items_view(out@) + items_view(rest@) =~= items_view(out_before) + items_view(
                rest_before,
            ));
        }
    }
    proof {
        assert(items_view(rest@) =~= Seq::<Result<LogV, Error>>::empty());
        assert(items_view(out@) =~= items_view(out@) + items_view(rest@));
    }
}

/// Flatten fetched chunk results, in chunk order: each successful chunk is
/// filtered and normalized; each failed chunk contributes one error item in
/// its place.
pub fn assemble_results(
    chunks: &Vec<Result<Vec<RawLog>, Error>>,
    filters: &Vec<(Address, crate::types::Hash)>,
) -> (out: Vec<Result<Log, Error>>)
    ensures
        items_view(out@) == spec_assemble(chunks_view(chunks@), filters_view(filters@)),
{
    let ghost cv = chunks_view(chunks@);
    let ghost fv = filters_view(filters@);
    let mut out: Vec<Result<Log, Error>> = Vec::new();
    let mut i: usize = 0;
    while i < chunks.len()
        invariant
            0 <= i <= chunks@.len(),
            cv == chunks_view(chunks@),
            fv == filters_view(filters@),
            cv.len() == chunks@.len(),
            items_view(out@) == spec_assemble(cv.take(i as int), fv),
        decreases chunks@.len() - i,
    {
        let ghost prev = out@;
        match &chunks[i] {
            Ok(raws) => {
                proof {
                    assert(cv[i as int] == Ok::<Seq<RawLogV>, Error>(raws_view(raws@)));
                }
                let items = process_chunk(raws, filters);
                append_items(&mut out, items);
            },
            Err(e) => {
                out.push(Err(*e));
                proof {
                    assert(cv[i as int] == Err::<Seq<RawLogV>, Error>(*e));
                    assert(items_view(out@) =~= items_view(prev) + seq![
                        Err::<LogV, Error>(*e),
                    ]);
                }
            },
        }
        proof {
            assert(cv.take(i + 1) =~= cv.take(i as int) + seq![cv[i as int]]);
            lemma_assemble_concat(cv.take(i as int), seq![cv[i as int]], fv);
            assert(seq![cv[i as int]].drop_first() =~= Seq::<Result<Seq<RawLogV>, Error>>::empty());
            assert(spec_assemble(Seq::<Result<Seq<RawLogV>, Error>>::empty(), fv) == Seq::<
                Result<LogV, Error>,
            >::empty());
            assert(spec_assemble(seq![cv[i as int]], fv) =~= spec_chunk_items(cv[i as int], fv));
            assert(items_view(out@) =~= spec_assemble(cv.take(i + 1), fv));
        }
        i += 1;
    }
    proof {
        assert(cv.take(cv.len() as int) =~= cv);
    }
    out
}

/// One chunk of the block range: an inclusive sub-range queried as one
/// upstream call.
#[derive(Clone, Copy, Debug, PartialEq, Eq, Structural)]
pub struct ChunkRange {
    pub start: i64,
    pub end: i64,
}

/// The plan for a block range: chunks of `CHUNK_SIZE` blocks from the start,
/// the last chunk shorter if the range does not divide evenly.
pub open spec fn spec_plan(from: int, to: int) -> Seq<(int, int)>
    decreases to - from + 1,
{
    if from > to {
        Seq::empty()
    } else if to - from >= CHUNK_SIZE {
        seq![(from, from + (CHUNK_SIZE - 1))] + spec_plan(from + CHUNK_SIZE, to)
    } else {
        seq![(from, to)]
    }
}

/// The views of a chunk list.
pub open spec fn plan_view(s: Seq<ChunkRange>) -> Seq<(int, int)> {
    s.map_values(|c: ChunkRange| (c.start as int, c.end as int))
}

/// Cut the inclusive range `[from_block, to_block]` into chunks.
pub fn plan_chunks(from_block: i64, to_block: i64) -> (r: Vec<ChunkRange>)
    requires
        0 <= from_block <= to_block,
    ensures
        plan_view(r@) == spec_plan(from_block as int, to_block as int),
{
    let mut r: Vec<ChunkRange> = Vec::new();
    let mut start: i64 = from_block;
    loop
        invariant
            0 <= from_block <= start <= to_block,
            spec_plan(from_block as int, to_block as int) == plan_view(r@) + spec_plan(
                start as int,
                to_block as int,
            ),
        decreases to_block - start,
    {
        let ghost prev = r@;
        if to_block - start >= CHUNK_SIZE {
            r.push(ChunkRange { start, end: start + (CHUNK_SIZE - 1) });
            proof {
                assert(plan_view(r@) =~= plan_view(prev) + seq![
                    (start as int, start as int + (CHUNK_SIZE - 1)),
                ]);
                assert(plan_view(prev) + (seq![
                    (start as int, start as int + (CHUNK_SIZE - 1)),
                ] + spec_plan(start as int + CHUNK_SIZE, to_block as int)) =~= plan_view(r@)
                    + spec_plan(start as int + CHUNK_SIZE, to_block as int));
            }
            start = start + CHUNK_SIZE;
        } else {
            r.push(ChunkRange { start, end: to_block });
            proof {
                assert(plan_view(r@) =~= plan_view(prev) + seq![(start as int, to_block as int)]);
                assert(spec_plan(start as int, to_block as int) == seq![
                    (start as int, to_block as int),
                ]);
            }
            return r;
        }
    }
}

/// The shape of the plan: chunk `i` starts `i` chunk-widths past `from` and
/// runs to the end of its width, capped at `to`; there are as many chunks as
/// chunk-widths fit the range, the last possibly partial.
pub proof fn lemma_plan_shape(from: int, to: int)
    requires
        0 <= from <= to,
    ensures
        spec_plan(from, to).len() == (to - from) / (CHUNK_SIZE as int) + 1,
        forall|i: int| 0 <= i < spec_plan(from, to).len() ==> (#[trigger] spec_plan(from, to)[i]).0
            == from + (CHUNK_SIZE as int) * i,
        forall|i: int| 0 <= i < spec_plan(from, to).len() ==> (#[trigger] spec_plan(from, to)[i]).1
            == (if spec_plan(from, to)[i].0 + (CHUNK_SIZE - 1) <= to {
                spec_plan(from, to)[i].0 + (CHUNK_SIZE - 1)
            } else {
                to
            }),
    decreases to - from,
{
    let w = CHUNK_SIZE as int;
    if to - from >= w {
        lemma_plan_shape(from + w, to);
        let p = spec_plan(from, to);
        let rest = spec_plan(from + w, to);
        assert((to - from) / w == (to - (from + w)) / w + 1) by {
            vstd::arithmetic::div_mod::lemma_fundamental_div_mod_converse(
                to - from,
                w,
                (to - (from + w)) / w + 1,
                (to - (from + w)) % w,
            );
            vstd::arithmetic::div_mod::lemma_mod_bound(to - (from + w), w);
            vstd::arithmetic::div_mod::lemma_fundamental_div_mod(to - (from + w), w);
        }
        assert forall|i: int| 0 <= i < p.len() implies (#[trigger] p[i]).0 == from + w * i by {
            if i > 0 {
                assert(p[i] == rest[i - 1]);
                assert(rest[i - 1].0 == from + w + w * (i - 1));
                assert(from + w + w * (i - 1) == from + w * i) by (nonlinear_arith);
            }
        }
        assert forall|i: int| 0 <= i < p.len() implies (#[trigger] p[i]).1 == (if p[i].0 + (w - 1)
            <= to {
            p[i].0 + (w - 1)
        } else {
            to
        }) by {
            if i > 0 {
                assert(p[i] == rest[i - 1]);
            }
        }
    } else {
        assert((to - from) / w == 0) by {
            vstd::arithmetic::div_mod::lemma_basic_div(to - from, w);
        }
    }
}

/// Splitting a range at a chunk boundary splits its plan: the chunks of the
/// whole are exactly the chunks of the left part followed by the chunks of
/// the right part.
pub proof fn lemma_plan_split(from: int, mid: int, to: int)
    requires
        0 <= from <= mid <= to,
        (mid - from + 1) % (CHUNK_SIZE as int) == 0,
    ensures
        spec_plan(from, to) == spec_plan(from, mid) + spec_plan(mid + 1, to),
    decreases mid - from,
{
    let w = CHUNK_SIZE as int;
    vstd::arithmetic::div_mod::lemma_mod_bound(mid - from + 1, w);
    if mid - from + 1 == w {
        if to - from >= w {
            assert(spec_plan(from, mid) == seq![(from, mid)]);
            assert(spec_plan(from, to) == seq![(from, from + (w - 1))] + spec_plan(from + w, to));
        } else {
            assert(to <= from + w - 1);
            assert(mid == from + w - 1);
            assert(to >= mid);
            assert(to == mid);
            assert(spec_plan(mid + 1, to) =~= Seq::<(int, int)>::empty());
            assert(spec_plan(from, mid) + spec_plan(mid + 1, to) =~= spec_plan(from, mid));
        }
    } else {
        if mid - from + 1 < w {
            // A positive span below the chunk width cannot divide evenly.
            assert((mid - from + 1) % w == mid - from + 1) by {
                vstd::arithmetic::div_mod::lemma_small_mod((mid - from + 1) as nat, w as nat);
            }
            assert(false);
        } else {
            assert((mid - (from + w) + 1) % w == 0) by {
                vstd::arithmetic::div_mod::lemma_mod_multiples_vanish(1, mid - (from + w) + 1, w);
            }
            lemma_plan_split(from + w, mid, to);
            assert(spec_plan(from, to) == seq![(from, from + (w - 1))] + spec_plan(from + w, to));
            assert(spec_plan(from, mid) == seq![(from, from + (w - 1))] + spec_plan(from + w, mid));
            assert(seq![(from, from + (w - 1))] + (spec_plan(from + w, mid) + spec_plan(
                mid + 1,
                to,
            )) =~= (seq![(from, from + (w - 1))] + spec_plan(from + w, mid)) + spec_plan(
                mid + 1,
                to,
            ));
        }
    }
}

/// How many items of the stream are logs (rows), not errors.
pub open spec fn spec_row_count(items: Seq<Result<LogV, Error>>) -> int
    decreases items.len(),
{
    if items.len() == 0 {
        0
    } else {
        (if items[0] is Ok {
            1int
        } else {
            0int
        }) + spec_row_count(items.drop_first())
    }
}

/// Row counting distributes over concatenation, and never exceeds the
/// number of items.
pub proof fn lemma_row_count_concat(a: Seq<Result<LogV, Error>>, b: Seq<Result<LogV, Error>>)
    ensures
        spec_row_count(a + b) == spec_row_count(a) + spec_row_count(b),
        0 <= spec_row_count(a) <= a.len(),
    decreases a.len(),
{
    if a.len() == 0 {
        assert(a + b =~= b);
    } else {
        assert((a + b)[0] == a[0]);
        assert((a + b).drop_first() =~= a.drop_first() + b);
        lemma_row_count_concat(a.drop_first(), b);
    }
}

/// How many raw records the upstream returned over all chunks; a failed
/// chunk contributes none.
pub open spec fn spec_total_raws(chunks: Seq<Result<Seq<RawLogV>, Error>>) -> int
    decreases chunks.len(),
{
    if chunks.len() == 0 {
        0
    } else {
        (match chunks[0] {
            Ok(raws) => raws.len() as int,
            Err(_) => 0int,
        }) + spec_total_raws(chunks.drop_first())
    }
}

/// With no filters, a chunk of well-formed records passes through whole:
/// one row per raw record, in order, nothing filtered.
pub proof fn lemma_process_chunk_empty_filters(raws: Seq<RawLogV>)
    requires
        forall|j: int| 0 <= j < raws.len() ==> (#[trigger] spec_normalize(raws[j])) is Ok,
    ensures
        spec_process_chunk(raws, Seq::empty()).len() == raws.len(),
        spec_row_count(spec_process_chunk(raws, Seq::empty())) == raws.len(),
    decreases raws.len(),
{
    if raws.len() == 0 {
    } else {
        assert(spec_raw_matches(raws[0], Seq::empty()));
        assert(spec_normalize(raws[0]) is Ok);
        assert(forall|j: int| 0 <= j < raws.drop_first().len() ==> (#[trigger] spec_normalize(
            raws.drop_first()[j],
        )) is Ok) by {
            assert(forall|j: int| 0 <= j < raws.drop_first().len() ==> raws.drop_first()[j]
                == raws[j + 1]);
        }
        lemma_process_chunk_empty_filters(raws.drop_first());
        lemma_row_count_concat(
            seq![spec_normalize(raws[0])],
            spec_process_chunk(raws.drop_first(), Seq::empty()),
        );
        assert(seq![spec_normalize(raws[0])].drop_first() =~= Seq::<Result<LogV, Error>>::empty());
        assert(spec_row_count(Seq::<Result<LogV, Error>>::empty()) == 0);
        assert(spec_row_count(seq![spec_normalize(raws[0])]) == 1);
        assert(spec_process_chunk(raws, Seq::empty()) == seq![spec_normalize(raws[0])]
            + spec_process_chunk(raws.drop_first(), Seq::empty()));
    }
}

/// With an empty filter set nothing is filtered out: the stream holds one
/// row per well-formed raw record the upstream returned — so the `End`
/// count of such a request equals the number of raw logs across all
/// chunks, also when some chunks failed outright (a failed chunk returned
/// no raw logs, and contributes an error item, never a row).
pub proof fn lemma_empty_filters_full_count(chunks: Seq<Result<Seq<RawLogV>, Error>>)
    requires
        forall|i: int, j: int|
            0 <= i < chunks.len() && chunks[i] is Ok && 0 <= j < chunks[i]->Ok_0.len() ==> (
            #[trigger] spec_normalize(chunks[i]->Ok_0[j])) is Ok,
    ensures
        spec_row_count(spec_assemble(chunks, Seq::empty())) == spec_total_raws(chunks),
    decreases chunks.len(),
{
    if chunks.len() == 0 {
    } else {
        let head = chunks[0];
        let rest = chunks.drop_first();
        assert(forall|i: int, j: int|
            0 <= i < rest.len() && rest[i] is Ok && 0 <= j < rest[i]->Ok_0.len() ==> (
            #[trigger] spec_normalize(rest[i]->Ok_0[j])) is Ok) by {
            assert(forall|i: int| 0 <= i < rest.len() ==> rest[i] == chunks[i + 1]);
        }
        lemma_empty_filters_full_count(rest);
        lemma_row_count_concat(spec_chunk_items(head, Seq::empty()), spec_assemble(rest, Seq::empty()));
        match head {
            Ok(raws) => {
                assert(forall|j: int| 0 <= j < raws.len() ==> (#[trigger] spec_normalize(
                    raws[j],
                )) is Ok);
                lemma_process_chunk_empty_filters(raws);
            },
            Err(e) => {
                assert(seq![Err::<LogV, Error>(e)].drop_first() =~= Seq::<
                    Result<LogV, Error>,
                >::empty());
                assert(spec_row_count(Seq::<Result<LogV, Error>>::empty()) == 0);
                assert(spec_row_count(seq![Err::<LogV, Error>(e)]) == 0);
            },
        }
    }
}

/// Every row of a processed chunk passes the exact filter: with a non-empty
/// filter set, its address and first topic match some filter pair, and it
/// has at least one topic.
pub proof fn lemma_process_chunk_rows_match(raws: Seq<RawLogV>, filters: Seq<FilterV>)
    requires
        filters.len() > 0,
    ensures
        forall|j: int|
            0 <= j < spec_process_chunk(raws, filters).len() && (#[trigger] spec_process_chunk(
                raws,
                filters,
            )[j]) is Ok ==> {
                let l = spec_process_chunk(raws, filters)[j]->Ok_0;
                l.topics.len() > 0 && spec_matches(l.address, l.topics, filters)
            },
    decreases raws.len(),
{
    if raws.len() == 0 {
    } else {
        lemma_process_chunk_rows_match(raws.drop_first(), filters);
        let out = spec_process_chunk(raws, filters);
        let rest = spec_process_chunk(raws.drop_first(), filters);
        if spec_raw_matches(raws[0], filters) {
            let r0 = raws[0];
            assert(r0.address is Some);
            let a = r0.address->0;
            assert(spec_matches(a, r0.topics, filters));
            let i = choose|i: int|
                0 <= i < filters.len() && spec_filter_hit(a, r0.topics, #[trigger] filters[i]);
            assert(out == seq![spec_normalize(r0)] + rest);
            assert forall|j: int| 0 <= j < out.len() && (#[trigger] out[j]) is Ok implies {
                let l = out[j]->Ok_0;
                l.topics.len() > 0 && spec_matches(l.address, l.topics, filters)
            } by {
                if j == 0 {
                    if spec_normalize(r0) is Ok {
                        let l = out[0]->Ok_0;
                        assert(l.address == a && l.topics == r0.topics);
                        assert(spec_filter_hit(l.address, l.topics, filters[i]));
                    }
                } else {
                    assert(out[j] == rest[j - 1]);
                }
            }
        } else {
            assert(out == Seq::<Result<LogV, Error>>::empty() + rest);
            assert(out =~= rest);
        }
    }
}

/// Every row of the assembled stream passes the exact filter (with a
/// non-empty filter set): its address equals some filter pair's address and
/// its first topic that pair's hash — and a record with no topics is never
/// emitted.
pub proof fn lemma_rows_match_filters(
    chunks: Seq<Result<Seq<RawLogV>, Error>>,
    filters: Seq<FilterV>,
)
    requires
        filters.len() > 0,
    ensures
        forall|j: int|
            0 <= j < spec_assemble(chunks, filters).len() && (#[trigger] spec_assemble(
                chunks,
                filters,
            )[j]) is Ok ==> {
                let l = spec_assemble(chunks, filters)[j]->Ok_0;
                l.topics.len() > 0 && spec_matches(l.address, l.topics, filters)
            },
    decreases chunks.len(),
{
    if chunks.len() == 0 {
    } else {
        lemma_rows_match_filters(chunks.drop_first(), filters);
        let out = spec_assemble(chunks, filters);
        let head = spec_chunk_items(chunks[0], filters);
        let rest = spec_assemble(chunks.drop_first(), filters);
        assert(out == head + rest);
        if chunks[0] is Ok {
            lemma_process_chunk_rows_match(chunks[0]->Ok_0, filters);
        }
        assert forall|j: int| 0 <= j < out.len() && (#[trigger] out[j]) is Ok implies {
            let l = out[j]->Ok_0;
            l.topics.len() > 0 && spec_matches(l.address, l.topics, filters)
        } by {
            if j < head.len() {
                assert(out[j] == head[j]);
                if chunks[0] is Err {
                    assert(head[j] == Err::<LogV, Error>(chunks[0]->Err_0));
                }
            } else {
                assert(out[j] == rest[j - head.len()]);
            }
        }
    }
}

/// Fetch every chunk of a plan from an upstream, as a mathematical value.
pub open spec fn spec_fetch_plan(
    plan: Seq<(int, int)>,
    upstream: spec_fn(int, int) -> Result<Seq<RawLogV>, Error>,
) -> Seq<Result<Seq<RawLogV>, Error>> {
    plan.map_values(|c: (int, int)| upstream(c.0, c.1))
}

/// Chunking round trip: querying `[from, to]` in one call issues the chunk
/// plan of the whole range, and against any upstream its result stream is
/// exactly the stream of `[from, mid]` followed by the stream of
/// `[mid+1, to]`, for any split on a chunk boundary. The sets of logs agree
/// — in fact even their order does.
pub proof fn lemma_chunking_round_trip(
    from: int,
    mid: int,
    to: int,
    upstream: spec_fn(int, int) -> Result<Seq<RawLogV>, Error>,
    filters: Seq<FilterV>,
)
    requires
        0 <= from <= mid <= to,
        (mid - from + 1) % (CHUNK_SIZE as int) == 0,
    ensures
        spec_assemble(spec_fetch_plan(spec_plan(from, to), upstream), filters) == spec_assemble(
            spec_fetch_plan(spec_plan(from, mid), upstream),
            filters,
        ) + spec_assemble(spec_fetch_plan(spec_plan(mid + 1, to), upstream), filters),
{
    lemma_plan_split(from, mid, to);
    let left = spec_fetch_plan(spec_plan(from, mid), upstream);
    let right = spec_fetch_plan(spec_plan(mid + 1, to), upstream);
    assert(spec_fetch_plan(spec_plan(from, to), upstream) =~= left + right);
    lemma_assemble_concat(left, right, filters);
}

/// Idempotence: the result stream is a function of the fetched chunk data
/// and the filters alone, so two identical requests that observe the same
/// upstream data yield exactly the same stream.
pub proof fn lemma_get_logs_idempotent(
    chunks_first: Seq<Result<Seq<RawLogV>, Error>>,
    chunks_second: Seq<Result<Seq<RawLogV>, Error>>,
    filters_first: Seq<FilterV>,
    filters_second: Seq<FilterV>,
)
    requires
        chunks_first == chunks_second,
        filters_first == filters_second,
    ensures
        spec_assemble(chunks_first, filters_first) == spec_assemble(
            chunks_second,
            filters_second,
        ),
{
}

/// Some filter pair names this address.
pub open spec fn addr_in_filters(a: Seq<u8>, fs: Seq<FilterV>) -> bool {
    exists|i: int| 0 <= i < fs.len() && (#[trigger] fs[i]).0 == a
}

/// Some filter pair names this topic-zero hash.
pub open spec fn topic_in_filters(h: Seq<u8>, fs: Seq<FilterV>) -> bool {
    exists|i: int| 0 <= i < fs.len() && (#[trigger] fs[i]).1 == h
}

/// Some element of the list holds these address bytes.
pub open spec fn addrs_contain(s: Seq<Address>, a: Seq<u8>) -> bool {
    exists|j: int| 0 <= j < s.len() && (#[trigger] s[j])@ == a
}

/// Some element of the list holds these hash bytes.
pub open spec fn hashes_contain(s: Seq<crate::types::Hash>, h: Seq<u8>) -> bool {
    exists|j: int| 0 <= j < s.len() && (#[trigger] s[j])@ == h
}

/// Is some address of `v` equal to `a`?
fn contains_addr(v: &Vec<Address>, a: &Address) -> (r: bool)
    ensures
        r == addrs_contain(v@, a@),
{
    let mut i: usize = 0;
    while i < v.len()
        invariant
            0 <= i <= v@.len(),
            forall|j: int| 0 <= j < i ==> (#[trigger] v@[j])@ != a@,
        decreases v@.len() - i,
    {
        if crate::types::bytes_eq(v[i].bytes().as_slice(), a.bytes().as_slice()) {
            assert(addrs_contain(v@, a@));
            return true;
        }
        i += 1;
    }
    false
}

/// Is some hash of `v` equal to `h`?
fn contains_hash(v: &Vec<crate::types::Hash>, h: &crate::types::Hash) -> (r: bool)
    ensures
        r == hashes_contain(v@, h@),
{
    let mut i: usize = 0;
    while i < v.len()
        invariant
            0 <= i <= v@.len(),
            forall|j: int| 0 <= j < i ==> (#[trigger] v@[j])@ != h@,
        decreases v@.len() - i,
    {
        if crate::types::bytes_eq(v[i].bytes().as_slice(), h.bytes().as_slice()) {
            assert(hashes_contain(v@, h@));
            return true;
        }
        i += 1;
    }
    false
}

/// The distinct addresses of the filter set, for the coarse upstream query:
/// exactly the addresses that occur in some filter, with no duplicates.
/// This is the server-side pre-filter, strictly broader than the exact one.
pub fn coarse_addresses(filters: &Vec<(Address, crate::types::Hash)>) -> (r: Vec<Address>)
    ensures
        forall|j: int|
            0 <= j < r@.len() ==> addr_in_filters((#[trigger] r@[j])@, filters_view(filters@)),
        forall|i: int|
            0 <= i < filters@.len() ==> addrs_contain(
                r@,
                (#[trigger] filters_view(filters@)[i]).0,
            ),
        forall|j1: int, j2: int| 0 <= j1 < j2 < r@.len() ==> (#[trigger] r@[j1])@ != (
        #[trigger] r@[j2])@,
{
    let ghost fv = filters_view(filters@);
    let mut r: Vec<Address> = Vec::new();
    let mut i: usize = 0;
    while i < filters.len()
        invariant
            0 <= i <= filters@.len(),
            fv == filters_view(filters@),
            fv.len() == filters@.len(),
            forall|j: int| 0 <= j < r@.len() ==> addr_in_filters((#[trigger] r@[j])@, fv),
            forall|k: int| 0 <= k < i ==> addrs_contain(r@, (#[trigger] fv[k]).0),
            forall|j1: int, j2: int| 0 <= j1 < j2 < r@.len() ==> (#[trigger] r@[j1])@ != (
            #[trigger] r@[j2])@,
        decreases filters@.len() - i,
    {
        let a = &filters[i].0;
        let ghost prev = r@;
        proof {
            assert(fv[i as int].0 == a@);
        }
        if !contains_addr(&r, a) {
            let c = a.clone();
            r.push(c);
            proof {
                assert(forall|j: int| 0 <= j < prev.len() ==> r@[j] == prev[j]);
                assert(r@[prev.len() as int]@ == fv[i as int].0);
                assert(addr_in_filters(r@[prev.len() as int]@, fv));
                assert forall|a2: Seq<u8>| addrs_contain(prev, a2) implies addrs_contain(
                    r@,
                    a2,
                ) by {
                    let j = choose|j: int| 0 <= j < prev.len() && (#[trigger] prev[j])@ == a2;
                    assert(0 <= j < r@.len() && r@[j]@ == a2);
                }
                assert(addrs_contain(r@, fv[i as int].0));
            }
        }
        i += 1;
    }
    r
}

/// The distinct topic-zero hashes of the filter set, for the coarse
/// upstream query: exactly the hashes that occur in some filter, with no
/// duplicates.
pub fn coarse_topics(filters: &Vec<(Address, crate::types::Hash)>) -> (r: Vec<crate::types::Hash>)
    ensures
        forall|j: int|
            0 <= j < r@.len() ==> topic_in_filters((#[trigger] r@[j])@, filters_view(filters@)),
        forall|i: int|
            0 <= i < filters@.len() ==> hashes_contain(
                r@,
                (#[trigger] filters_view(filters@)[i]).1,
            ),
        forall|j1: int, j2: int| 0 <= j1 < j2 < r@.len() ==> (#[trigger] r@[j1])@ != (
        #[trigger] r@[j2])@,
{
    let ghost fv = filters_view(filters@);
    let mut r: Vec<crate::types::Hash> = Vec::new();
    let mut i: usize = 0;
    while i < filters.len()
        invariant
            0 <= i <= filters@.len(),
            fv == filters_view(filters@),
            fv.len() == filters@.len(),
            forall|j: int| 0 <= j < r@.len() ==> topic_in_filters((#[trigger] r@[j])@, fv),
            forall|k: int| 0 <= k < i ==> hashes_contain(r@, (#[trigger] fv[k]).1),
            forall|j1: int, j2: int| 0 <= j1 < j2 < r@.len() ==> (#[trigger] r@[j1])@ != (
            #[trigger] r@[j2])@,
        decreases filters@.len() - i,
    {
        let h = &filters[i].1;
        let ghost prev = r@;
        proof {
            assert(fv[i as int].1 == h@);
        }
        if !contains_hash(&r, h) {
            let c = h.clone();
            r.push(c);
            proof {
                assert(forall|j: int| 0 <= j < prev.len() ==> r@[j] == prev[j]);
                assert(r@[prev.len() as int]@ == fv[i as int].1);
                assert(topic_in_filters(r@[prev.len() as int]@, fv));
                assert forall|h2: Seq<u8>| hashes_contain(prev, h2) implies hashes_contain(
                    r@,
                    h2,
                ) by {
                    let j = choose|j: int| 0 <= j < prev.len() && (#[trigger] prev[j])@ == h2;
                    assert(0 <= j < r@.len() && r@[j]@ == h2);
                }
                assert(hashes_contain(r@, fv[i as int].1));
            }
        }
        i += 1;
    }
    r
}

} // verus!
