//! The layout of one stored event: eight bytes of timestamp and four
//! bytes of kind tag, both big-endian, then the body.

use vstd::prelude::*;
use vstd::slice::{slice_subrange, slice_to_vec};
use crate::bytes::{
    i64_be, i32_be, i64_from_be, i32_from_be, lemma_i64_be_round_trip, lemma_i32_be_round_trip,
    push_u64_be, push_u32_be, i64_to_bits, i32_to_bits, i64_from_bits, i32_from_bits,
    u64_from_be_bytes, u32_from_be_bytes,
};

verus! {

/// The number of bytes before the body of a record.
pub const HEADER_LEN: usize = 12;

/// The record of an event.
pub open spec fn record_bytes(time: i64, kind: i32, body: Seq<u8>) -> Seq<u8> {
    i64_be(time) + i32_be(kind) + body
}

/// Whether `record` is long enough to hold a header.
pub open spec fn has_header(record: Seq<u8>) -> bool {
    record.len() >= 12
}

/// The timestamp in the header of `record`.
pub open spec fn record_time(record: Seq<u8>) -> i64
    recommends
        has_header(record),
{
    i64_from_be(record.subrange(0, 8))
}

/// The kind tag in the header of `record`.
pub open spec fn record_kind(record: Seq<u8>) -> i32
    recommends
        has_header(record),
{
    i32_from_be(record.subrange(8, 12))
}

/// The body of `record`: what follows its header.
pub open spec fn record_body(record: Seq<u8>) -> Seq<u8>
    recommends
        has_header(record),
{
    record.skip(12)
}

/// The layout round-trips: the record of an event has a header, and the
/// timestamp, the kind tag and the body read from it are the event's.
pub proof fn law_record_round_trip(time: i64, kind: i32, body: Seq<u8>)
    ensures
        has_header(record_bytes(time, kind, body)),
        record_bytes(time, kind, body).len() == 12 + body.len(),
        record_time(record_bytes(time, kind, body)) == time,
        record_kind(record_bytes(time, kind, body)) == kind,
        record_body(record_bytes(time, kind, body)) == body,
{
    let record = record_bytes(time, kind, body);
    lemma_i64_be_round_trip(time);
    lemma_i32_be_round_trip(kind);
    assert(record.subrange(0, 8) =~= i64_be(time));
    assert(record.subrange(8, 12) =~= i32_be(kind));
    assert(record.skip(12) =~= body);
}

/// Lays out the record of an event.
pub fn encode_record(time: i64, kind: i32, body: &[u8]) -> (record: Vec<u8>)
    ensures
        record@ == record_bytes(time, kind, body@),
{
    let mut record: Vec<u8> = Vec::new();
    push_u64_be(&mut record, i64_to_bits(time));
    push_u32_be(&mut record, i32_to_bits(kind));
    record.extend_from_slice(body);
    assert(record@ =~= record_bytes(time, kind, body@));
    record
}

/// Reads a record back: its timestamp, its kind tag and its body, or
/// nothing where the bytes are too few to hold a header.
pub fn decode_record(record: &[u8]) -> (event: Option<(i64, i32, Vec<u8>)>)
    ensures
        event is Some <==> has_header(record@),
        match event {
            Some((time, kind, body)) => {
                &&& time == record_time(record@)
                &&& kind == record_kind(record@)
                &&& body@ == record_body(record@)
            },
            None => true,
        },
{
    if record.len() < HEADER_LEN {
        return None;
    }
    let time = i64_from_bits(u64_from_be_bytes(record, 0));
    let kind = i32_from_bits(u32_from_be_bytes(record, 8));
    let body = slice_to_vec(slice_subrange(record, HEADER_LEN, record.len()));
    assert(body@ =~= record_body(record@));
    Some((time, kind, body))
}

} // verus!
