//! The stored record of which part of a dataset is covered.
use vstd::bytes::{u16_from_le_bytes, u32_from_le_bytes, u64_from_le_bytes};
use vstd::prelude::*;
use vstd::slice::slice_subrange;
use crate::connector::buckets::CACHE_SCHEMA;
use crate::connector::frame;
use crate::connector::frame::{checked_payload, frame_payload, BlobError, MAX_BLOB_BYTES};
use crate::connector::intervals;
use crate::connector::intervals::{merge_intervals, valid_intervals};

verus! {

/// The covered half-open intervals of one dataset, under the schema they were stored with.
#[derive(Clone, Debug, PartialEq, Eq)]
pub struct StoredCoverage {
    pub schema: u64,
    pub dataset_key: String,
    pub intervals: Vec<(u64, u64)>,
}

/// The contents of a coverage record: schema, dataset key, intervals.
pub type CoverageModel = (u64, Seq<char>, Seq<(u64, u64)>);

impl View for StoredCoverage {
    type V = CoverageModel;

    open spec fn view(&self) -> CoverageModel {
        (self.schema, self.dataset_key@, self.intervals@)
    }
}

/// The bytes that `bincode::serde::encode_to_vec` writes for a coverage record under
/// the standard configuration.
pub uninterp spec fn coverage_bytes(
    schema: u64,
    dataset_key: Seq<char>,
    intervals: Seq<(u64, u64)>,
) -> Seq<u8>;

/// What `bincode::serde::decode_from_slice` reads from `payload` under the standard
/// configuration: a coverage record and the number of bytes it took, or the text of its error.
pub uninterp spec fn coverage_from_bytes(payload: Seq<u8>) -> Result<
    ((u64, Seq<char>, Seq<(u64, u64)>), usize),
    Seq<char>,
>;

/// The integer at the front of a payload and the number of bytes it takes. Up to 250 it is
/// one byte; above, a marker is followed by two, four or eight bytes, the lowest first.
pub open spec fn leading_integer(bytes: Seq<u8>) -> Option<(u64, int)> {
    if bytes.len() == 0 {
        None
    } else if bytes[0] <= 250 {
        Some((bytes[0] as u64, 1))
    } else if bytes[0] == 251 && bytes.len() >= 3 {
        Some((vstd::bytes::spec_u16_from_le_bytes(bytes.subrange(1, 3)) as u64, 3))
    } else if bytes[0] == 252 && bytes.len() >= 5 {
        Some((vstd::bytes::spec_u32_from_le_bytes(bytes.subrange(1, 5)) as u64, 5))
    } else if bytes[0] == 253 && bytes.len() >= 9 {
        Some((vstd::bytes::spec_u64_from_le_bytes(bytes.subrange(1, 9)), 9))
    } else {
        None
    }
}

/// Whether the dataset key that a payload announces behind its schema lies within the
/// payload. Where the payload ends before its length is known, no key is announced.
pub open spec fn text_fits(payload: Seq<u8>) -> bool {
    match leading_integer(payload) {
        Some((_, width)) => match leading_integer(payload.skip(width)) {
            Some((len, len_width)) => width + len_width + len <= payload.len(),
            None => true,
        },
        None => true,
    }
}

/// Whether the dataset key that a payload announces is no longer than a stored blob may be.
pub open spec fn text_is_bounded(payload: Seq<u8>) -> bool {
    match leading_integer(payload) {
        Some((_, width)) => match leading_integer(payload.skip(width)) {
            Some((len, _)) => len <= frame::MAX_BLOB_BYTES,
            None => true,
        },
        None => true,
    }
}

fn read_integer(bytes: &[u8], at: usize) -> (r: Option<(u64, usize)>)
    requires
        at <= bytes@.len(),
    ensures
        match r {
            Some((value, width)) => leading_integer(bytes@.skip(at as int)) == Some(
                (value, width as int),
            ) && at + width <= bytes@.len(),
            None => leading_integer(bytes@.skip(at as int)) is None,
        },
{
    let rest: usize = bytes.len() - at;
    let ghost tail = bytes@.skip(at as int);
    if rest == 0 {
        return None;
    }
    let marker: u8 = bytes[at];
    assert(tail[0] == marker);
    if marker <= 250 {
        return Some((marker as u64, 1));
    }
    if marker == 251 && rest >= 3 {
        let digits: &[u8] = slice_subrange(bytes, at + 1, at + 3);
        assert(digits@ =~= tail.subrange(1, 3));
        return Some((u16_from_le_bytes(digits) as u64, 3));
    }
    if marker == 252 && rest >= 5 {
        let digits: &[u8] = slice_subrange(bytes, at + 1, at + 5);
        assert(digits@ =~= tail.subrange(1, 5));
        return Some((u32_from_le_bytes(digits) as u64, 5));
    }
    if marker == 253 && rest >= 9 {
        let digits: &[u8] = slice_subrange(bytes, at + 1, at + 9);
        assert(digits@ =~= tail.subrange(1, 9));
        return Some((u64_from_le_bytes(digits), 9));
    }
    None
}

fn has_bounded_text(payload: &[u8]) -> (r: bool)
    ensures
        r == text_is_bounded(payload@),
{
    assert(payload@.skip(0) =~= payload@);
    match read_integer(payload, 0) {
        Some((_, width)) => match read_integer(payload, width) {
            Some((len, _)) => len <= MAX_BLOB_BYTES as u64,
            None => true,
        },
        None => true,
    }
}

/// `bincode::serde::encode_to_vec` with the standard configuration. A record of
/// integers, a string and a list of known length is always written, the bytes depend on
/// the record alone, the string lies within them, and `decode_from_slice` reads the record
/// back from all of them.
#[verifier::external_body]
fn bincode_encode_coverage(
    schema: u64,
    dataset_key: &str,
    intervals: &Vec<(u64, u64)>,
) -> (r: Result<Vec<u8>, String>)
    ensures
        r is Ok,
        r->Ok_0@ == coverage_bytes(schema, dataset_key@, intervals@),
        text_fits(r->Ok_0@),
        coverage_from_bytes(r->Ok_0@) == Ok::<_, Seq<char>>(
            ((schema, dataset_key@, intervals@), r->Ok_0@.len() as usize),
        ),
{
    bincode::serde::encode_to_vec((schema, dataset_key, intervals), bincode::config::standard())
        .map_err(|error| error.to_string())
}

/// `bincode::serde::decode_from_slice` with the standard configuration: the record and
/// the number of bytes read, or the text of the error, as the bytes alone determine. It
/// reserves as many bytes as the payload announces for the string before it reads any of
/// them, and panics where so many cannot be reserved; hence the announced string is to be no
/// longer than a stored blob may be.
#[verifier::external_body]
fn bincode_decode_coverage(
    payload: &[u8],
) -> (r: Result<((u64, String, Vec<(u64, u64)>), usize), String>)
    requires
        text_is_bounded(payload@),
    ensures
        match r {
            Ok(((schema, dataset_key, intervals), consumed)) => coverage_from_bytes(payload@)
                == Ok::<_, Seq<char>>(((schema, dataset_key@, intervals@), consumed)),
            Err(cause) => coverage_from_bytes(payload@) == Err::<
                ((u64, Seq<char>, Seq<(u64, u64)>), usize),
                _,
            >(cause@),
        },
{
    bincode::serde::decode_from_slice::<(u64, String, Vec<(u64, u64)>), _>(
        payload,
        bincode::config::standard(),
    ).map_err(|error| error.to_string())
}

/// The record that a payload of bytes holds, where all of them belong to it and it
/// announces no more than a stored blob may hold.
pub open spec fn decoded_payload(payload: Seq<u8>) -> Option<CoverageModel> {
    if !text_is_bounded(payload) {
        None
    } else {
        match coverage_from_bytes(payload) {
            Ok((model, consumed)) => if consumed == payload.len() {
                Some(model)
            } else {
                None
            },
            Err(_) => None,
        }
    }
}

/// The record that a stored blob holds.
pub open spec fn decoded_coverage(encoded: Seq<u8>) -> Option<CoverageModel> {
    match frame::unframed(encoded) {
        Ok(payload) => decoded_payload(payload),
        Err(_) => None,
    }
}

/// The stored form of a coverage record: its bytes behind a checked header. Reading
/// the blob gives the record back.
pub fn encode_checked(coverage: &StoredCoverage) -> (r: Result<Vec<u8>, BlobError>)
    ensures
        ({
            let payload = coverage_bytes(
                coverage.schema,
                coverage.dataset_key@,
                coverage.intervals@,
            );
            match r {
                Ok(blob) => payload.len() <= frame::MAX_BLOB_BYTES && blob@ == frame::framed(
                    payload,
                ),
                Err(error) => payload.len() > frame::MAX_BLOB_BYTES && error
                    == BlobError::TooLarge(payload.len() as usize),
            }
        }),
        r matches Ok(blob) ==> decoded_coverage(blob@) == Some(coverage@),
{
    let payload = match bincode_encode_coverage(
        coverage.schema,
        coverage.dataset_key.as_str(),
        &coverage.intervals,
    ) {
        Ok(payload) => payload,
        Err(cause) => {
            return Err(BlobError::Codec(cause));
        },
    };
    frame_payload(payload.as_slice())
}

/// A payload of which a value took `consumed` bytes has to end with the value.
pub fn whole_payload(consumed: usize, payload_len: usize) -> (r: Result<(), BlobError>)
    ensures
        r == (if consumed == payload_len {
            Ok::<(), BlobError>(())
        } else {
            Err(BlobError::Trailing)
        }),
{
    if consumed == payload_len {
        Ok(())
    } else {
        Err(BlobError::Trailing)
    }
}

/// The outcome of decoding a payload, once the bytes were read as `decoded`.
pub fn finish_decode(
    decoded: Result<((u64, String, Vec<(u64, u64)>), usize), String>,
    payload_len: usize,
) -> (r: Result<StoredCoverage, BlobError>)
    ensures
        match decoded {
            Ok(((schema, dataset_key, intervals), consumed)) => if consumed == payload_len {
                r matches Ok(coverage) && coverage.schema == schema && coverage.dataset_key
                    == dataset_key && coverage.intervals == intervals
            } else {
                r == Err::<StoredCoverage, BlobError>(BlobError::Trailing)
            },
            Err(cause) => r == Err::<StoredCoverage, BlobError>(BlobError::Codec(cause)),
        },
{
    match decoded {
        Ok(((schema, dataset_key, intervals), consumed)) => {
            match whole_payload(consumed, payload_len) {
                Ok(_) => Ok(StoredCoverage { schema, dataset_key, intervals }),
                Err(error) => Err(error),
            }
        },
        Err(cause) => Err(BlobError::Codec(cause)),
    }
}

/// Reads a stored coverage record, where its header, checksum and bytes all hold.
pub fn decode_checked(encoded: &[u8]) -> (r: Result<StoredCoverage, BlobError>)
    ensures
        match r {
            Ok(coverage) => decoded_coverage(encoded@) == Some(coverage@),
            Err(_) => decoded_coverage(encoded@) is None,
        },
        frame::unframed(encoded@) matches Err(error) ==> r == Err::<StoredCoverage, BlobError>(
            error,
        ),
        frame::unframed(encoded@) matches Ok(payload) ==> {
            &&& !text_is_bounded(payload) ==> r == Err::<StoredCoverage, BlobError>(
                BlobError::Length,
            )
            &&& text_is_bounded(payload) && coverage_from_bytes(payload) is Ok && decoded_payload(
                payload,
            ) is None ==> r == Err::<StoredCoverage, BlobError>(BlobError::Trailing)
            &&& text_is_bounded(payload) ==> (coverage_from_bytes(payload) matches Err(words) ==> (
            r matches Err(BlobError::Codec(cause)) && cause@ == words))
        },
{
    let payload = match checked_payload(encoded) {
        Ok(payload) => payload,
        Err(error) => {
            return Err(error);
        },
    };
    if !has_bounded_text(payload.as_slice()) {
        return Err(BlobError::Length);
    }
    let decoded = bincode_decode_coverage(payload.as_slice());
    finish_decode(decoded, payload.len())
}

/// Whether a coverage record is usable for the dataset.
pub open spec fn usable(model: CoverageModel, dataset_key: Seq<char>) -> bool {
    model.0 == CACHE_SCHEMA && model.1 == dataset_key && intervals::disjoint_ascending(model.2)
}

/// The covered intervals of a stored record that is usable for the dataset.
pub fn usable_intervals(coverage: StoredCoverage, dataset_key: &str) -> (r: Option<
    Vec<(u64, u64)>,
>)
    ensures
        match r {
            Some(list) => usable(coverage@, dataset_key@) && list == coverage.intervals,
            None => !usable(coverage@, dataset_key@),
        },
{
    let wanted: String = dataset_key.to_owned();
    if coverage.schema == CACHE_SCHEMA && coverage.dataset_key == wanted && valid_intervals(
        &coverage.intervals,
    ) {
        Some(coverage.intervals)
    } else {
        None
    }
}

/// The bytes of a blob that may be missing.
pub open spec fn bytes_of(blob: Option<Vec<u8>>) -> Option<Seq<u8>> {
    match blob {
        Some(bytes) => Some(bytes@),
        None => None,
    }
}

/// The intervals that a stored blob contributes: those of its record where that is
/// readable and usable, none otherwise.
pub open spec fn known_intervals(blob: Option<Seq<u8>>, dataset_key: Seq<char>) -> Seq<
    (u64, u64),
> {
    match blob {
        Some(encoded) => match decoded_coverage(encoded) {
            Some(model) => if usable(model, dataset_key) {
                model.2
            } else {
                seq![]
            },
            None => seq![],
        },
        None => seq![],
    }
}

/// What a store for `[from, to_exclusive)` makes of the covered intervals.
pub open spec fn coverage_after_store(
    before: Seq<(u64, u64)>,
    after: Seq<(u64, u64)>,
    from: u64,
    to_exclusive: u64,
) -> bool {
    &&& intervals::disjoint_ascending(after)
    &&& forall|t: int| #[trigger]
        intervals::covers(after, t) == (intervals::covers(before, t) || from <= t < to_exclusive)
}

/// The coverage record after `[from, to_exclusive)` was stored: the usable intervals of
/// the record before, joined with the new one.
pub fn extended_coverage(
    existing_blob: Option<Vec<u8>>,
    dataset_key: &str,
    from: u64,
    to_exclusive: u64,
) -> (r: StoredCoverage)
    ensures
        r.schema == CACHE_SCHEMA,
        r.dataset_key@ == dataset_key@,
        usable(r@, dataset_key@),
        coverage_after_store(
            known_intervals(bytes_of(existing_blob), dataset_key@),
            r.intervals@,
            from,
            to_exclusive,
        ),
{
    let mut known: Vec<(u64, u64)> = Vec::new();
    let ghost before = known_intervals(bytes_of(existing_blob), dataset_key@);
    match existing_blob {
        Some(blob) => {
            match decode_checked(blob.as_slice()) {
                Ok(coverage) => {
                    match usable_intervals(coverage, dataset_key) {
                        Some(list) => {
                            known = list;
                        },
                        None => {},
                    }
                },
                Err(_) => {},
            }
        },
        None => {},
    }
    assert(known@ =~= before);
    known.push((from, to_exclusive));
    proof {
        assert forall|t: int| #[trigger]
            intervals::covers(known@, t) == (intervals::covers(before, t) || from <= t
                < to_exclusive) by {
            intervals::lemma_covers_push(before, (from, to_exclusive), t);
        }
    }
    let ghost joined = known@;
    let merged = merge_intervals(known);
    proof {
        assert forall|t: int| #[trigger]
            intervals::covers(merged@, t) == (intervals::covers(before, t) || from <= t
                < to_exclusive) by {
            assert(intervals::covers(merged@, t) == intervals::covers(joined, t));
        }
    }
    StoredCoverage { schema: CACHE_SCHEMA, dataset_key: dataset_key.to_owned(), intervals: merged }
}

} // verus!
