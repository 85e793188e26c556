//! The checked form of a stored value: a header with a magic number, the schema, the
//! payload's length and its checksum, then the payload.
use vstd::bytes::{u32_from_le_bytes, u32_to_le_bytes, u64_from_le_bytes, u64_to_le_bytes};
use vstd::prelude::*;
use vstd::slice::{slice_subrange, slice_to_vec};
use crate::connector::buckets::CACHE_SCHEMA;
use crate::text;
use crate::text::{push_decimal, push_text};

verus! {

pub const HEADER_LEN: usize = 28;

pub const MAX_BLOB_BYTES: usize = 536_870_912;

pub const CRC_POLYNOMIAL: u32 = 0xedb8_8320;

/// The eight bytes `FSCACHE1` that every blob begins with.
pub open spec fn magic() -> Seq<u8> {
    seq![0x46u8, 0x53u8, 0x43u8, 0x41u8, 0x43u8, 0x48u8, 0x45u8, 0x31u8]
}

/// Why a stored blob is not usable, or a value cannot be stored.
#[derive(Clone, Debug, PartialEq, Eq)]
pub enum BlobError {
    Header,
    Schema(u64),
    Length,
    Checksum,
    Trailing,
    TooLarge(usize),
    Codec(String),
}

impl BlobError {
    pub open spec fn message(self) -> Seq<char> {
        match self {
            BlobError::Header => "invalid cache magic/header"@,
            BlobError::Schema(schema) => "unsupported cache blob schema "@ + text::decimal(
                schema as nat,
            ),
            BlobError::Length => "invalid cache payload length"@,
            BlobError::Checksum => "cache checksum mismatch"@,
            BlobError::Trailing => "trailing bytes in cache payload"@,
            BlobError::TooLarge(size) => "cache blob is too large: "@ + text::decimal(size as nat)
                + " bytes"@,
            BlobError::Codec(cause) => cause@,
        }
    }

    /// The wording of the error.
    pub fn describe(&self) -> (r: String)
        ensures
            r@ == self.message(),
    {
        let mut out: String = String::new();
        match self {
            BlobError::Header => push_text(&mut out, "invalid cache magic/header"),
            BlobError::Schema(schema) => {
                push_text(&mut out, "unsupported cache blob schema ");
                push_decimal(&mut out, *schema);
            },
            BlobError::Length => push_text(&mut out, "invalid cache payload length"),
            BlobError::Checksum => push_text(&mut out, "cache checksum mismatch"),
            BlobError::Trailing => push_text(&mut out, "trailing bytes in cache payload"),
            BlobError::TooLarge(size) => {
                push_text(&mut out, "cache blob is too large: ");
                push_decimal(&mut out, *size as u64);
                push_text(&mut out, " bytes");
            },
            BlobError::Codec(cause) => push_text(&mut out, cause.as_str()),
        }
        assert(out@ =~= self.message());
        out
    }
}

/// One bit of the reflected division by the polynomial.
pub open spec fn crc_bit(crc: u32) -> u32 {
    if crc & 1 == 1 {
        (crc >> 1) ^ CRC_POLYNOMIAL
    } else {
        crc >> 1
    }
}

pub open spec fn crc_bits(crc: u32, n: nat) -> u32
    decreases n,
{
    if n == 0 {
        crc
    } else {
        crc_bit(crc_bits(crc, (n - 1) as nat))
    }
}

pub open spec fn crc_byte(crc: u32, byte: u8) -> u32 {
    crc_bits(crc ^ (byte as u32), 8)
}

/// The running remainder after all `bytes`.
pub open spec fn crc_state(bytes: Seq<u8>) -> u32
    decreases bytes.len(),
{
    if bytes.len() == 0 {
        0xffff_ffff
    } else {
        crc_byte(crc_state(bytes.drop_last()), bytes.last())
    }
}

/// The CRC-32 checksum of `bytes`.
pub open spec fn checksum(bytes: Seq<u8>) -> u32 {
    !crc_state(bytes)
}

/// The CRC-32 checksum, one bit at a time.
pub fn crc32(bytes: &[u8]) -> (r: u32)
    ensures
        r == checksum(bytes@),
{
    let mut crc: u32 = 0xffff_ffff;
    let mut i: usize = 0;
    while i < bytes.len()
        invariant
            i <= bytes@.len(),
            crc == crc_state(bytes@.take(i as int)),
        decreases bytes@.len() - i,
    {
        let ghost start = crc;
        let byte: u8 = bytes[i];
        crc = crc ^ (byte as u32);
        let mut bit: u32 = 0;
        while bit < 8
            invariant
                bit <= 8,
                crc == crc_bits(start ^ (byte as u32), bit as nat),
            decreases 8 - bit,
        {
            let ghost before = crc;
            let low: u32 = crc & 1;
            let mask: u32 = 0u32.wrapping_sub(low);
            proof {
                assert(low == 0 || low == 1) by (bit_vector)
                    requires
                        low == before & 1,
                ;
                if low == 0 {
                    assert(mask == 0);
                    assert((before >> 1) ^ (CRC_POLYNOMIAL & mask) == before >> 1) by (bit_vector)
                        requires
                            mask == 0,
                    ;
                } else {
                    assert(mask == 0xffff_ffff);
                    assert((before >> 1) ^ (CRC_POLYNOMIAL & mask) == (before >> 1)
                        ^ CRC_POLYNOMIAL) by (bit_vector)
                        requires
                            mask == 0xffff_ffff,
                    ;
                }
            }
            crc = (crc >> 1) ^ (CRC_POLYNOMIAL & mask);
            bit = bit + 1;
        }
        assert(bytes@.take(i + 1).drop_last() =~= bytes@.take(i as int));
        assert(bytes@.take(i + 1).last() == byte);
        i = i + 1;
    }
    assert(bytes@.take(bytes@.len() as int) =~= bytes@);
    !crc
}

/// The blob that holds `payload`.
pub open spec fn framed(payload: Seq<u8>) -> Seq<u8> {
    magic() + vstd::bytes::spec_u64_to_le_bytes(CACHE_SCHEMA)
        + vstd::bytes::spec_u64_to_le_bytes(payload.len() as u64)
        + vstd::bytes::spec_u32_to_le_bytes(checksum(payload)) + payload
}

/// The payload of a blob, or what is wrong with it, tested from front to back.
pub open spec fn unframed(encoded: Seq<u8>) -> Result<Seq<u8>, BlobError> {
    if encoded.len() < HEADER_LEN || encoded.take(8) != magic() {
        Err(BlobError::Header)
    } else {
        let schema = vstd::bytes::spec_u64_from_le_bytes(encoded.subrange(8, 16));
        let length = vstd::bytes::spec_u64_from_le_bytes(encoded.subrange(16, 24));
        let expected = vstd::bytes::spec_u32_from_le_bytes(encoded.subrange(24, 28));
        let payload = encoded.skip(HEADER_LEN as int);
        if schema != CACHE_SCHEMA {
            Err(BlobError::Schema(schema))
        } else if length > MAX_BLOB_BYTES || payload.len() != length {
            Err(BlobError::Length)
        } else if checksum(payload) != expected {
            Err(BlobError::Checksum)
        } else {
            Ok(payload)
        }
    }
}

/// Puts the header in front of a payload of at most `MAX_BLOB_BYTES`.
pub fn frame_payload(payload: &[u8]) -> (r: Result<Vec<u8>, BlobError>)
    ensures
        match r {
            Ok(blob) => payload@.len() <= MAX_BLOB_BYTES && blob@ == framed(payload@),
            Err(error) => payload@.len() > MAX_BLOB_BYTES && error == BlobError::TooLarge(
                payload@.len() as usize,
            ),
        },
        r matches Ok(blob) ==> unframed(blob@) == Ok::<Seq<u8>, BlobError>(payload@),
{
    if payload.len() > MAX_BLOB_BYTES {
        return Err(BlobError::TooLarge(payload.len()));
    }
    let mut blob: Vec<u8> = Vec::new();
    blob.push(0x46);
    blob.push(0x53);
    blob.push(0x43);
    blob.push(0x41);
    blob.push(0x43);
    blob.push(0x48);
    blob.push(0x45);
    blob.push(0x31);
    let mut schema: Vec<u8> = u64_to_le_bytes(CACHE_SCHEMA);
    let mut length: Vec<u8> = u64_to_le_bytes(payload.len() as u64);
    let mut crc: Vec<u8> = u32_to_le_bytes(crc32(payload));
    let mut body: Vec<u8> = slice_to_vec(payload);
    assert(blob@ =~= magic());
    blob.append(&mut schema);
    blob.append(&mut length);
    blob.append(&mut crc);
    blob.append(&mut body);
    assert(blob@ =~= framed(payload@));
    proof {
        frame_round_trip(payload@);
    }
    Ok(blob)
}

fn has_magic(encoded: &[u8]) -> (r: bool)
    requires
        encoded@.len() >= 8,
    ensures
        r == (encoded@.take(8) == magic()),
{
    let r: bool = encoded[0] == 0x46 && encoded[1] == 0x53 && encoded[2] == 0x43 && encoded[3]
        == 0x41 && encoded[4] == 0x43 && encoded[5] == 0x48 && encoded[6] == 0x45 && encoded[7]
        == 0x31;
    proof {
        let head = encoded@.take(8);
        if r {
            assert(head =~= magic());
        } else {
            assert(head[0] == encoded@[0] && head[1] == encoded@[1] && head[2] == encoded@[2]
                && head[3] == encoded@[3] && head[4] == encoded@[4] && head[5] == encoded@[5]
                && head[6] == encoded@[6] && head[7] == encoded@[7]);
        }
    }
    r
}

/// Takes the payload out of a blob whose header and checksum hold.
pub fn checked_payload(encoded: &[u8]) -> (r: Result<Vec<u8>, BlobError>)
    ensures
        match r {
            Ok(payload) => unframed(encoded@) == Ok::<Seq<u8>, BlobError>(payload@),
            Err(error) => unframed(encoded@) == Err::<Seq<u8>, BlobError>(error),
        },
{
    if encoded.len() < HEADER_LEN || !has_magic(encoded) {
        return Err(BlobError::Header);
    }
    let schema: u64 = u64_from_le_bytes(slice_subrange(encoded, 8, 16));
    if schema != CACHE_SCHEMA {
        return Err(BlobError::Schema(schema));
    }
    let length: u64 = u64_from_le_bytes(slice_subrange(encoded, 16, 24));
    let actual: usize = encoded.len() - HEADER_LEN;
    if length > MAX_BLOB_BYTES as u64 || actual as u64 != length {
        return Err(BlobError::Length);
    }
    let expected: u32 = u32_from_le_bytes(slice_subrange(encoded, 24, 28));
    let payload: &[u8] = slice_subrange(encoded, HEADER_LEN, encoded.len());
    assert(payload@ =~= encoded@.skip(HEADER_LEN as int));
    if crc32(payload) != expected {
        return Err(BlobError::Checksum);
    }
    Ok(slice_to_vec(payload))
}

proof fn lemma_header_parts(payload: Seq<u8>)
    requires
        payload.len() <= MAX_BLOB_BYTES,
    ensures
        ({
            let blob = framed(payload);
            &&& blob.len() == HEADER_LEN + payload.len()
            &&& blob.take(8) == magic()
            &&& blob.subrange(8, 16) == vstd::bytes::spec_u64_to_le_bytes(CACHE_SCHEMA)
            &&& blob.subrange(16, 24) == vstd::bytes::spec_u64_to_le_bytes(payload.len() as u64)
            &&& blob.subrange(24, 28) == vstd::bytes::spec_u32_to_le_bytes(checksum(payload))
            &&& blob.skip(HEADER_LEN as int) == payload
        }),
{
    vstd::bytes::lemma_auto_spec_u64_to_from_le_bytes();
    vstd::bytes::lemma_auto_spec_u32_to_from_le_bytes();
    let schema = vstd::bytes::spec_u64_to_le_bytes(CACHE_SCHEMA);
    let length = vstd::bytes::spec_u64_to_le_bytes(payload.len() as u64);
    let crc = vstd::bytes::spec_u32_to_le_bytes(checksum(payload));
    assert(schema.len() == 8 && length.len() == 8 && crc.len() == 4);
    let blob = framed(payload);
    assert(blob.take(8) =~= magic());
    assert(blob.subrange(8, 16) =~= schema);
    assert(blob.subrange(16, 24) =~= length);
    assert(blob.subrange(24, 28) =~= crc);
    assert(blob.skip(HEADER_LEN as int) =~= payload);
}

/// A framed payload is read back unchanged.
pub proof fn frame_round_trip(payload: Seq<u8>)
    requires
        payload.len() <= MAX_BLOB_BYTES,
    ensures
        unframed(framed(payload)) == Ok::<Seq<u8>, BlobError>(payload),
{
    lemma_header_parts(payload);
    vstd::bytes::lemma_auto_spec_u64_to_from_le_bytes();
    vstd::bytes::lemma_auto_spec_u32_to_from_le_bytes();
}

/// `a` and `b` have the same length and differ at position `k` and nowhere else.
pub open spec fn differ_only_at(a: Seq<u8>, b: Seq<u8>, k: int) -> bool {
    &&& a.len() == b.len()
    &&& 0 <= k < a.len()
    &&& a[k] != b[k]
    &&& forall|i: int| 0 <= i < a.len() && i != k ==> a[i] == b[i]
}

proof fn lemma_crc_bit_injective(a: u32, b: u32)
    requires
        crc_bit(a) == crc_bit(b),
    ensures
        a == b,
{
    assert(a == b) by (bit_vector)
        requires
            (if a & 1 == 1 {
                (a >> 1) ^ 0xedb8_8320u32
            } else {
                a >> 1
            }) == (if b & 1 == 1 {
                (b >> 1) ^ 0xedb8_8320u32
            } else {
                b >> 1
            }),
    ;
}

proof fn lemma_crc_bits_injective(a: u32, b: u32, n: nat)
    requires
        crc_bits(a, n) == crc_bits(b, n),
    ensures
        a == b,
    decreases n,
{
    if n > 0 {
        let m = (n - 1) as nat;
        lemma_crc_bit_injective(crc_bits(a, m), crc_bits(b, m));
        lemma_crc_bits_injective(a, b, m);
    }
}

proof fn lemma_crc_byte_injective(a: u32, b: u32, x: u8, y: u8)
    ensures
        crc_byte(a, x) == crc_byte(b, x) ==> a == b,
        crc_byte(a, x) == crc_byte(a, y) ==> x == y,
{
    if crc_byte(a, x) == crc_byte(b, x) {
        lemma_crc_bits_injective(a ^ (x as u32), b ^ (x as u32), 8);
        assert(a == b) by (bit_vector)
            requires
                a ^ (x as u32) == b ^ (x as u32),
        ;
    }
    if crc_byte(a, x) == crc_byte(a, y) {
        lemma_crc_bits_injective(a ^ (x as u32), a ^ (y as u32), 8);
        assert(x == y) by (bit_vector)
            requires
                a ^ (x as u32) == a ^ (y as u32),
        ;
    }
}

proof fn lemma_crc_state_differs(a: Seq<u8>, b: Seq<u8>, k: int)
    requires
        differ_only_at(a, b, k),
    ensures
        crc_state(a) != crc_state(b),
    decreases a.len(),
{
    let front_a = a.drop_last();
    let front_b = b.drop_last();
    if k == a.len() - 1 {
        assert(front_a =~= front_b);
        lemma_crc_byte_injective(crc_state(front_a), crc_state(front_b), a.last(), b.last());
    } else {
        lemma_crc_state_differs(front_a, front_b, k);
        lemma_crc_byte_injective(crc_state(front_a), crc_state(front_b), a.last(), b.last());
    }
}

/// Changing one byte of a payload changes its checksum.
pub proof fn checksum_detects_one_changed_byte(a: Seq<u8>, b: Seq<u8>, k: int)
    requires
        differ_only_at(a, b, k),
    ensures
        checksum(a) != checksum(b),
{
    lemma_crc_state_differs(a, b, k);
    let x = crc_state(a);
    let y = crc_state(b);
    assert(!x != !y) by (bit_vector)
        requires
            x != y,
    ;
}

/// A stored blob in which one byte, of the header or of the payload, was changed is
/// never accepted.
pub proof fn one_changed_byte_is_rejected(payload: Seq<u8>, damaged: Seq<u8>, k: int)
    requires
        payload.len() <= MAX_BLOB_BYTES,
        differ_only_at(framed(payload), damaged, k),
    ensures
        unframed(damaged) is Err,
{
    let blob = framed(payload);
    lemma_header_parts(payload);
    vstd::bytes::lemma_auto_spec_u64_to_from_le_bytes();
    vstd::bytes::lemma_auto_spec_u32_to_from_le_bytes();
    if unframed(damaged) is Ok {
        let schema = damaged.subrange(8, 16);
        let length = damaged.subrange(16, 24);
        let crc = damaged.subrange(24, 28);
        let body = damaged.skip(HEADER_LEN as int);
        if k < 8 {
            assert(damaged.take(8)[k] != blob.take(8)[k]);
        } else if k < 16 {
            assert(schema[k - 8] != blob.subrange(8, 16)[k - 8]);
            assert(vstd::bytes::spec_u64_to_le_bytes(
                vstd::bytes::spec_u64_from_le_bytes(schema),
            ) == schema);
        } else if k < 24 {
            assert(length[k - 16] != blob.subrange(16, 24)[k - 16]);
            assert(vstd::bytes::spec_u64_to_le_bytes(
                vstd::bytes::spec_u64_from_le_bytes(length),
            ) == length);
        } else if k < 28 {
            assert(crc[k - 24] != blob.subrange(24, 28)[k - 24]);
            assert(body =~= payload);
            assert(vstd::bytes::spec_u32_to_le_bytes(
                vstd::bytes::spec_u32_from_le_bytes(crc),
            ) == crc);
        } else {
            assert(crc =~= blob.subrange(24, 28));
            assert(differ_only_at(payload, body, k - 28));
            checksum_detects_one_changed_byte(payload, body, k - 28);
        }
    }
}

} // verus!
