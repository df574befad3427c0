//! The compact binary encoding of one sample: a fixed 21-byte frame,
//! one marker byte `0xFF`, the six axis fields as two little-endian
//! bytes each, then `dt` as eight little-endian bytes. Byte order and
//! field order are part of the wire contract.

use vstd::prelude::*;

use crate::sample::RawFlightData;

verus! {

/// The 21-byte frame encoding a sample: marker, six axis fields as
/// little-endian 16-bit two's-complement, `dt` as little-endian 64-bit.
pub open spec fn spec_encode(d: RawFlightData) -> Seq<u8> {
    seq![
        0xffu8,
        (d.ac_x as u16) as u8,
        ((d.ac_x as u16) >> 8) as u8,
        (d.ac_y as u16) as u8,
        ((d.ac_y as u16) >> 8) as u8,
        (d.ac_z as u16) as u8,
        ((d.ac_z as u16) >> 8) as u8,
        (d.gy_x as u16) as u8,
        ((d.gy_x as u16) >> 8) as u8,
        (d.gy_y as u16) as u8,
        ((d.gy_y as u16) >> 8) as u8,
        (d.gy_z as u16) as u8,
        ((d.gy_z as u16) >> 8) as u8,
        d.dt as u8,
        (d.dt >> 8) as u8,
        (d.dt >> 16) as u8,
        (d.dt >> 24) as u8,
        (d.dt >> 32) as u8,
        (d.dt >> 40) as u8,
        (d.dt >> 48) as u8,
        (d.dt >> 56) as u8,
    ]
}

/// The 16-bit value carried by two little-endian bytes.
pub open spec fn u16_from_le(b0: u8, b1: u8) -> u16 {
    (b0 as u16) | ((b1 as u16) << 8)
}

/// The 64-bit value carried by eight little-endian bytes.
pub open spec fn u64_from_le(
    b0: u8,
    b1: u8,
    b2: u8,
    b3: u8,
    b4: u8,
    b5: u8,
    b6: u8,
    b7: u8,
) -> u64 {
    (b0 as u64) | ((b1 as u64) << 8) | ((b2 as u64) << 16) | ((b3 as u64) << 24) | ((b4 as u64)
        << 32) | ((b5 as u64) << 40) | ((b6 as u64) << 48) | ((b7 as u64) << 56)
}

/// Decoding a 21-byte frame: `Some` exactly when the input is 21 bytes
/// long and starts with the marker byte `0xFF`.
pub open spec fn spec_decode(b: Seq<u8>) -> Option<RawFlightData> {
    if b.len() == 21 && b[0] == 0xff {
        Some(
            RawFlightData {
                ac_x: u16_from_le(b[1], b[2]) as i16,
                ac_y: u16_from_le(b[3], b[4]) as i16,
                ac_z: u16_from_le(b[5], b[6]) as i16,
                gy_x: u16_from_le(b[7], b[8]) as i16,
                gy_y: u16_from_le(b[9], b[10]) as i16,
                gy_z: u16_from_le(b[11], b[12]) as i16,
                dt: u64_from_le(b[13], b[14], b[15], b[16], b[17], b[18], b[19], b[20]),
            },
        )
    } else {
        None
    }
}

/// Encode one sample as its 21-byte little-endian frame.
pub fn encode_binary(d: &RawFlightData) -> (r: Vec<u8>)
    ensures
        r@ == spec_encode(*d),
        r@.len() == 21,
{
    let mut r: Vec<u8> = Vec::new();
    r.push(0xff);
    let ax = d.ac_x as u16;
    r.push(ax as u8);
    r.push((ax >> 8) as u8);
    let ay = d.ac_y as u16;
    r.push(ay as u8);
    r.push((ay >> 8) as u8);
    let az = d.ac_z as u16;
    r.push(az as u8);
    r.push((az >> 8) as u8);
    let gx = d.gy_x as u16;
    r.push(gx as u8);
    r.push((gx >> 8) as u8);
    let gy = d.gy_y as u16;
    r.push(gy as u8);
    r.push((gy >> 8) as u8);
    let gz = d.gy_z as u16;
    r.push(gz as u8);
    r.push((gz >> 8) as u8);
    let dt = d.dt;
    r.push(dt as u8);
    r.push((dt >> 8) as u8);
    r.push((dt >> 16) as u8);
    r.push((dt >> 24) as u8);
    r.push((dt >> 32) as u8);
    r.push((dt >> 40) as u8);
    r.push((dt >> 48) as u8);
    r.push((dt >> 56) as u8);
    proof {
        assert(r@ =~= spec_encode(*d));
    }
    r
}

/// Decode a 21-byte little-endian frame back into a sample.
pub fn decode_binary(b: &[u8]) -> (r: Option<RawFlightData>)
    ensures
        r == spec_decode(b@),
{
    if b.len() != 21 || b[0] != 0xff {
        return None;
    }
    Some(
        RawFlightData {
            ac_x: ((b[1] as u16) | ((b[2] as u16) << 8)) as i16,
            ac_y: ((b[3] as u16) | ((b[4] as u16) << 8)) as i16,
            ac_z: ((b[5] as u16) | ((b[6] as u16) << 8)) as i16,
            gy_x: ((b[7] as u16) | ((b[8] as u16) << 8)) as i16,
            gy_y: ((b[9] as u16) | ((b[10] as u16) << 8)) as i16,
            gy_z: ((b[11] as u16) | ((b[12] as u16) << 8)) as i16,
            dt: (b[13] as u64) | ((b[14] as u64) << 8) | ((b[15] as u64) << 16) | ((b[16] as u64)
                << 24) | ((b[17] as u64) << 32) | ((b[18] as u64) << 40) | ((b[19] as u64) << 48) | (
            (b[20] as u64) << 56),
        },
    )
}

proof fn lemma_i16_le_round_trip(x: i16)
    by (bit_vector)
    ensures
        u16_from_le((x as u16) as u8, ((x as u16) >> 8) as u8) as i16 == x,
{
}

proof fn lemma_u64_le_round_trip(x: u64)
    by (bit_vector)
    ensures
        u64_from_le(
            x as u8,
            (x >> 8) as u8,
            (x >> 16) as u8,
            (x >> 24) as u8,
            (x >> 32) as u8,
            (x >> 40) as u8,
            (x >> 48) as u8,
            (x >> 56) as u8,
        ) == x,
{
}

/// Law: encoding a sample and decoding the frame reproduces the sample,
/// field for field, for every sample — negative axis values included,
/// through their little-endian two's-complement bytes.
pub proof fn lemma_binary_round_trip(d: RawFlightData)
    ensures
        spec_decode(spec_encode(d)) == Some(d),
{
    lemma_i16_le_round_trip(d.ac_x);
    lemma_i16_le_round_trip(d.ac_y);
    lemma_i16_le_round_trip(d.ac_z);
    lemma_i16_le_round_trip(d.gy_x);
    lemma_i16_le_round_trip(d.gy_y);
    lemma_i16_le_round_trip(d.gy_z);
    lemma_u64_le_round_trip(d.dt);
}

} // verus!
