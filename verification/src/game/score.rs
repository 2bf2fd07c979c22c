//! The high-score file: the score as four little-endian bytes.

use vstd::prelude::*;

verus! {

/// The number four little-endian bytes spell, read as a signed 32-bit
/// value (two's complement).
pub open spec fn le_i32_value(b: Seq<u8>) -> int {
    let v = b[0] + 256 * b[1] + 65536 * b[2] + 16777216 * b[3];
    if v < 0x8000_0000 {
        v
    } else {
        v - 0x1_0000_0000
    }
}

/// The four little-endian bytes of `score`, two's complement.
pub open spec fn le_bytes(score: i32) -> Seq<u8> {
    let v: int = if score >= 0 { score as int } else { score + 0x1_0000_0000 };
    seq![(v % 256) as u8, ((v / 256) % 256) as u8, ((v / 65536) % 256) as u8, (v / 16777216) as u8]
}

/// The high score stored in the first four bytes of a score file.
pub fn decode_high_score(bytes: &[u8]) -> (score: i32)
    requires
        bytes@.len() >= 4,
    ensures
        score == le_i32_value(bytes@),
{
    let v: u64 = bytes[0] as u64 + 256 * (bytes[1] as u64) + 65536 * (bytes[2] as u64) + 16777216 * (bytes[3] as u64);
    if v < 0x8000_0000 {
        v as i32
    } else {
        (v as i64 - 0x1_0000_0000i64) as i32
    }
}

/// The high score read from a score file, or 0 when there is no file.
pub fn load_high_score(file: Option<&[u8]>) -> (score: i32)
    requires
        file matches Some(b) ==> b@.len() >= 4,
    ensures
        match file {
            Some(b) => score == le_i32_value(b@),
            None => score == 0,
        },
{
    match file {
        Some(b) => decode_high_score(b),
        None => 0,
    }
}

/// The four bytes a score file holds for `score`.
pub fn encode_high_score(score: i32) -> (bytes: Vec<u8>)
    ensures
        bytes@ == le_bytes(score),
{
    let v: u64 = if score >= 0 {
        score as u64
    } else {
        (score as i64 + 0x1_0000_0000i64) as u64
    };
    let b0 = (v % 256) as u8;
    let b1 = ((v / 256) % 256) as u8;
    let b2 = ((v / 65536) % 256) as u8;
    let b3 = (v / 16777216) as u8;
    let mut bytes: Vec<u8> = Vec::new();
    bytes.push(b0);
    bytes.push(b1);
    bytes.push(b2);
    bytes.push(b3);
    assert(bytes@ =~= le_bytes(score));
    bytes
}

/// Writing a score and reading it back gives the same score.
pub proof fn law_score_round_trip(score: i32)
    ensures
        le_bytes(score).len() == 4,
        le_i32_value(le_bytes(score)) == score,
{
    let v: int = if score >= 0 { score as int } else { score + 0x1_0000_0000 };
    assert(0 <= v < 0x1_0000_0000);
    let b = le_bytes(score);
    assert(b[0] + 256 * b[1] + 65536 * b[2] + 16777216 * b[3] == v) by (nonlinear_arith)
        requires
            0 <= v < 0x1_0000_0000,
            b[0] == v % 256,
            b[1] == (v / 256) % 256,
            b[2] == (v / 65536) % 256,
            b[3] == v / 16777216,
    ;
}

} // verus!
