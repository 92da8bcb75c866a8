use vstd::prelude::*;
use chrono::{Datelike, Timelike};

verus! {

/// Offset of the first log record in the log file: the first four bytes hold the
/// write position.
pub const FIRST_RECORD: u32 = 4;

/// Largest write position kept; a larger stored position starts over at the first
/// record.
pub const POINTER_LIMIT: u32 = 33554432;

/// The local date and time of a log record.
pub struct LocalTime {
    pub year: i32,
    pub month: u32,
    pub day: u32,
    pub hour: u32,
    pub second: u32,
}

/// The current local date and time.
///
/// Trusted: `chrono::Local::now` and the `Datelike`/`Timelike` accessors, which chrono
/// documents as month 1 to 12, day 1 to 31, hour 0 to 23 and second 0 to 59. Nothing
/// more is stated: the result depends on the clock and the time zone.
#[verifier::external_body]
fn local_now() -> (t: LocalTime)
    ensures
        1 <= t.month <= 12,
        1 <= t.day <= 31,
        t.hour <= 23,
        t.second <= 59,
{
    let local = chrono::Local::now();
    LocalTime {
        year: local.year(),
        month: local.month(),
        day: local.day(),
        hour: local.hour(),
        second: local.second(),
    }
}

/// Quotient of `y` by 256, rounded toward zero.
pub open spec fn div_toward_zero(y: int) -> int {
    if y >= 0 {
        y / 256
    } else {
        -((-y) / 256)
    }
}

/// The two bytes that a log record holds of the year `y`: the low byte of `y`, and the
/// low byte of `y` divided by 256 toward zero (the year as `(y % 256) as u8` and
/// `(y / 256) as u8` give them).
pub open spec fn year_low(y: int) -> u8 {
    (y % 256) as u8
}

pub open spec fn year_high(y: int) -> u8 {
    (div_toward_zero(y) % 256) as u8
}

fn year_bytes(y: i32) -> (r: (u8, u8))
    ensures
        r.0 == year_low(y as int),
        r.1 == year_high(y as int),
{
    if y >= 0 {
        let u = y as u32;
        ((u % 256) as u8, ((u / 256) % 256) as u8)
    } else {
        let n: u64 = (0i64 - (y as i64)) as u64;
        let r: u64 = n % 256;
        let low: u8 = if r == 0 {
            0
        } else {
            (256 - r) as u8
        };
        let q: u64 = (n / 256) % 256;
        let high: u8 = if q == 0 {
            0
        } else {
            (256 - q) as u8
        };
        proof {
            let yi = y as int;
            assert(yi == -(n as int));
            assert((yi % 256) == (if r == 0 { 0 } else { 256 - r })) by (nonlinear_arith)
                requires
                    yi == -(n as int),
                    r == n % 256,
                    n > 0,
            ;
            assert((-((n as int) / 256)) % 256 == (if q == 0 { 0 } else { 256 - q })) by (nonlinear_arith)
                requires
                    q == (n / 256) % 256,
            ;
        }
        (low, high)
    }
}

/// A log record: the year (low byte, then high byte), month, day, hour and second,
/// then the frame.
pub open spec fn log_record(t: LocalTime, frame: Seq<u8>) -> Seq<u8> {
    seq![
        year_low(t.year as int),
        year_high(t.year as int),
        t.month as u8,
        t.day as u8,
        t.hour as u8,
        t.second as u8,
    ] + frame
}

/// Builds the log record of `frame` at time `t`.
pub fn log_record_at(t: &LocalTime, frame: &[u8]) -> (r: Vec<u8>)
    ensures
        r@ == log_record(*t, frame@),
{
    let mut log_frame: Vec<u8> = Vec::new();
    let (low, high) = year_bytes(t.year);
    log_frame.push(low);
    log_frame.push(high);
    log_frame.push(t.month as u8);
    log_frame.push(t.day as u8);
    log_frame.push(t.hour as u8);
    log_frame.push(t.second as u8);
    let ghost head = log_frame@;
    let mut i: usize = 0;
    while i < frame.len()
        invariant
            i <= frame@.len(),
            log_frame@ == head + frame@.take(i as int),
        decreases frame@.len() - i,
    {
        log_frame.push(frame[i]);
        i = i + 1;
        assert(log_frame@ =~= head + frame@.take(i as int));
    }
    assert(frame@.take(i as int) =~= frame@);
    assert(log_frame@ =~= log_record(*t, frame@));
    log_frame
}

/// Builds the log record of `frame` at the current local time.
pub fn gen_log_frame(frame: &[u8]) -> (r: Vec<u8>)
    ensures
        exists|t: LocalTime| 1 <= t.month <= 12 && 1 <= t.day <= 31 && t.hour <= 23 && t.second
            <= 59 && r@ == #[trigger] log_record(t, frame@),
{
    let t = local_now();
    log_record_at(&t, frame)
}

/// Little-endian bytes of a 32-bit value.
pub open spec fn le32_bytes(v: u32) -> Seq<u8> {
    seq![(v % 256) as u8, (v / 256 % 256) as u8, (v / 65536 % 256) as u8, (v / 16777216) as u8]
}

/// The four bytes that store the write position `pointer` at the start of the log.
pub fn pointer_bytes(pointer: u32) -> (r: Vec<u8>)
    ensures
        r@ == le32_bytes(pointer),
{
    let mut pointer_vec: Vec<u8> = Vec::new();
    pointer_vec.push(pointer as u8);
    pointer_vec.push((pointer >> 8) as u8);
    pointer_vec.push((pointer >> 16) as u8);
    pointer_vec.push((pointer >> 24) as u8);
    proof {
        assert(pointer as u8 == pointer % 256) by (bit_vector);
        assert((pointer >> 8) as u8 == pointer / 256 % 256) by (bit_vector);
        assert((pointer >> 16) as u8 == pointer / 65536 % 256) by (bit_vector);
        assert((pointer >> 24) as u8 == pointer / 16777216) by (bit_vector);
    }
    assert(pointer_vec@ =~= le32_bytes(pointer));
    pointer_vec
}

/// The little-endian value of four bytes.
pub open spec fn le32_value(b: Seq<u8>) -> int {
    b[0] + b[1] * 256 + b[2] * 65536 + b[3] * 16777216
}

/// The write position that the four stored bytes give: their little-endian value, or
/// the first record when that value is past the limit.
pub open spec fn file_pointer(b: Seq<u8>) -> u32 {
    if le32_value(b) > POINTER_LIMIT {
        FIRST_RECORD
    } else {
        le32_value(b) as u32
    }
}

/// Reads the write position from the four bytes at the start of the log.
pub fn file_pointer_from_bytes(file_point: &[u8; 4]) -> (p: u32)
    ensures
        p == file_pointer(file_point@),
{
    let mut now_file_pointer: u32 = 0;
    now_file_pointer = now_file_pointer + file_point[0] as u32;
    now_file_pointer = now_file_pointer + file_point[1] as u32 * 256;
    now_file_pointer = now_file_pointer + file_point[2] as u32 * 65536;
    now_file_pointer = now_file_pointer + file_point[3] as u32 * 16777216;
    if now_file_pointer > POINTER_LIMIT {
        now_file_pointer = FIRST_RECORD;
    }
    now_file_pointer
}


/// The write position stored with `pointer_bytes` is read back by
/// `file_pointer_from_bytes`, unless it is past the limit, which reads as the first
/// record.
pub proof fn lemma_pointer_round_trip(pointer: u32)
    ensures
        file_pointer(le32_bytes(pointer)) == if pointer > POINTER_LIMIT {
            FIRST_RECORD
        } else {
            pointer
        },
{
    let b = le32_bytes(pointer);
    assert(b[0] == pointer % 256 && b[1] == pointer / 256 % 256 && b[2] == pointer / 65536 % 256
        && b[3] == pointer / 16777216);
    assert((pointer % 256) + (pointer / 256 % 256) * 256 + (pointer / 65536 % 256) * 65536 + (
    pointer / 16777216) * 16777216 == pointer) by (bit_vector);
}

} // verus!
