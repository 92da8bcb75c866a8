use vstd::prelude::*;
use crate::text::string_push;

verus! {

/// One shift step of the reflected CRC-16 with polynomial 0xA001.
pub open spec fn crc_shift(crc: u16) -> u16 {
    if (crc & 0x01) > 0 {
        (crc >> 1) ^ 0xa001u16
    } else {
        crc >> 1
    }
}

/// `n` shift steps applied to `crc`.
pub open spec fn crc_shifts(crc: u16, n: nat) -> u16
    decreases n,
{
    if n == 0 {
        crc
    } else {
        crc_shift(crc_shifts(crc, (n - 1) as nat))
    }
}

/// CRC-16 (init 0xFFFF, reflected polynomial 0xA001, no final xor) of a byte sequence.
pub open spec fn crc16_spec(s: Seq<u8>) -> u16
    decreases s.len(),
{
    if s.len() == 0 {
        0xFFFFu16
    } else {
        crc_shifts(crc16_spec(s.drop_last()) ^ (s.last() as u16), 8)
    }
}

fn crc16_prefix(data: &[u8], n: usize) -> (crc: u16)
    requires
        n <= data@.len(),
    ensures
        crc == crc16_spec(data@.take(n as int)),
{
    let mut crc16: u16 = 0xFFFF;
    let mut i: usize = 0;
    while i < n
        invariant
            i <= n,
            n <= data@.len(),
            crc16 == crc16_spec(data@.take(i as int)),
        decreases n - i,
    {
        assert(data@.take(i + 1).drop_last() =~= data@.take(i as int));
        crc16 = crc16 ^ (data[i] as u16);
        let ghost start = crc16;
        let mut j: u32 = 0;
        while j < 8
            invariant
                j <= 8,
                crc16 == crc_shifts(start, j as nat),
            decreases 8 - j,
        {
            if (crc16 & 0x01) > 0 {
                crc16 = (crc16 >> 1) ^ 0xa001;
            } else {
                crc16 = crc16 >> 1;
            }
            j = j + 1;
        }
        i = i + 1;
    }
    crc16
}

pub(crate) fn crc16_a001(data: &[u8]) -> (crc: u16)
    ensures
        crc == crc16_spec(data@),
{
    assert(data@.take(data@.len() as int) =~= data@);
    crc16_prefix(data, data.len())
}


/// Value of a lowercase hexadecimal digit; 16 for any other character.
pub open spec fn hex_value(c: char) -> u8 {
    if '0' <= c && c <= '9' {
        (c as u32 - 48) as u8
    } else if c == 'a' {
        10
    } else if c == 'b' {
        11
    } else if c == 'c' {
        12
    } else if c == 'd' {
        13
    } else if c == 'e' {
        14
    } else if c == 'f' {
        15
    } else {
        16
    }
}

/// Lowercase hexadecimal digit of a value below 16; 'x' for any other value.
pub open spec fn hex_digit(v: u8) -> char {
    if v <= 9 {
        (v + 48) as char
    } else if v <= 15 {
        (v + 87) as char
    } else {
        'x'
    }
}

pub fn hex_to_inter(hex: char) -> (v: u8)
    ensures
        v == hex_value(hex),
{
    if '0' <= hex && hex <= '9' {
        (hex as u32 - 48) as u8
    } else if hex == 'a' {
        10
    } else if hex == 'b' {
        11
    } else if hex == 'c' {
        12
    } else if hex == 'd' {
        13
    } else if hex == 'e' {
        14
    } else if hex == 'f' {
        15
    } else {
        16
    }
}

pub fn inter_to_hex(hex: u8) -> (c: char)
    ensures
        c == hex_digit(hex),
{
    if hex <= 9 {
        (hex + 48) as char
    } else if hex <= 15 {
        (hex + 87) as char
    } else {
        'x'
    }
}


/// Lowercase hexadecimal text of a byte sequence, two digits per byte, high digit first.
pub open spec fn hex_string(s: Seq<u8>) -> Seq<char>
    decreases s.len(),
{
    if s.len() == 0 {
        Seq::empty()
    } else {
        hex_string(s.drop_last()) + seq![hex_digit(s.last() / 16), hex_digit(s.last() % 16)]
    }
}

/// Whether every character is a lowercase hexadecimal digit.
pub open spec fn all_hex(s: Seq<char>) -> bool {
    forall|i: int| 0 <= i < s.len() ==> #[trigger] hex_value(s[i]) < 16
}

/// Byte `i` of the hexadecimal text `s`: its digits at `2i` and `2i + 1`.
pub open spec fn hex_pair(s: Seq<char>, i: int) -> u8 {
    (hex_value(s[2 * i]) * 16 + hex_value(s[2 * i + 1])) as u8
}

/// Bytes that hexadecimal text decodes to: one byte per complete digit pair (a trailing
/// single digit is dropped), and nothing at all when any character is not a lowercase
/// hexadecimal digit.
pub open spec fn hex_bytes(s: Seq<char>) -> Seq<u8> {
    if all_hex(s) {
        Seq::new(s.len() / 2, |i: int| hex_pair(s, i))
    } else {
        Seq::empty()
    }
}

pub fn trans_to_string(data: &[u8]) -> (d_string: String)
    ensures
        d_string@ == hex_string(data@),
{
    let mut d_string: String = String::new();
    let mut i: usize = 0;
    while i < data.len()
        invariant
            i <= data.len(),
            d_string@ == hex_string(data@.take(i as int)),
        decreases data.len() - i,
    {
        assert(data@.take(i + 1).drop_last() =~= data@.take(i as int));
        let b = data[i];
        string_push(&mut d_string, inter_to_hex(b / 16));
        string_push(&mut d_string, inter_to_hex(b % 16));
        i = i + 1;
        assert(d_string@ =~= hex_string(data@.take(i as int)));
    }
    assert(data@.take(data.len() as int) =~= data@);
    d_string
}

pub fn trans_to_vec(data: &String) -> (frame_vec: Vec<u8>)
    ensures
        frame_vec@ == hex_bytes(data@),
{
    let mut frame_vec: Vec<u8> = Vec::new();
    let mut count: u8 = 0;
    let mut dec: u8 = 0;
    let ghost s = data@;
    for b in it: data.chars()
        invariant
            it.seq() == s,
            s == data@,
            count <= 1,
            count as int == it.index() % 2,
            frame_vec@.len() == it.index() / 2,
            forall|j: int| 0 <= j < it.index() ==> #[trigger] hex_value(s[j]) < 16,
            forall|j: int| 0 <= j < it.index() / 2 ==> #[trigger] frame_vec@[j] == hex_pair(s, j),
            count == 1 ==> dec == hex_value(s[it.index() - 1]) * 16,
            count == 0 ==> dec == 0,
    {
        assert(b == s[it.index() as int]);
        let after: u8 = hex_to_inter(b);
        if after == 16 {
            assert(!all_hex(s)) by {
                assert(hex_value(s[it.index() as int]) == 16);
            }
            return Vec::new();
        }
        if count == 0 {
            count = count + 1;
            dec = dec + after * 16;
        } else {
            count = 0;
            dec = dec + after;
            frame_vec.push(dec);
            dec = 0;
        }
    }
    assert(frame_vec@ =~= hex_bytes(s));
    frame_vec
}


/// Little-endian bytes of a 16-bit value.
pub open spec fn le16(v: u16) -> Seq<u8> {
    seq![(v % 256) as u8, (v / 256) as u8]
}

/// Length field of a frame that carries `data_len` payload bytes and `overhead` bytes
/// of framing: the payload length taken modulo 2^16, plus the overhead.
pub open spec fn length_field(data_len: nat, overhead: nat) -> u16 {
    ((data_len % 65536) + overhead) as u16
}

/// Whether a payload of `data_len` bytes can be framed with `overhead` framing bytes
/// without the 16-bit length computation overflowing.
pub open spec fn length_fits(data_len: nat, overhead: nat) -> bool {
    (data_len % 65536) + overhead <= 65535
}

/// Head byte, little-endian length field, type byte, then the payload.
pub open spec fn frame_body(head: u8, frame_type: u8, length: u16, data: Seq<u8>) -> Seq<u8> {
    seq![head] + le16(length) + seq![frame_type] + data
}

/// A 0x69-style frame: body, CRC-16 of the body (little endian), end byte.
pub open spec fn frame_69(head: u8, frame_type: u8, data: Seq<u8>, end: u8) -> Seq<u8> {
    let body = frame_body(head, frame_type, length_field(data.len(), 7), data);
    body + le16(crc16_spec(body)) + seq![end]
}

/// Sum of the bytes modulo 256.
pub open spec fn byte_sum(s: Seq<u8>) -> u8
    decreases s.len(),
{
    if s.len() == 0 {
        0
    } else {
        ((byte_sum(s.drop_last()) + s.last()) % 256) as u8
    }
}

/// A 0x68-style frame: body, byte sum of the body, end byte.
pub open spec fn frame_68(head: u8, frame_type: u8, data: Seq<u8>, end: u8) -> Seq<u8> {
    let body = frame_body(head, frame_type, length_field(data.len(), 6), data);
    body + seq![byte_sum(body), end]
}

/// Whether the two bytes before the last byte hold (little endian) the CRC-16 of
/// everything before them.
pub open spec fn crc_matches(frame: Seq<u8>) -> bool {
    let n = frame.len() as int;
    crc16_spec(frame.take(n - 3)) as int == frame[n - 3] as int + frame[n - 2] as int * 256
}

fn push_le16(frame: &mut Vec<u8>, v: u16)
    ensures
        final(frame)@ == old(frame)@ + le16(v),
{
    if v < 256 {
        frame.push(v as u8);
        frame.push(0);
    } else {
        frame.push((v % 256) as u8);
        frame.push((v / 256) as u8);
    }
    assert(final(frame)@ =~= old(frame)@ + le16(v));
}

fn push_all(frame: &mut Vec<u8>, data: &[u8])
    ensures
        final(frame)@ == old(frame)@ + data@,
{
    let mut i: usize = 0;
    while i < data.len()
        invariant
            i <= data.len(),
            frame@ == old(frame)@ + data@.take(i as int),
        decreases data.len() - i,
    {
        frame.push(data[i]);
        i = i + 1;
        assert(frame@ =~= old(frame)@ + data@.take(i as int));
    }
    assert(data@.take(data.len() as int) =~= data@);
}

fn frame_head(head: u8, frame_type: u8, data: &[u8], overhead: u16) -> (frame: Vec<u8>)
    requires
        overhead <= 7,
        length_fits(data@.len(), overhead as nat),
    ensures
        frame@ == frame_body(head, frame_type, length_field(data@.len(), overhead as nat), data@),
{
    let length: u16 = overhead + (data.len() % 65536) as u16;
    let mut frame: Vec<u8> = Vec::new();
    frame.push(head);
    push_le16(&mut frame, length);
    frame.push(frame_type);
    push_all(&mut frame, data);
    assert(frame@ =~= frame_body(head, frame_type, length_field(data@.len(), overhead as nat), data@));
    frame
}

pub fn create_69_frame(head: u8, frame_type: u8, data: &[u8], end: u8) -> (frame: Vec<u8>)
    requires
        length_fits(data@.len(), 7),
    ensures
        frame@ == frame_69(head, frame_type, data@, end),
{
    let mut frame = frame_head(head, frame_type, data, 7);
    let crc: u16 = crc16_a001(frame.as_slice());
    push_le16(&mut frame, crc);
    frame.push(end);
    frame
}

pub fn create_68_frame(head: u8, frame_type: u8, data: &[u8], end: u8) -> (frame: Vec<u8>)
    requires
        length_fits(data@.len(), 6),
    ensures
        frame@ == frame_68(head, frame_type, data@, end),
{
    let mut frame = frame_head(head, frame_type, data, 6);
    let mut sum: u8 = 0;
    let mut i: usize = 0;
    while i < frame.len()
        invariant
            i <= frame@.len(),
            sum == byte_sum(frame@.take(i as int)),
        decreases frame@.len() - i,
    {
        assert(frame@.take(i + 1).drop_last() =~= frame@.take(i as int));
        sum = frame[i].wrapping_add(sum);
        i = i + 1;
    }
    assert(frame@.take(frame@.len() as int) =~= frame@);
    frame.push(sum);
    frame.push(end);
    frame
}

pub fn frame_judge_crc16(data: &Vec<u8>) -> (ok: bool)
    requires
        data@.len() >= 3,
    ensures
        ok == crc_matches(data@),
{
    let n = data.len() - 3;
    let crc_cal: u16 = crc16_prefix(data.as_slice(), n);
    let crc_now: u16 = (data[n] as u16) + (data[n + 1] as u16) * 256;
    crc_now == crc_cal
}


proof fn lemma_digit_value(v: u8)
    requires
        v < 16,
    ensures
        hex_value(hex_digit(v)) == v,
        hex_value(hex_digit(v)) < 16,
{
}

proof fn lemma_value_digit(c: char)
    requires
        hex_value(c) < 16,
    ensures
        hex_digit(hex_value(c)) == c,
{
}

/// The hexadecimal text of `d` has two digits per byte: the high digit of byte `i` at
/// `2i` and its low digit at `2i + 1`.
pub proof fn lemma_hex_string_shape(d: Seq<u8>)
    ensures
        hex_string(d).len() == 2 * d.len(),
        forall|i: int|
            0 <= i < d.len() ==> hex_string(d)[2 * i] == hex_digit(#[trigger] d[i] / 16)
                && hex_string(d)[2 * i + 1] == hex_digit(d[i] % 16),
    decreases d.len(),
{
    if d.len() > 0 {
        let p = d.drop_last();
        lemma_hex_string_shape(p);
        assert forall|i: int| 0 <= i < d.len() implies hex_string(d)[2 * i] == hex_digit(
            #[trigger] d[i] / 16,
        ) && hex_string(d)[2 * i + 1] == hex_digit(d[i] % 16) by {
            if i < p.len() {
                assert(p[i] == d[i]);
            }
        }
    }
}

/// Encoding bytes as hexadecimal text and decoding the text gives the bytes back.
pub proof fn lemma_hex_roundtrip(d: Seq<u8>)
    ensures
        hex_bytes(hex_string(d)) == d,
{
    let s = hex_string(d);
    lemma_hex_string_shape(d);
    assert forall|j: int| 0 <= j < s.len() implies #[trigger] hex_value(s[j]) < 16 by {
        let i = j / 2;
        assert(0 <= i < d.len());
        lemma_digit_value(d[i] / 16);
        lemma_digit_value(d[i] % 16);
        if j % 2 == 0 {
            assert(j == 2 * i);
        } else {
            assert(j == 2 * i + 1);
        }
    }
    assert forall|i: int| 0 <= i < d.len() implies #[trigger] hex_pair(s, i) == d[i] by {
        lemma_digit_value(d[i] / 16);
        lemma_digit_value(d[i] % 16);
    }
    assert(hex_bytes(s) =~= d);
}

/// Decoding well-formed hexadecimal text (lowercase digits, even length) and encoding
/// the bytes again gives the text back.
pub proof fn lemma_hex_text_roundtrip(s: Seq<char>)
    requires
        all_hex(s),
        s.len() % 2 == 0,
    ensures
        hex_string(hex_bytes(s)) == s,
{
    let d = hex_bytes(s);
    lemma_hex_string_shape(d);
    let t = hex_string(d);
    assert forall|j: int| 0 <= j < s.len() implies #[trigger] t[j] == s[j] by {
        let i = j / 2;
        let hi = hex_value(s[2 * i]);
        let lo = hex_value(s[2 * i + 1]);
        assert(hi < 16 && lo < 16);
        assert(d[i] == hex_pair(s, i));
        assert(d[i] / 16 == hi && d[i] % 16 == lo);
        lemma_value_digit(s[2 * i]);
        lemma_value_digit(s[2 * i + 1]);
        if j % 2 == 0 {
            assert(j == 2 * i);
        } else {
            assert(j == 2 * i + 1);
        }
    }
    assert(t =~= s);
}

/// A frame built by `create_69_frame` passes the check of `frame_judge_crc16`.
pub proof fn lemma_built_69_frame_passes_crc(head: u8, frame_type: u8, data: Seq<u8>, end: u8)
    requires
        length_fits(data.len(), 7),
    ensures
        crc_matches(frame_69(head, frame_type, data, end)),
{
    let body = frame_body(head, frame_type, length_field(data.len(), 7), data);
    let f = frame_69(head, frame_type, data, end);
    assert(f.take(f.len() - 3) =~= body);
}


/// Head byte of an inner (0x69) mesh frame.
pub const MESH_HEAD: u8 = 105;

/// End byte of an inner (0x69) mesh frame.
pub const MESH_END: u8 = 67;

/// Head byte of an outer (0x68) frame.
pub const OUTER_HEAD: u8 = 104;

/// Type byte of an outer frame that carries a mesh frame.
pub const OUTER_TYPE: u8 = 32;

/// End byte of an outer (0x68) frame.
pub const OUTER_END: u8 = 22;

/// A mesh command for the radio manager: an inner frame of type `cmd` around `data`,
/// itself carried by an outer frame.
pub open spec fn command_frame(cmd: u8, data: Seq<u8>) -> Seq<u8> {
    frame_68(OUTER_HEAD, OUTER_TYPE, frame_69(MESH_HEAD, cmd, data, MESH_END), OUTER_END)
}

/// Whether a command payload of `n` bytes can be framed without overflow.
pub open spec fn command_fits(n: nat) -> bool {
    length_fits(n, 7) && length_fits(n + 7, 6)
}

/// Whether a command payload of `n` bytes can be framed without overflow.
pub fn command_fits_check(n: usize) -> (ok: bool)
    ensures
        ok == command_fits(n as nat),
{
    proof {
        let m = n as int % 65536;
        if m <= 65528 {
            assert((n as int + 7) % 65536 == m + 7) by (nonlinear_arith)
                requires
                    m == n as int % 65536,
                    m <= 65528,
                    n >= 0,
            ;
        }
    }
    n % 65536 <= 65522
}

/// Builds the mesh command of type `cmd` that carries `data`.
pub fn wrap_command(cmd: u8, data: &[u8]) -> (frame: Vec<u8>)
    requires
        command_fits(data@.len()),
    ensures
        frame@ == command_frame(cmd, data@),
{
    let frame_69 = create_69_frame(MESH_HEAD, cmd, data, MESH_END);
    create_68_frame(OUTER_HEAD, OUTER_TYPE, frame_69.as_slice(), OUTER_END)
}


/// A mesh command is a well-formed outer frame: head, a length field that gives the
/// length of the whole frame, the outer type, the inner frame (itself with a length
/// field that gives its own length and a matching CRC), the byte sum, the end byte.
pub proof fn lemma_command_frame_consistent(cmd: u8, data: Seq<u8>)
    requires
        data.len() + 13 <= 65535,
    ensures
        ({
            let f = command_frame(cmd, data);
            let inner = frame_69(MESH_HEAD, cmd, data, MESH_END);
            &&& f.len() == data.len() + 13
            &&& f[0] == OUTER_HEAD && f[3] == OUTER_TYPE && f[f.len() - 1] == OUTER_END
            &&& f[1] + 256 * f[2] == f.len()
            &&& f.subrange(4, f.len() - 2) == inner
            &&& f[f.len() - 2] == byte_sum(f.take(f.len() - 2))
            &&& inner[1] + 256 * inner[2] == inner.len()
            &&& crc_matches(inner)
        }),
{
    let f = command_frame(cmd, data);
    let inner = frame_69(MESH_HEAD, cmd, data, MESH_END);
    let body = frame_body(OUTER_HEAD, OUTER_TYPE, length_field(inner.len(), 6), inner);
    assert(f.take(f.len() - 2) =~= body);
    assert(f.subrange(4, f.len() - 2) =~= inner);
    lemma_built_69_frame_passes_crc(MESH_HEAD, cmd, data, MESH_END);
}


/// The CRC runs over every byte of the data, at any length: it starts at 0xFFFF, and
/// each further byte is xored into the low byte and followed by eight shift steps.
pub proof fn lemma_crc16_every_byte(s: Seq<u8>, b: u8)
    ensures
        crc16_spec(Seq::<u8>::empty()) == 0xFFFFu16,
        crc16_spec(s.push(b)) == crc_shifts(crc16_spec(s) ^ (b as u16), 8),
{
    assert(s.push(b).drop_last() =~= s);
}

/// One shift step halves the CRC and, when its low bit was set, xors in the reflected
/// polynomial 0xA001.
pub proof fn lemma_crc_shift_step(crc: u16)
    ensures
        crc % 2 == 1 ==> crc_shift(crc) == (crc / 2) ^ 0xa001u16,
        crc % 2 == 0 ==> crc_shift(crc) == crc / 2,
{
    assert((crc & 0x01) > 0 <==> crc % 2 == 1) by (bit_vector);
    assert(crc >> 1 == crc / 2) by (bit_vector);
}

/// The CRC check accepts a frame of any length whose stored bytes (low byte first)
/// are the CRC of every byte before them.
pub proof fn lemma_crc_check_accepts(body: Seq<u8>, end: u8)
    ensures
        crc_matches(body + le16(crc16_spec(body)) + seq![end]),
{
    let f = body + le16(crc16_spec(body)) + seq![end];
    assert(f.take(f.len() - 3) =~= body);
}


} // verus!
