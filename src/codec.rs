use vstd::prelude::*;
use byteorder::{ByteOrder, LittleEndian};
use crate::drift::DriftRecord;
use crate::error::FrameError;

verus! {

/// Bytes per stored pixel.
pub const PIXEL_BYTES: usize = 2;

/// Bytes per stored drift record: index, `dx` and `dy`, two bytes each.
pub const RECORD_BYTES: usize = 6;

/// The unsigned 16-bit value of a low byte and a high byte.
pub open spec fn le_u16(lo: u8, hi: u8) -> int {
    lo as int + 256 * hi as int
}

/// The signed 16-bit value of a low byte and a high byte, in two's complement.
pub open spec fn le_i16(lo: u8, hi: u8) -> int {
    if le_u16(lo, hi) >= 32768 {
        le_u16(lo, hi) - 65536
    } else {
        le_u16(lo, hi)
    }
}

/// The two's complement bit pattern of a signed 16-bit value, as unsigned.
pub open spec fn u16_bits(n: int) -> int {
    if n < 0 {
        n + 65536
    } else {
        n
    }
}

/// Pixel `k` of a frame stored from byte `start` on.
pub open spec fn stored_pixel(bytes: Seq<u8>, start: int, k: int) -> int {
    le_u16(bytes[start + 2 * k], bytes[start + 2 * k + 1])
}

/// Field `f` (0: index, 1: `dx`, 2: `dy`) of stored record `i`.
pub open spec fn stored_field(bytes: Seq<u8>, i: int, f: int) -> int {
    le_i16(bytes[6 * i + 2 * f], bytes[6 * i + 2 * f + 1])
}

/// `bytes` holds the value `v` from byte `pos` on, low byte first.
pub open spec fn holds_u16(bytes: Seq<u8>, pos: int, v: int) -> bool {
    &&& bytes[pos] as int == v % 256
    &&& bytes[pos + 1] as int == v / 256
}

/// Relies on byteorder's `LittleEndian::read_u16`: the first two bytes of the
/// slice it is given, low byte first.
#[verifier::external_body]
fn read_u16_at(bytes: &[u8], pos: usize) -> (r: u16)
    requires
        pos + 2 <= bytes@.len(),
    ensures
        r as int == le_u16(bytes@[pos as int], bytes@[pos + 1]),
{
    LittleEndian::read_u16(&bytes[pos..])
}

/// Relies on byteorder's `LittleEndian::read_i16`: the first two bytes of the
/// slice it is given, low byte first, in two's complement.
#[verifier::external_body]
fn read_i16_at(bytes: &[u8], pos: usize) -> (r: i16)
    requires
        pos + 2 <= bytes@.len(),
    ensures
        r as int == le_i16(bytes@[pos as int], bytes@[pos + 1]),
{
    LittleEndian::read_i16(&bytes[pos..])
}

/// Relies on byteorder's `LittleEndian::write_u16`: it overwrites the first
/// two bytes of the slice it is given with `n`, low byte first.
#[verifier::external_body]
fn write_u16_at(buf: &mut Vec<u8>, pos: usize, n: u16)
    requires
        pos + 2 <= old(buf)@.len(),
    ensures
        final(buf)@ == old(buf)@.update(pos as int, (n % 256) as u8).update(
            pos + 1,
            (n / 256) as u8,
        ),
{
    LittleEndian::write_u16(&mut buf[pos..], n)
}

/// Relies on byteorder's `LittleEndian::write_i16`: it overwrites the first
/// two bytes of the slice it is given with the two's complement of `n`, low
/// byte first.
#[verifier::external_body]
fn write_i16_at(buf: &mut Vec<u8>, pos: usize, n: i16)
    requires
        pos + 2 <= old(buf)@.len(),
    ensures
        final(buf)@ == old(buf)@.update(pos as int, (u16_bits(n as int) % 256) as u8).update(
            pos + 1,
            (u16_bits(n as int) / 256) as u8,
        ),
{
    LittleEndian::write_i16(&mut buf[pos..], n)
}

/// The number of whole frames of `width` × `height` pixels in `byte_len`
/// bytes; a trailing partial frame does not count. Fails when a frame would
/// take no bytes or more than `usize` can count.
pub fn frame_count(byte_len: usize, width: usize, height: usize) -> (r: Result<usize, FrameError>)
    ensures
        r is Ok <==> 0 < 2 * (width * height) <= usize::MAX,
        r is Err ==> r == Err::<usize, FrameError>(FrameError::GeometryMismatch),
        r is Ok ==> r.unwrap() == byte_len as int / (2 * (width * height)),
{
    assert((width as int) * (height as int) <= 0xffff_ffff_ffff_ffff * 0xffff_ffff_ffff_ffffint)
        by (nonlinear_arith)
        requires
            0 <= width <= 0xffff_ffff_ffff_ffffint,
            0 <= height <= 0xffff_ffff_ffff_ffffint,
    ;
    let wide = (width as u128) * (height as u128);
    if wide == 0 || wide > (usize::MAX / 2) as u128 {
        return Err(FrameError::GeometryMismatch);
    }
    let frame_bytes = 2 * (wide as usize);
    Ok(byte_len / frame_bytes)
}

/// Decodes `count` pixels stored from byte `start` on.
fn decode_pixels(bytes: &[u8], start: usize, count: usize) -> (r: Vec<u16>)
    requires
        start + 2 * count <= bytes@.len(),
    ensures
        r@.len() == count,
        forall|k: int| 0 <= k < count ==> #[trigger] r@[k] as int == stored_pixel(bytes@, start as int, k),
{
    let blen = bytes.len();
    let mut out: Vec<u16> = Vec::new();
    let mut k: usize = 0;
    while k < count
        invariant
            k <= count,
            blen == bytes@.len(),
            start + 2 * count <= bytes@.len(),
            out@.len() == k,
            forall|j: int| 0 <= j < k ==> #[trigger] out@[j] as int == stored_pixel(bytes@, start as int, j),
        decreases count - k,
    {
        out.push(read_u16_at(bytes, start + 2 * k));
        k = k + 1;
    }
    out
}

/// Decodes every whole frame of `width` × `height` pixels stored back to back
/// in `bytes`, ignoring a trailing partial frame.
pub fn decode_frames(bytes: &[u8], width: usize, height: usize) -> (r: Result<Vec<Vec<u16>>, FrameError>)
    ensures
        r is Ok <==> 0 < 2 * (width * height) <= usize::MAX,
        r is Err ==> r == Err::<Vec<Vec<u16>>, FrameError>(FrameError::GeometryMismatch),
        r is Ok ==> r.unwrap()@.len() == bytes@.len() as int / (2 * (width * height)),
        r is Ok ==> forall|i: int|
            0 <= i < r.unwrap()@.len() ==> (#[trigger] r.unwrap()@[i])@.len() == width * height,
        r is Ok ==> forall|i: int, k: int|
            0 <= i < r.unwrap()@.len() && 0 <= k < width * height ==> #[trigger] r.unwrap()@[i]@[k]
                as int == stored_pixel(bytes@, i * (2 * (width * height)), k),
{
    let n = match frame_count(bytes.len(), width, height) {
        Ok(n) => n,
        Err(e) => {
            return Err(e);
        },
    };
    let blen = bytes.len();
    let area = width * height;
    let frame_bytes = 2 * area;
    let mut frames: Vec<Vec<u16>> = Vec::new();
    let mut i: usize = 0;
    while i < n
        invariant
            i <= n,
            n == bytes@.len() as int / (frame_bytes as int),
            area == width * height,
            frame_bytes == 2 * (width * height),
            frame_bytes > 0,
            blen == bytes@.len(),
            frames@.len() == i,
            forall|j: int| 0 <= j < i ==> (#[trigger] frames@[j])@.len() == area,
            forall|j: int, k: int|
                0 <= j < i && 0 <= k < area ==> #[trigger] frames@[j]@[k] as int == stored_pixel(
                    bytes@,
                    j * frame_bytes,
                    k,
                ),
        decreases n - i,
    {
        assert((i + 1) * frame_bytes <= bytes@.len()) by (nonlinear_arith)
            requires
                i < n,
                n == bytes@.len() as int / (frame_bytes as int),
                frame_bytes > 0,
        ;
        assert(i * frame_bytes + frame_bytes == (i + 1) * frame_bytes) by (nonlinear_arith);
        let frame = decode_pixels(bytes, i * frame_bytes, area);
        frames.push(frame);
        i = i + 1;
    }
    Ok(frames)
}

/// Decodes frame `index` of a stack stored in `bytes`. Fails with
/// `IndexOutOfRange` when the stack holds no whole frame `index`.
pub fn select_frame(bytes: &[u8], width: usize, height: usize, index: usize) -> (r: Result<Vec<u16>, FrameError>)
    ensures
        !(0 < 2 * (width * height) <= usize::MAX) ==> r == Err::<Vec<u16>, FrameError>(
            FrameError::GeometryMismatch,
        ),
        0 < 2 * (width * height) <= usize::MAX ==> (r is Ok <==> index < bytes@.len() as int / (2 * (width * height))),
        0 < 2 * (width * height) <= usize::MAX && index >= bytes@.len() as int / (2 * (width * height))
            ==> r == Err::<Vec<u16>, FrameError>(FrameError::IndexOutOfRange),
        r is Ok ==> r.unwrap()@.len() == width * height,
        r is Ok ==> forall|k: int|
            0 <= k < width * height ==> #[trigger] r.unwrap()@[k] as int == stored_pixel(
                bytes@,
                index * (2 * (width * height)),
                k,
            ),
{
    let n = match frame_count(bytes.len(), width, height) {
        Ok(n) => n,
        Err(e) => {
            return Err(e);
        },
    };
    if index >= n {
        return Err(FrameError::IndexOutOfRange);
    }
    let blen = bytes.len();
    let area = width * height;
    let frame_bytes = 2 * area;
    assert((index + 1) * frame_bytes <= bytes@.len()) by (nonlinear_arith)
        requires
            index < n,
            n == bytes@.len() as int / (frame_bytes as int),
            frame_bytes > 0,
    ;
    assert(index * frame_bytes + frame_bytes == (index + 1) * frame_bytes) by (nonlinear_arith);
    Ok(decode_pixels(bytes, index * frame_bytes, area))
}

/// Encodes pixels two bytes each, low byte first.
pub fn encode_frame(pixels: &[u16]) -> (r: Vec<u8>)
    requires
        2 * pixels@.len() <= usize::MAX,
    ensures
        r@.len() == 2 * pixels@.len(),
        forall|k: int| 0 <= k < pixels@.len() ==> holds_u16(r@, 2 * k, #[trigger] pixels@[k] as int),
{
    let n = pixels.len();
    let total = 2 * n;
    let mut out: Vec<u8> = Vec::new();
    let mut j: usize = 0;
    while j < total
        invariant
            j <= total,
            out@.len() == j,
        decreases total - j,
    {
        out.push(0);
        j = j + 1;
    }
    let mut k: usize = 0;
    while k < n
        invariant
            k <= n,
            n == pixels@.len(),
            total == 2 * n,
            out@.len() == 2 * n,
            forall|j: int| 0 <= j < k ==> holds_u16(out@, 2 * j, #[trigger] pixels@[j] as int),
        decreases n - k,
    {
        write_u16_at(&mut out, 2 * k, pixels[k]);
        k = k + 1;
    }
    out
}

/// Decodes every whole record stored in `bytes`, ignoring trailing bytes
/// that do not make one.
pub fn decode_drift_records(bytes: &[u8]) -> (r: Vec<DriftRecord>)
    ensures
        r@.len() == bytes@.len() / 6,
        forall|i: int|
            0 <= i < r@.len() ==> {
                &&& (#[trigger] r@[i]).index as int == stored_field(bytes@, i, 0)
                &&& r@[i].dx as int == stored_field(bytes@, i, 1)
                &&& r@[i].dy as int == stored_field(bytes@, i, 2)
            },
{
    let blen = bytes.len();
    let n = blen / RECORD_BYTES;
    let mut out: Vec<DriftRecord> = Vec::new();
    let mut i: usize = 0;
    while i < n
        invariant
            i <= n,
            blen == bytes@.len(),
            n == bytes@.len() / 6,
            out@.len() == i,
            forall|j: int|
                0 <= j < i ==> {
                    &&& (#[trigger] out@[j]).index as int == stored_field(bytes@, j, 0)
                    &&& out@[j].dx as int == stored_field(bytes@, j, 1)
                    &&& out@[j].dy as int == stored_field(bytes@, j, 2)
                },
        decreases n - i,
    {
        let base = RECORD_BYTES * i;
        let index = read_i16_at(bytes, base);
        let dx = read_i16_at(bytes, base + 2);
        let dy = read_i16_at(bytes, base + 4);
        out.push(DriftRecord { index, dx, dy });
        i = i + 1;
    }
    out
}

/// Encodes records as three two's complement 16-bit values each (index,
/// `dx`, `dy`), low byte first.
pub fn encode_drift_records(records: &[DriftRecord]) -> (r: Vec<u8>)
    requires
        6 * records@.len() <= usize::MAX,
    ensures
        r@.len() == 6 * records@.len(),
        forall|i: int|
            0 <= i < records@.len() ==> {
                &&& holds_u16(r@, 6 * i, u16_bits((#[trigger] records@[i]).index as int))
                &&& holds_u16(r@, 6 * i + 2, u16_bits(records@[i].dx as int))
                &&& holds_u16(r@, 6 * i + 4, u16_bits(records@[i].dy as int))
            },
{
    let n = records.len();
    let total = RECORD_BYTES * n;
    let mut out: Vec<u8> = Vec::new();
    let mut j: usize = 0;
    while j < total
        invariant
            j <= total,
            out@.len() == j,
        decreases total - j,
    {
        out.push(0);
        j = j + 1;
    }
    let mut i: usize = 0;
    while i < n
        invariant
            i <= n,
            n == records@.len(),
            total == 6 * n,
            out@.len() == 6 * n,
            forall|j: int|
                0 <= j < i ==> {
                    &&& holds_u16(out@, 6 * j, u16_bits((#[trigger] records@[j]).index as int))
                    &&& holds_u16(out@, 6 * j + 2, u16_bits(records@[j].dx as int))
                    &&& holds_u16(out@, 6 * j + 4, u16_bits(records@[j].dy as int))
                },
        decreases n - i,
    {
        let rec = records[i];
        let base = RECORD_BYTES * i;
        write_i16_at(&mut out, base, rec.index);
        write_i16_at(&mut out, base + 2, rec.dx);
        write_i16_at(&mut out, base + 4, rec.dy);
        i = i + 1;
    }
    out
}

} // verus!
