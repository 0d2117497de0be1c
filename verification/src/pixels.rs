use vstd::prelude::*;

use crate::error::PpmError;

verus! {

/// The color model a decoded image reports: interleaved RGB at a bit depth
/// of 8 or 16 per sample.
#[derive(Clone, Copy, Debug, PartialEq, Eq, Structural)]
pub enum ColorType {
    RGB(u8),
}

/// The decoded pixel buffer: one flat, row-major, R,G,B-interleaved sample
/// sequence, 8-bit or 16-bit according to the sample width.
pub enum DecodingResult {
    U8(Vec<u8>),
    U16(Vec<u16>),
}

/// The mathematical shadow of `DecodingResult`.
pub enum SampleData {
    U8s(Seq<u8>),
    U16s(Seq<u16>),
}

impl View for DecodingResult {
    type V = SampleData;

    open spec fn view(&self) -> SampleData {
        match self {
            DecodingResult::U8(v) => SampleData::U8s(v@),
            DecodingResult::U16(v) => SampleData::U16s(v@),
        }
    }
}

/// Bytes per sample: 1 below a maxval of 256, else 2.
pub open spec fn spec_bytewidth(maxval: u32) -> u32 {
    if maxval < 256 {
        1
    } else {
        2
    }
}

/// A 16-bit sample from its big-endian byte pair.
pub open spec fn be16(hi: u8, lo: u8) -> u16 {
    (hi * 256 + lo) as u16
}

/// How many samples a decoded image holds.
pub open spec fn spec_sample_count(w: u32, h: u32) -> int {
    w * h * 3
}

/// How many raw payload bytes the pixel data occupies.
pub open spec fn spec_byte_count(w: u32, h: u32, m: u32) -> int {
    w * h * 3 * spec_bytewidth(m)
}

/// What reading the whole image from `s` at `pos` yields.  A byte count
/// beyond 32 bits is a dimension overflow (detected before any read); a
/// stream with fewer than `spec_byte_count` bytes left is an I/O error;
/// otherwise exactly that many bytes are consumed and reinterpreted —
/// verbatim at sample width 1, as big-endian pairs at sample width 2 — and
/// any trailing bytes are left untouched.
pub open spec fn spec_read_image(s: Seq<u8>, pos: int, w: u32, h: u32, m: u32) -> Result<
    (SampleData, int),
    PpmError,
> {
    let size = spec_byte_count(w, h, m);
    if size > u32::MAX {
        Err(PpmError::DimensionOverflow)
    } else if s.len() - pos < size {
        Err(PpmError::Io)
    } else if spec_bytewidth(m) == 1 {
        Ok((SampleData::U8s(s.subrange(pos, pos + size)), pos + size))
    } else {
        Ok(
            (
                SampleData::U16s(
                    Seq::new(
                        spec_sample_count(w, h) as nat,
                        |i: int| be16(s[pos + 2 * i], s[pos + 2 * i + 1]),
                    ),
                ),
                pos + size,
            ),
        )
    }
}

/// Copies `len` bytes of `data` starting at `start` into a fresh buffer.
pub fn copy_range(data: &Vec<u8>, start: usize, len: usize) -> (r: Vec<u8>)
    requires
        start + len <= data@.len(),
    ensures
        r@ == data@.subrange(start as int, start as int + len as int),
{
    let dlen = data.len();
    let mut out: Vec<u8> = Vec::new();
    let mut i: usize = 0;
    while i < len
        invariant
            i <= len,
            start + len <= dlen,
            dlen == data@.len(),
            out@ == data@.subrange(start as int, start as int + i as int),
        decreases len - i,
    {
        out.push(data[start + i]);
        assert(out@ =~= data@.subrange(start as int, start as int + (i + 1) as int));
        i = i + 1;
    }
    out
}

/// Reinterprets `2 * n` bytes of `data` starting at `start` as `n`
/// big-endian 16-bit samples.
pub fn read_be16_samples(data: &Vec<u8>, start: usize, n: usize) -> (r: Vec<u16>)
    requires
        start + 2 * n <= data@.len(),
    ensures
        r@ == Seq::new(n as nat, |i: int| be16(data@[start + 2 * i], data@[start + 2 * i + 1])),
{
    let dlen = data.len();
    let mut out: Vec<u16> = Vec::new();
    let mut i: usize = 0;
    while i < n
        invariant
            i <= n,
            start + 2 * n <= dlen,
            dlen == data@.len(),
            out@.len() == i,
            forall|j: int|
                0 <= j < i ==> out@[j] == be16(data@[start + 2 * j], data@[start + 2 * j + 1]),
        decreases n - i,
    {
        let hi = data[start + 2 * i];
        let lo = data[start + 2 * i + 1];
        let sample: u16 = (hi as u16) * 256 + (lo as u16);
        out.push(sample);
        i = i + 1;
    }
    proof {
        assert(out@ =~= Seq::new(
            n as nat,
            |i: int| be16(data@[start + 2 * i], data@[start + 2 * i + 1]),
        ));
    }
    out
}

} // verus!
