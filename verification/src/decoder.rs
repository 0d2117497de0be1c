use vstd::prelude::*;

use crate::error::PpmError;
use crate::header::read_next_u32;
use crate::header::spec_header;
use crate::pixels::ColorType;
use crate::pixels::DecodingResult;
use crate::pixels::copy_range;
use crate::pixels::read_be16_samples;
use crate::pixels::spec_byte_count;
use crate::pixels::spec_bytewidth;
use crate::pixels::spec_read_image;
use crate::pixels::spec_sample_count;

verus! {

/// Decoder for the binary (`P6`) Portable Pixel Map format.  It owns the
/// raw stream for its whole life, moved in at construction; the header is
/// parsed once by `new` and the three fields are frozen from then on.
pub struct PPMDecoder {
    data: Vec<u8>,
    pos: usize,
    width: u32,
    height: u32,
    maxwhite: u32,
}

impl PPMDecoder {
    /// The raw stream the decoder owns.
    pub closed spec fn bytes(&self) -> Seq<u8> {
        self.data@
    }

    /// The read cursor: after `new` it sits on the first pixel byte.
    pub closed spec fn cursor(&self) -> int {
        self.pos as int
    }

    pub closed spec fn width(&self) -> u32 {
        self.width
    }

    pub closed spec fn height(&self) -> u32 {
        self.height
    }

    pub closed spec fn maxval(&self) -> u32 {
        self.maxwhite
    }

    /// Every decoder that `new` hands out satisfies this and every method
    /// preserves it: maxval is within the supported range and the cursor
    /// stays inside the stream.
    pub open spec fn wf(&self) -> bool {
        self.maxval() <= 65535 && 0 <= self.cursor() <= self.bytes().len()
    }

    /// Creates a decoder over the stream `data`, validating the magic bytes
    /// and parsing and validating the header exactly as `spec_header` says.
    pub fn new(data: Vec<u8>) -> (r: Result<PPMDecoder, PpmError>)
        ensures
            match spec_header(data@) {
                Ok(h) => r matches Ok(d) && d.wf() && d.bytes() == data@ && d.cursor() == h.end
                    && d.width() == h.width && d.height() == h.height && d.maxval() == h.maxval,
                Err(e) => r matches Err(e2) && e2 == e,
            },
    {
        if data.len() < 2 {
            return Err(PpmError::Io);
        }
        let m0 = data[0];
        let m1 = data[1];
        if m0 != 80 || (m1 != 51 && m1 != 54) {
            return Err(PpmError::BadMagic);
        }
        if m1 == 51 {
            return Err(PpmError::UnsupportedVariant);
        }
        let (width, p1) = match read_next_u32(&data, 2) {
            Ok(q) => q,
            Err(e) => {
                return Err(e);
            },
        };
        let (height, p2) = match read_next_u32(&data, p1) {
            Ok(q) => q,
            Err(e) => {
                return Err(e);
            },
        };
        let (maxwhite, p3) = match read_next_u32(&data, p2) {
            Ok(q) => q,
            Err(e) => {
                return Err(e);
            },
        };
        if maxwhite == 0 || maxwhite > 65535 {
            return Err(PpmError::MaxvalOutOfRange);
        }
        Ok(PPMDecoder { data, pos: p3, width, height, maxwhite })
    }

    /// Bytes per sample, a pure function of maxval: 1 below 256, else 2.
    pub fn bytewidth(&self) -> (r: u32)
        ensures
            r == spec_bytewidth(self.maxval()),
    {
        if self.maxwhite < 256 {
            1
        } else {
            2
        }
    }

    /// The parsed dimensions; always succeeds once the decoder exists.
    pub fn dimensions(&self) -> (r: Result<(u32, u32), PpmError>)
        ensures
            r matches Ok(d) && d.0 == self.width() && d.1 == self.height(),
    {
        Ok((self.width, self.height))
    }

    /// The color model: RGB at bit depth 8 or 16 per the sample width.  The
    /// error arm is defensive and unreachable, since the sample width is
    /// 1 or 2 by construction.
    pub fn colortype(&self) -> (r: Result<ColorType, PpmError>)
        ensures
            r matches Ok(c) && c == ColorType::RGB(
                if self.maxval() < 256 {
                    8u8
                } else {
                    16u8
                },
            ),
    {
        match self.bytewidth() {
            1 => Ok(ColorType::RGB(8)),
            2 => Ok(ColorType::RGB(16)),
            _ => Err(PpmError::MaxvalOutOfRange),
        }
    }

    /// The byte length of one pixel row, `width * 3 * bytewidth`.
    pub fn row_len(&self) -> (r: Result<usize, PpmError>)
        ensures
            self.width() * 3 * spec_bytewidth(self.maxval()) <= usize::MAX ==> (r matches Ok(n)
                && n == self.width() * 3 * spec_bytewidth(self.maxval())),
            self.width() * 3 * spec_bytewidth(self.maxval()) > usize::MAX ==> (r matches Err(e)
                && e == PpmError::DimensionOverflow),
    {
        let bw = self.bytewidth();
        let w3: u64 = (self.width as u64) * 3;
        assert(w3 * (bw as u64) <= w3 * 2) by (nonlinear_arith)
            requires
                w3 >= 0,
                bw <= 2,
        ;
        let t: u64 = w3 * (bw as u64);
        if t <= (usize::MAX as u64) {
            Ok(t as usize)
        } else {
            Err(PpmError::DimensionOverflow)
        }
    }

    /// Whether the decoder can hand out single scanlines incrementally: it
    /// cannot; only whole-image reads are implemented.
    pub fn supports_scanline(&self) -> (r: bool)
        ensures
            !r,
    {
        false
    }

    /// Incremental per-row reading is a capability the surrounding decoder
    /// contract advertises but this format does not implement; invoking it
    /// is reported as a typed, recoverable result and changes nothing.
    pub fn read_scanline(&mut self, buf: &mut Vec<u8>) -> (r: Result<u32, PpmError>)
        ensures
            r matches Err(e) && e == PpmError::UnsupportedOperation,
            *final(self) == *old(self),
            final(buf)@ == old(buf)@,
    {
        Err(PpmError::UnsupportedOperation)
    }

    /// Reads the whole image: computes the payload size with overflow
    /// checking, consumes exactly that many bytes in one read, and
    /// reinterprets them per the sample width, as `spec_read_image` says.
    /// Trailing bytes beyond the payload are left untouched.
    pub fn read_image(&mut self) -> (r: Result<DecodingResult, PpmError>)
        requires
            old(self).wf(),
        ensures
            final(self).wf(),
            final(self).bytes() == old(self).bytes(),
            final(self).width() == old(self).width(),
            final(self).height() == old(self).height(),
            final(self).maxval() == old(self).maxval(),
            match spec_read_image(
                old(self).bytes(),
                old(self).cursor(),
                old(self).width(),
                old(self).height(),
                old(self).maxval(),
            ) {
                Ok(p) => r matches Ok(d) && d@ == p.0 && final(self).cursor() == p.1,
                Err(e) => r matches Err(e2) && e2 == e && final(self).cursor() == old(
                    self,
                ).cursor(),
            },
    {
        let ghost w = self.width;
        let ghost h = self.height;
        let bw = self.bytewidth();
        proof {
            assert((self.width as int) * (self.height as int) <= 0xFFFF_FFFF * 0xFFFF_FFFF) by (
            nonlinear_arith)
                requires
                    self.width <= 0xFFFF_FFFF,
                    self.height <= 0xFFFF_FFFF,
            ;
        }
        let wh: u64 = (self.width as u64) * (self.height as u64);
        if wh > 0xFFFF_FFFFu64 {
            proof {
                assert((w * h * 3) * spec_bytewidth(self.maxval()) >= w * h) by (nonlinear_arith)
                    requires
                        w * h >= 0,
                        spec_bytewidth(self.maxval()) >= 1,
                ;
            }
            return Err(PpmError::DimensionOverflow);
        }
        let wh3: u64 = wh * 3;
        if wh3 > 0xFFFF_FFFFu64 {
            proof {
                assert((w * h * 3) * spec_bytewidth(self.maxval()) >= w * h * 3) by (
                nonlinear_arith)
                    requires
                        w * h * 3 >= 0,
                        spec_bytewidth(self.maxval()) >= 1,
                ;
            }
            return Err(PpmError::DimensionOverflow);
        }
        let total: u64 = wh3 * (bw as u64);
        if total > 0xFFFF_FFFFu64 {
            return Err(PpmError::DimensionOverflow);
        }
        assert(total == spec_byte_count(w, h, self.maxval()));
        let size: usize = total as usize;
        if self.data.len() - self.pos < size {
            return Err(PpmError::Io);
        }
        let start = self.pos;
        if bw == 1 {
            let out = copy_range(&self.data, start, size);
            self.pos = start + size;
            Ok(DecodingResult::U8(out))
        } else {
            let n: usize = size / 2;
            proof {
                assert(size == (w * h * 3) * 2);
                assert(((w * h * 3) * 2) / 2 == w * h * 3) by (nonlinear_arith);
                assert(n == spec_sample_count(w, h));
            }
            let out = read_be16_samples(&self.data, start, n);
            proof {
                assert(Seq::new(
                    n as nat,
                    |i: int| crate::pixels::be16(self.data@[start + 2 * i], self.data@[start + 2 * i
                        + 1]),
                ) =~= Seq::new(
                    spec_sample_count(w, h) as nat,
                    |i: int| crate::pixels::be16(
                        self.data@[self.pos + 2 * i],
                        self.data@[self.pos + 2 * i + 1],
                    ),
                ));
            }
            self.pos = start + size;
            Ok(DecodingResult::U16(out))
        }
    }
}

} // verus!
