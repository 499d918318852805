use vstd::prelude::*;
use crate::atlas::{read_str, str_at};
use crate::atlas_data::{Rgba, RgbaBuffer};
use crate::binary_reader::{le_i32, le_u32, BinaryReader, ReadError};

verus! {

/// Why an XNB texture could not be read.
#[derive(Debug)]
pub enum XnbError {
    /// A read ran short or a string was not UTF-8.
    IoError(ReadError),
    /// The bytes break the format.
    InvalidFormat(String),
    /// The format is recognized but not handled (compression, pixel formats
    /// other than 32-bit color).
    UnsupportedFeature(String),
}

/// The pixel formats an XNB texture may declare.
#[derive(Debug, Clone, Copy, PartialEq, Eq, Structural)]
pub enum TextureFormat {
    Color,
    Bgr565,
    Bgra5551,
    Bgra4444,
    Dxt1,
    Dxt3,
    Dxt5,
    NormalizedByte2,
    NormalizedByte4,
    Rgba1010102,
    Rg32,
    Rgba64,
    Alpha8,
    Single,
    Vector2,
    Vector4,
    HalfSingle,
    HalfVector2,
    HalfVector4,
    HdrBlendable,
    Unknown,
}

/// The format that a stored format number names.
pub open spec fn format_of(value: i32) -> TextureFormat {
    if value == 0 { TextureFormat::Color }
    else if value == 1 { TextureFormat::Bgr565 }
    else if value == 2 { TextureFormat::Bgra5551 }
    else if value == 3 { TextureFormat::Bgra4444 }
    else if value == 4 { TextureFormat::Dxt1 }
    else if value == 5 { TextureFormat::Dxt3 }
    else if value == 6 { TextureFormat::Dxt5 }
    else if value == 7 { TextureFormat::NormalizedByte2 }
    else if value == 8 { TextureFormat::NormalizedByte4 }
    else if value == 9 { TextureFormat::Rgba1010102 }
    else if value == 10 { TextureFormat::Rg32 }
    else if value == 11 { TextureFormat::Rgba64 }
    else if value == 12 { TextureFormat::Alpha8 }
    else if value == 13 { TextureFormat::Single }
    else if value == 14 { TextureFormat::Vector2 }
    else if value == 15 { TextureFormat::Vector4 }
    else if value == 16 { TextureFormat::HalfSingle }
    else if value == 17 { TextureFormat::HalfVector2 }
    else if value == 18 { TextureFormat::HalfVector4 }
    else if value == 19 { TextureFormat::HdrBlendable }
    else { TextureFormat::Unknown }
}

impl From<i32> for TextureFormat {
    fn from(value: i32) -> (r: Self) {
        match value {
            0 => TextureFormat::Color,
            1 => TextureFormat::Bgr565,
            2 => TextureFormat::Bgra5551,
            3 => TextureFormat::Bgra4444,
            4 => TextureFormat::Dxt1,
            5 => TextureFormat::Dxt3,
            6 => TextureFormat::Dxt5,
            7 => TextureFormat::NormalizedByte2,
            8 => TextureFormat::NormalizedByte4,
            9 => TextureFormat::Rgba1010102,
            10 => TextureFormat::Rg32,
            11 => TextureFormat::Rgba64,
            12 => TextureFormat::Alpha8,
            13 => TextureFormat::Single,
            14 => TextureFormat::Vector2,
            15 => TextureFormat::Vector4,
            16 => TextureFormat::HalfSingle,
            17 => TextureFormat::HalfVector2,
            18 => TextureFormat::HalfVector4,
            19 => TextureFormat::HdrBlendable,
            _ => TextureFormat::Unknown,
        }
    }
}

impl vstd::std_specs::convert::FromSpecImpl<i32> for TextureFormat {
    open spec fn obeys_from_spec() -> bool {
        true
    }

    open spec fn from_spec(v: i32) -> TextureFormat {
        format_of(v)
    }
}

/// Why a read fails, as plain values.
pub enum XnbFailure {
    Io(ReadError),
    Invalid,
    Unsupported,
}

pub open spec fn failure_of(e: XnbError) -> XnbFailure {
    match e {
        XnbError::IoError(r) => XnbFailure::Io(r),
        XnbError::InvalidFormat(_) => XnbFailure::Invalid,
        XnbError::UnsupportedFeature(_) => XnbFailure::Unsupported,
    }
}

/// A count stored as a signed byte and widened to `u32`, as the format's
/// readers do: a negative byte gives a count near `u32::MAX`.
pub open spec fn byte_count(b: u8) -> nat {
    if b < 128 {
        b as nat
    } else {
        (b + 0xFFFF_FF00) as nat
    }
}

/// `n` type-reader entries (a string and a 32-bit version each) from `pos`,
/// and the position after them.
pub open spec fn readers_at(d: Seq<u8>, pos: int, n: nat) -> Result<int, ReadError>
    decreases n,
{
    if n == 0 {
        Ok(pos)
    } else {
        match str_at(d, pos) {
            Err(e) => Err(e),
            Ok((_, p)) => if p + 4 > d.len() {
                Err(ReadError::UnexpectedEof)
            } else {
                readers_at(d, p + 4, (n - 1) as nat)
            },
        }
    }
}

pub open spec fn u32_at(d: Seq<u8>, p: int) -> int {
    le_u32(d[p], d[p + 1], d[p + 2], d[p + 3])
}

/// The pixels of 32-bit color data, stored alpha, blue, green, red.
pub open spec fn color_pixels(d: Seq<u8>, q: int, n: nat) -> Seq<Rgba> {
    Seq::new(n, |i: int| Rgba { r: d[q + 4 * i + 3], g: d[q + 4 * i + 2], b: d[q + 4 * i + 1], a: d[q + 4 * i] })
}

/// The Texture2D object at `p`.
pub open spec fn texture_at(d: Seq<u8>, p: int) -> Result<(u32, u32, Seq<Rgba>), XnbFailure> {
    if p + 1 > d.len() {
        Err(XnbFailure::Io(ReadError::UnexpectedEof))
    } else if d[p] != 1 {
        Err(XnbFailure::Invalid)
    } else if p + 13 > d.len() {
        Err(XnbFailure::Io(ReadError::UnexpectedEof))
    } else {
        let fmt = le_i32(d[p + 1], d[p + 2], d[p + 3], d[p + 4]);
        let w = u32_at(d, p + 5);
        let h = u32_at(d, p + 9);
        if w == 0 || h == 0 || w > 16384 || h > 16384 {
            Err(XnbFailure::Invalid)
        } else if p + 21 > d.len() {
            Err(XnbFailure::Io(ReadError::UnexpectedEof))
        } else {
            let size = u32_at(d, p + 17);
            let expected = if fmt == 0 { w * h * 4 } else { w * h };
            if size < expected {
                Err(XnbFailure::Invalid)
            } else if p + 21 + size > d.len() {
                Err(XnbFailure::Io(ReadError::UnexpectedEof))
            } else if fmt != 0 {
                Err(XnbFailure::Unsupported)
            } else if size != w * h * 4 {
                Err(XnbFailure::Invalid)
            } else {
                Ok((w as u32, h as u32, color_pixels(d, p + 21, (w * h) as nat)))
            }
        }
    }
}

/// An uncompressed XNB file holding one Texture2D in 32-bit color: the magic
/// `XNB`, platform, version and flag bytes, the file size, the type readers,
/// the shared resource count, then the texture.
pub open spec fn xnb_spec(d: Seq<u8>) -> Result<(u32, u32, Seq<Rgba>), XnbFailure> {
    if d.len() < 3 {
        Err(XnbFailure::Io(ReadError::UnexpectedEof))
    } else if !(d[0] == 88 && d[1] == 78 && d[2] == 66) {
        Err(XnbFailure::Invalid)
    } else if d.len() < 10 {
        Err(XnbFailure::Io(ReadError::UnexpectedEof))
    } else if d[5] >= 128 {
        Err(XnbFailure::Unsupported)
    } else if d.len() < 11 {
        Err(XnbFailure::Io(ReadError::UnexpectedEof))
    } else {
        match readers_at(d, 11, byte_count(d[10])) {
            Err(e) => Err(XnbFailure::Io(e)),
            Ok(p) => if p + 1 > d.len() {
                Err(XnbFailure::Io(ReadError::UnexpectedEof))
            } else {
                texture_at(d, p + 1)
            },
        }
    }
}

/// Reads the XNB container format of XNA and MonoGame, for its one
/// supported case: an uncompressed 32-bit color texture.
pub struct XnbReader {
    reader: BinaryReader,
}

impl XnbReader {
    pub closed spec fn data(&self) -> Seq<u8> {
        self.reader.data@
    }

    pub closed spec fn pos(&self) -> int {
        self.reader.pos as int
    }

    /// A reader at the start of `data`.
    pub fn new(data: Vec<u8>) -> (r: Self)
        ensures
            r.data() == data@,
            r.pos() == 0,
    {
        XnbReader { reader: BinaryReader::new(data) }
    }

    /// Checks the magic and the compression flag, and skips the header.
    fn parse_header(&mut self) -> (r: Result<(), XnbError>)
        requires
            old(self).pos() == 0,
        ensures
            final(self).data() == old(self).data(),
            ({
                let d = old(self).data();
                if d.len() < 3 {
                    r matches Err(e) && failure_of(e) == XnbFailure::Io(ReadError::UnexpectedEof)
                } else if !(d[0] == 88 && d[1] == 78 && d[2] == 66) {
                    r matches Err(e) && failure_of(e) == XnbFailure::Invalid
                } else if d.len() < 10 {
                    r matches Err(e) && failure_of(e) == XnbFailure::Io(ReadError::UnexpectedEof)
                } else if d[5] >= 128 {
                    r matches Err(e) && failure_of(e) == XnbFailure::Unsupported
                } else {
                    r is Ok && final(self).pos() == 10
                }
            }),
    {
        if self.reader.data.len() < 3 {
            return Err(XnbError::IoError(ReadError::UnexpectedEof));
        }
        if !(self.reader.data[0] == 88 && self.reader.data[1] == 78 && self.reader.data[2] == 66) {
            return Err(XnbError::InvalidFormat("Not a valid XNB file (wrong magic number)".to_owned()));
        }
        self.reader.pos = 3;
        let _platform = match self.reader.read_byte() {
            Ok(v) => v,
            Err(e) => return Err(XnbError::IoError(e)),
        };
        let _version = match self.reader.read_byte() {
            Ok(v) => v,
            Err(e) => return Err(XnbError::IoError(e)),
        };
        let flag = match self.reader.read_ubyte() {
            Ok(v) => v,
            Err(e) => return Err(XnbError::IoError(e)),
        };
        let _file_size = match self.reader.read_ulong() {
            Ok(v) => v,
            Err(e) => return Err(XnbError::IoError(e)),
        };
        if flag & 0x80 != 0 {
            assert(flag & 0x80 != 0 ==> flag >= 128) by (bit_vector);
            return Err(XnbError::UnsupportedFeature("Compressed XNB files are not supported yet".to_owned()));
        }
        assert(flag & 0x80 == 0 ==> flag < 128) by (bit_vector);
        Ok(())
    }

    /// Skips the type-reader entries and reads the shared resource count.
    fn skip_readers_and_resources(&mut self) -> (r: Result<(), XnbError>)
        requires
            old(self).pos() <= old(self).data().len(),
        ensures
            final(self).data() == old(self).data(),
            ({
                let d = old(self).data();
                let p = old(self).pos();
                if p + 1 > d.len() {
                    r matches Err(e) && failure_of(e) == XnbFailure::Io(ReadError::UnexpectedEof)
                } else {
                    match readers_at(d, p + 1, byte_count(d[p])) {
                        Err(x) => r matches Err(e) && failure_of(e) == XnbFailure::Io(x),
                        Ok(q) => if q + 1 > d.len() {
                            r matches Err(e) && failure_of(e) == XnbFailure::Io(ReadError::UnexpectedEof)
                        } else {
                            r is Ok && final(self).pos() == q + 1
                        },
                    }
                }
            }),
    {
        let ghost d = self.reader.data@;
        let b = match self.reader.read_ubyte() {
            Ok(v) => v,
            Err(e) => return Err(XnbError::IoError(e)),
        };
        let count: u64 = if b < 128 { b as u64 } else { b as u64 + 0xFFFF_FF00 };
        let ghost p1 = self.reader.pos as int;
        let mut i: u64 = 0;
        while i < count
            invariant
                self.reader.data@ == d,
                d == old(self).data(),
                p1 == old(self).pos() + 1,
                i <= count,
                count == byte_count(d[p1 - 1]),
                self.reader.pos <= d.len(),
                readers_at(d, p1, count as nat) == readers_at(d, self.reader.pos as int, (count - i) as nat),
            decreases count - i,
        {
            let _name = match read_str(&mut self.reader) {
                Ok(v) => v,
                Err(e) => return Err(XnbError::IoError(e)),
            };
            let _version = match self.reader.read_long() {
                Ok(v) => v,
                Err(e) => return Err(XnbError::IoError(e)),
            };
            i = i + 1;
        }
        let _shared = match self.reader.read_byte() {
            Ok(v) => v,
            Err(e) => return Err(XnbError::IoError(e)),
        };
        Ok(())
    }

    /// Reads the Texture2D object: its kind, format, size, mipmap count and
    /// pixel data, which must be 32-bit color.
    fn read_texture_data(&mut self) -> (r: Result<RgbaBuffer, XnbError>)
        requires
            old(self).pos() <= old(self).data().len(),
        ensures
            match texture_at(old(self).data(), old(self).pos()) {
                Ok((w, h, px)) => r matches Ok(img) && img.width == w && img.height == h && img.pixels@ == px
                    && img.wf(),
                Err(f) => r matches Err(e) && failure_of(e) == f,
            },
    {
        let ghost d = self.reader.data@;
        let ghost p = self.reader.pos as int;
        let texture_type = match self.reader.read_ubyte() {
            Ok(v) => v,
            Err(e) => return Err(XnbError::IoError(e)),
        };
        if texture_type != 1 {
            return Err(XnbError::InvalidFormat("Not a Texture2D object".to_owned()));
        }
        if self.reader.data.len() - self.reader.pos < 12 {
            return Err(XnbError::IoError(ReadError::UnexpectedEof));
        }
        let format_value = match self.reader.read_long() {
            Ok(v) => v,
            Err(e) => return Err(XnbError::IoError(e)),
        };
        let format = TextureFormat::from(format_value);
        let width = match self.reader.read_ulong() {
            Ok(v) => v,
            Err(e) => return Err(XnbError::IoError(e)),
        };
        let height = match self.reader.read_ulong() {
            Ok(v) => v,
            Err(e) => return Err(XnbError::IoError(e)),
        };
        if width == 0 || height == 0 || width > 16384 || height > 16384 {
            return Err(XnbError::InvalidFormat("Invalid texture dimensions".to_owned()));
        }
        let _mipmap_count = match self.reader.read_ulong() {
            Ok(v) => v,
            Err(e) => return Err(XnbError::IoError(e)),
        };
        let data_size = match self.reader.read_ulong() {
            Ok(v) => v,
            Err(e) => return Err(XnbError::IoError(e)),
        };
        assert(width * height <= 16384 * 16384) by (nonlinear_arith)
            requires
                width <= 16384,
                height <= 16384,
        ;
        let pixel_count: u32 = width * height;
        let expected_min: u32 = match format {
            TextureFormat::Color => pixel_count * 4,
            _ => pixel_count,
        };
        if data_size < expected_min {
            return Err(XnbError::InvalidFormat("Data size too small".to_owned()));
        }
        if data_size as usize > self.reader.data.len() - self.reader.pos {
            return Err(XnbError::IoError(ReadError::UnexpectedEof));
        }
        match format {
            TextureFormat::Color => {},
            _ => {
                return Err(XnbError::UnsupportedFeature("Texture format not supported yet".to_owned()));
            },
        }
        let start = self.reader.pos;
        self.reader.pos = start + data_size as usize;
        self.decode_format_color(start, data_size as usize, width, height)
    }

    /// The pixels of 32-bit color data at `start`, which must hold exactly
    /// `width * height * 4` bytes.
    fn decode_format_color(&self, start: usize, len: usize, width: u32, height: u32) -> (r: Result<
        RgbaBuffer,
        XnbError,
    >)
        requires
            start + len <= self.data().len(),
            width * height <= 16384 * 16384,
        ensures
            len != width * height * 4 ==> (r matches Err(e) && failure_of(e) == XnbFailure::Invalid),
            len == width * height * 4 ==> (r matches Ok(img) && img.width == width && img.height == height
                && img.pixels@ == color_pixels(self.data(), start as int, (width * height) as nat) && img.wf()),
    {
        let n: usize = width as usize * height as usize;
        if len != n * 4 {
            return Err(XnbError::InvalidFormat("Invalid texture data size".to_owned()));
        }
        let ghost d = self.reader.data@;
        let total = self.reader.data.len();
        let mut pixels: Vec<Rgba> = Vec::new();
        let mut i: usize = 0;
        while i < n
            invariant
                d == self.reader.data@,
                d.len() == total,
                start + 4 * n <= d.len(),
                0 <= i <= n,
                pixels@ == color_pixels(d, start as int, i as nat),
            decreases n - i,
        {
            let o = start + 4 * i;
            let px = Rgba {
                r: self.reader.data[o + 3],
                g: self.reader.data[o + 2],
                b: self.reader.data[o + 1],
                a: self.reader.data[o],
            };
            pixels.push(px);
            assert(pixels@ =~= color_pixels(d, start as int, (i + 1) as nat));
            i = i + 1;
        }
        Ok(RgbaBuffer { width, height, pixels })
    }

    /// Reads the texture of an uncompressed XNB file in 32-bit color.
    pub fn read_texture(&mut self) -> (r: Result<RgbaBuffer, XnbError>)
        requires
            old(self).pos() == 0,
        ensures
            match xnb_spec(old(self).data()) {
                Ok((w, h, px)) => r matches Ok(img) && img.width == w && img.height == h && img.pixels@ == px
                    && img.wf(),
                Err(f) => r matches Err(e) && failure_of(e) == f,
            },
    {
        self.parse_header()?;
        if self.reader.data.len() < 11 {
            return Err(XnbError::IoError(ReadError::UnexpectedEof));
        }
        self.skip_readers_and_resources()?;
        self.read_texture_data()
    }
}

} // verus!
