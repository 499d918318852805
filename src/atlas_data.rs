use vstd::prelude::*;
use crate::binary_reader::{le_u32, BinaryReader, ReadError};

verus! {

/// One pixel, as red, green, blue and alpha bytes.
#[derive(Debug, Clone, Copy, PartialEq, Eq, Structural)]
pub struct Rgba {
    pub r: u8,
    pub g: u8,
    pub b: u8,
    pub a: u8,
}

/// A decoded image: `width * height` pixels in row-major order.
#[derive(Debug)]
pub struct RgbaBuffer {
    pub width: u32,
    pub height: u32,
    pub pixels: Vec<Rgba>,
}

impl RgbaBuffer {
    /// The pixel count matches the dimensions.
    pub open spec fn wf(&self) -> bool {
        self.pixels@.len() == self.width as int * self.height as int
    }
}

/// How many pixels a run covers: a stored count of zero still covers one.
pub open spec fn run_length(count: u8) -> int {
    if count == 0 {
        1
    } else {
        count as int
    }
}

/// The head of the run at the start of `rest`: how many bytes it takes, its
/// color and how many pixels it covers. With alpha, a zero alpha byte ends
/// the run head and stands for transparent black; colors are stored blue,
/// green, red.
pub open spec fn run_head(rest: Seq<u8>, has_alpha: bool) -> Option<(int, Rgba, int)> {
    if rest.len() < 1 {
        None
    } else if has_alpha {
        if rest.len() < 2 {
            None
        } else if rest[1] == 0 {
            Some((2, Rgba { r: 0, g: 0, b: 0, a: 0 }, run_length(rest[0])))
        } else if rest.len() < 5 {
            None
        } else {
            Some((5, Rgba { r: rest[4], g: rest[3], b: rest[2], a: rest[1] }, run_length(rest[0])))
        }
    } else if rest.len() < 4 {
        None
    } else {
        Some((4, Rgba { r: rest[3], g: rest[2], b: rest[1], a: 255 }, run_length(rest[0])))
    }
}

pub open spec fn min(a: int, b: int) -> int {
    if a < b {
        a
    } else {
        b
    }
}

/// The first `n` pixels that the runs in `rest` give, or nothing when the
/// runs end first. A run that passes the `n`th pixel is cut there.
pub open spec fn decode_runs(rest: Seq<u8>, n: nat, has_alpha: bool) -> Option<Seq<Rgba>>
    decreases n,
{
    if n == 0 {
        Some(Seq::empty())
    } else {
        match run_head(rest, has_alpha) {
            None => None,
            Some((len, px, k)) => {
                let m = min(k, n as int);
                if m < 1 || len < 0 {
                    None
                } else {
                    match decode_runs(rest.skip(len), (n - m) as nat, has_alpha) {
                        None => None,
                        Some(t) => Some(Seq::new(m as nat, |i: int| px) + t),
                    }
                }
            },
        }
    }
}

/// A `.data` file: width and height as 32-bit little-endian integers, a
/// has-alpha byte, then the runs. Bytes after the last needed run are
/// ignored.
pub open spec fn decode_data_spec(data: Seq<u8>) -> Option<(u32, u32, Seq<Rgba>)> {
    if data.len() < 9 {
        None
    } else {
        let w = le_u32(data[0], data[1], data[2], data[3]);
        let h = le_u32(data[4], data[5], data[6], data[7]);
        match decode_runs(data.skip(9), (w * h) as nat, data[8] != 0) {
            Some(px) => Some((w as u32, h as u32, px)),
            None => None,
        }
    }
}

pub open spec fn then_prefix(p: Seq<Rgba>, o: Option<Seq<Rgba>>) -> Option<Seq<Rgba>> {
    match o {
        Some(t) => Some(p + t),
        None => None,
    }
}

proof fn lemma_le_u32_bounds(b0: u8, b1: u8, b2: u8, b3: u8)
    ensures
        0 <= le_u32(b0, b1, b2, b3) <= u32::MAX,
{
}

fn read_run_head(rd: &mut BinaryReader, has_alpha: bool) -> (r: Result<(u8, Rgba), ReadError>)
    requires
        old(rd).pos <= old(rd).data@.len(),
    ensures
        final(rd).data == old(rd).data,
        final(rd).pos <= final(rd).data@.len(),
        match run_head(old(rd).data@.skip(old(rd).pos as int), has_alpha) {
            None => r == Err::<(u8, Rgba), ReadError>(ReadError::UnexpectedEof),
            Some((len, px, k)) => r matches Ok((count, c)) && c == px && run_length(count) == k
                && final(rd).pos == old(rd).pos + len,
        },
{
    let ghost rest = rd.data@.skip(rd.pos as int);
    let ghost p0 = rd.pos as int;
    assert(forall|i: int| 0 <= i < rest.len() ==> rest[i] == rd.data@[p0 + i]);
    let count = rd.read_ubyte()?;
    if has_alpha {
        let alpha = rd.read_ubyte()?;
        if alpha > 0 {
            let b = rd.read_ubyte()?;
            let g = rd.read_ubyte()?;
            let r = rd.read_ubyte()?;
            Ok((count, Rgba { r, g, b, a: alpha }))
        } else {
            Ok((count, Rgba { r: 0, g: 0, b: 0, a: 0 }))
        }
    } else {
        let b = rd.read_ubyte()?;
        let g = rd.read_ubyte()?;
        let r = rd.read_ubyte()?;
        Ok((count, Rgba { r, g, b, a: 255 }))
    }
}

/// Decodes a `.data` file of a texture atlas into its pixels. Alpha is taken
/// as stored: colors are not unpremultiplied. Any short read fails the whole
/// decode.
pub fn decode_data(data: Vec<u8>) -> (r: Result<RgbaBuffer, ReadError>)
    ensures
        match decode_data_spec(data@) {
            Some((w, h, px)) => r matches Ok(img) && img.width == w && img.height == h && img.pixels@ == px
                && img.wf(),
            None => r == Err::<RgbaBuffer, ReadError>(ReadError::UnexpectedEof),
        },
{
    let ghost d = data@;
    if data.len() < 9 {
        return Err(ReadError::UnexpectedEof);
    }
    let mut rd = BinaryReader::new(data);
    let width = rd.read_ulong()?;
    let height = rd.read_ulong()?;
    let has_alpha = rd.read_ubyte()? != 0;
    proof {
        lemma_le_u32_bounds(d[0], d[1], d[2], d[3]);
        lemma_le_u32_bounds(d[4], d[5], d[6], d[7]);
    }
    assert(width as int * height as int <= 0xFFFF_FFFF * 0xFFFF_FFFF) by (nonlinear_arith)
        requires
            width <= 0xFFFF_FFFF,
            height <= 0xFFFF_FFFF,
    ;
    let total: u64 = width as u64 * height as u64;
    let mut remaining: u64 = total;
    let mut pixels: Vec<Rgba> = Vec::new();
    assert(d.skip(9) == rd.data@.skip(rd.pos as int));
    while remaining > 0
        invariant
            rd.data@ == d,
            d == data@,
            d.len() >= 9,
            9 <= rd.pos <= d.len(),
            remaining <= total,
            total == width as int * height as int,
            width == le_u32(d[0], d[1], d[2], d[3]),
            height == le_u32(d[4], d[5], d[6], d[7]),
            has_alpha == (d[8] != 0),
            pixels@.len() == total - remaining,
            decode_runs(d.skip(9), total as nat, has_alpha) == then_prefix(
                pixels@,
                decode_runs(d.skip(rd.pos as int), remaining as nat, has_alpha),
            ),
        decreases remaining,
    {
        let ghost rest = d.skip(rd.pos as int);
        let ghost before = pixels@;
        let (count, px) = match read_run_head(&mut rd, has_alpha) {
            Ok(h) => h,
            Err(_) => {
                assert(run_head(rest, has_alpha) is None);
                assert(decode_runs(rest, remaining as nat, has_alpha) is None);
                assert(decode_runs(d.skip(9), total as nat, has_alpha) is None);
                assert(decode_data_spec(d) is None);
                return Err(ReadError::UnexpectedEof);
            },
        };
        let ghost len = match run_head(rest, has_alpha) {
            Some((l, _, _)) => l,
            None => 0,
        };
        let k: u64 = if count == 0 { 1 } else { count as u64 };
        let m: u64 = if k < remaining { k } else { remaining };
        let mut j: u64 = 0;
        while j < m
            invariant
                j <= m,
                pixels@ == before + Seq::new(j as nat, |i: int| px),
            decreases m - j,
        {
            pixels.push(px);
            assert(pixels@ =~= before + Seq::new((j + 1) as nat, |i: int| px));
            j = j + 1;
        }
        assert(rest.skip(len) =~= d.skip(rd.pos as int));
        assert(pixels@ =~= before + Seq::new(m as nat, |i: int| px));
        assert(then_prefix(before, decode_runs(rest, remaining as nat, has_alpha)) == then_prefix(
            pixels@,
            decode_runs(d.skip(rd.pos as int), (remaining - m) as nat, has_alpha),
        )) by {
            let t = decode_runs(d.skip(rd.pos as int), (remaining - m) as nat, has_alpha);
            if t is Some {
                assert(before + (Seq::new(m as nat, |i: int| px) + t->0) =~= pixels@ + t->0);
            }
        }
        remaining = remaining - m;
    }
    assert(pixels@ + Seq::<Rgba>::empty() =~= pixels@);
    Ok(RgbaBuffer { width, height, pixels })
}

/// The bytes of one pixel as a run of its own, in the alpha form.
pub open spec fn pixel_run(p: Rgba) -> Seq<u8> {
    if p.a == 0 {
        seq![1u8, 0u8]
    } else {
        seq![1u8, p.a, p.b, p.g, p.r]
    }
}

pub open spec fn encode_runs(px: Seq<Rgba>) -> Seq<u8>
    decreases px.len(),
{
    if px.len() == 0 {
        Seq::empty()
    } else {
        pixel_run(px[0]) + encode_runs(px.drop_first())
    }
}

/// The four little-endian bytes of `n`.
pub open spec fn le_bytes(n: u32) -> Seq<u8> {
    seq![(n % 256) as u8, (n / 256 % 256) as u8, (n / 65536 % 256) as u8, (n / 16777216) as u8]
}

/// A `.data` file holding `px` with alpha, one run per pixel.
pub open spec fn encode_data_spec(w: u32, h: u32, px: Seq<Rgba>) -> Seq<u8> {
    le_bytes(w) + le_bytes(h) + seq![1u8] + encode_runs(px)
}

/// Every fully transparent pixel is transparent black, the only transparent
/// color that the format stores.
pub open spec fn transparent_is_black(px: Seq<Rgba>) -> bool {
    forall|i: int| 0 <= i < px.len() && (#[trigger] px[i]).a == 0 ==> px[i] == Rgba { r: 0, g: 0, b: 0, a: 0 }
}

proof fn lemma_encode_runs_push(s: Seq<Rgba>, p: Rgba)
    ensures
        encode_runs(s.push(p)) == encode_runs(s) + pixel_run(p),
    decreases s.len(),
{
    if s.len() == 0 {
        assert(s.push(p).drop_first() =~= Seq::<Rgba>::empty());
        assert(encode_runs(Seq::<Rgba>::empty()) =~= Seq::<u8>::empty());
        assert(s.push(p)[0] == p);
        assert(encode_runs(s.push(p)) =~= pixel_run(p) + Seq::<u8>::empty());
        assert(encode_runs(s) + pixel_run(p) =~= pixel_run(p));
    } else {
        assert(s.push(p).drop_first() =~= s.drop_first().push(p));
        lemma_encode_runs_push(s.drop_first(), p);
        assert(encode_runs(s.push(p)) =~= encode_runs(s) + pixel_run(p));
    }
}

proof fn lemma_le_bytes(n: u32)
    ensures
        le_u32(le_bytes(n)[0], le_bytes(n)[1], le_bytes(n)[2], le_bytes(n)[3]) == n,
{
    let b = le_bytes(n);
    assert(b[0] == n % 256);
    assert(b[1] == n / 256 % 256);
    assert(b[2] == n / 65536 % 256);
    assert(b[3] == n / 16777216);
}

proof fn lemma_runs_round_trip(px: Seq<Rgba>, tail: Seq<u8>)
    requires
        transparent_is_black(px),
    ensures
        decode_runs(encode_runs(px) + tail, px.len(), true) == Some(px),
    decreases px.len(),
{
    if px.len() == 0 {
        assert(px =~= Seq::<Rgba>::empty());
    } else {
        let p0 = px[0];
        let rest = px.drop_first();
        assert forall|i: int| 0 <= i < rest.len() && (#[trigger] rest[i]).a == 0 implies rest[i] == Rgba {
            r: 0,
            g: 0,
            b: 0,
            a: 0,
        } by {
            assert(rest[i] == px[i + 1]);
        }
        lemma_runs_round_trip(rest, tail);
        let all = encode_runs(px) + tail;
        let run = pixel_run(p0);
        assert(all =~= run + (encode_runs(rest) + tail));
        assert(all.skip(run.len() as int) =~= encode_runs(rest) + tail);
        if p0.a == 0 {
            assert(p0 == px[0]);
            assert(run_head(all, true) == Some((2int, p0, 1int)));
        } else {
            assert(run_head(all, true) == Some((5int, p0, 1int)));
        }
        assert(Seq::new(1, |i: int| p0) + rest =~= px);
    }
}

/// Decoding what [`encode_data`] writes gives back the same image, for every
/// image whose fully transparent pixels are black.
pub proof fn lemma_data_round_trip(w: u32, h: u32, px: Seq<Rgba>)
    requires
        px.len() == w as int * h as int,
        transparent_is_black(px),
    ensures
        decode_data_spec(encode_data_spec(w, h, px)) == Some((w, h, px)),
{
    let e = encode_data_spec(w, h, px);
    lemma_le_bytes(w);
    lemma_le_bytes(h);
    lemma_runs_round_trip(px, Seq::empty());
    assert(e.skip(9) =~= encode_runs(px) + Seq::<u8>::empty());
    assert(e[8] == 1u8);
    assert(e[0] == le_bytes(w)[0] && e[1] == le_bytes(w)[1] && e[2] == le_bytes(w)[2] && e[3] == le_bytes(w)[3]);
    assert(e[4] == le_bytes(h)[0] && e[5] == le_bytes(h)[1] && e[6] == le_bytes(h)[2] && e[7] == le_bytes(h)[3]);
}

fn push_le_u32(out: &mut Vec<u8>, n: u32)
    ensures
        final(out)@ == old(out)@ + le_bytes(n),
{
    out.push((n % 256) as u8);
    out.push((n / 256 % 256) as u8);
    out.push((n / 65536 % 256) as u8);
    out.push((n / 16777216) as u8);
    assert(final(out)@ =~= old(out)@ + le_bytes(n));
}

/// Writes an image as a `.data` file with alpha, one run per pixel.
pub fn encode_data(img: &RgbaBuffer) -> (r: Vec<u8>)
    ensures
        r@ == encode_data_spec(img.width, img.height, img.pixels@),
{
    let mut out: Vec<u8> = Vec::new();
    push_le_u32(&mut out, img.width);
    push_le_u32(&mut out, img.height);
    out.push(1u8);
    let ghost head = out@;
    assert(head =~= le_bytes(img.width) + le_bytes(img.height) + seq![1u8]);
    let mut i: usize = 0;
    assert(img.pixels@.take(0) =~= Seq::<Rgba>::empty());
    while i < img.pixels.len()
        invariant
            0 <= i <= img.pixels@.len(),
            head == le_bytes(img.width) + le_bytes(img.height) + seq![1u8],
            out@ == head + encode_runs(img.pixels@.take(i as int)),
        decreases img.pixels.len() - i,
    {
        let p = img.pixels[i];
        proof {
            assert(img.pixels@.take(i + 1) =~= img.pixels@.take(i as int).push(p));
            lemma_encode_runs_push(img.pixels@.take(i as int), p);
        }
        let ghost before = out@;
        out.push(1u8);
        if p.a == 0 {
            out.push(0u8);
        } else {
            out.push(p.a);
            out.push(p.b);
            out.push(p.g);
            out.push(p.r);
        }
        assert(out@ =~= before + pixel_run(p));
        i = i + 1;
    }
    assert(img.pixels@.take(img.pixels@.len() as int) =~= img.pixels@);
    out
}

} // verus!
