use vstd::prelude::*;
use vstd::utf8::{decode_utf8, valid_utf8};
use crate::atlas_data::RgbaBuffer;
use crate::binary_reader::{le_i16, BinaryReader, ReadError};
use crate::text::{chars_of, string_from_chars};

verus! {

/// Where a sprite lies in its backing image, and how it was trimmed.
#[derive(Debug, Clone, Copy, PartialEq, Eq, Structural)]
pub struct SpriteMetadata {
    pub x: i16,
    pub y: i16,
    pub width: i16,
    pub height: i16,
    pub offset_x: i16,
    pub offset_y: i16,
    pub real_width: i16,
    pub real_height: i16,
}

/// One sprite record of a meta file: its normalized path and its rectangle.
#[derive(Debug)]
pub struct MetaSprite {
    pub path: String,
    pub metadata: SpriteMetadata,
}

/// One data file of a meta file, with the sprites packed into it.
#[derive(Debug)]
pub struct MetaDataFile {
    pub name: String,
    pub sprites: Vec<MetaSprite>,
}

/// A sprite record as plain values.
pub struct MetaSpriteView {
    pub path: Seq<char>,
    pub metadata: SpriteMetadata,
}

/// A data file entry as plain values.
pub struct MetaFileView {
    pub name: Seq<char>,
    pub sprites: Seq<MetaSpriteView>,
}

pub open spec fn meta_sprite_view(s: MetaSprite) -> MetaSpriteView {
    MetaSpriteView { path: s.path@, metadata: s.metadata }
}

pub open spec fn meta_file_view(f: MetaDataFile) -> MetaFileView {
    MetaFileView { name: f.name@, sprites: f.sprites@.map_values(|s: MetaSprite| meta_sprite_view(s)) }
}

pub open spec fn meta_view(fs: Seq<MetaDataFile>) -> Seq<MetaFileView> {
    fs.map_values(|f: MetaDataFile| meta_file_view(f))
}

/// A path with every backslash turned into a slash.
pub open spec fn normalize_path(p: Seq<char>) -> Seq<char> {
    p.map_values(|c: char| if c == '\\' { '/' } else { c })
}

/// A length-prefixed UTF-8 string at `pos`, and the position after it.
pub open spec fn str_at(d: Seq<u8>, pos: int) -> Result<(Seq<char>, int), ReadError> {
    if pos + 1 > d.len() || pos + 1 + d[pos] > d.len() {
        Err(ReadError::UnexpectedEof)
    } else if !valid_utf8(d.subrange(pos + 1, pos + 1 + d[pos])) {
        Err(ReadError::InvalidUtf8)
    } else {
        Ok((decode_utf8(d.subrange(pos + 1, pos + 1 + d[pos])), pos + 1 + d[pos]))
    }
}

/// A little-endian signed 16-bit value at `pos`.
pub open spec fn i16_at(d: Seq<u8>, pos: int) -> int {
    le_i16(d[pos], d[pos + 1])
}

/// Eight signed 16-bit values at `pos`: x, y, width, height, the two trim
/// offsets and the untrimmed size.
pub open spec fn metadata_at(d: Seq<u8>, pos: int) -> Result<SpriteMetadata, ReadError> {
    if pos + 16 > d.len() {
        Err(ReadError::UnexpectedEof)
    } else {
        Ok(
            SpriteMetadata {
                x: i16_at(d, pos) as i16,
                y: i16_at(d, pos + 2) as i16,
                width: i16_at(d, pos + 4) as i16,
                height: i16_at(d, pos + 6) as i16,
                offset_x: i16_at(d, pos + 8) as i16,
                offset_y: i16_at(d, pos + 10) as i16,
                real_width: i16_at(d, pos + 12) as i16,
                real_height: i16_at(d, pos + 14) as i16,
            },
        )
    }
}

/// `n` sprite records from `pos`, and the position after them.
pub open spec fn sprites_at(d: Seq<u8>, pos: int, n: nat) -> Result<(Seq<MetaSpriteView>, int), ReadError>
    decreases n,
{
    if n == 0 {
        Ok((Seq::empty(), pos))
    } else {
        match str_at(d, pos) {
            Err(e) => Err(e),
            Ok((path, p1)) => match metadata_at(d, p1) {
                Err(e) => Err(e),
                Ok(m) => match sprites_at(d, p1 + 16, (n - 1) as nat) {
                    Err(e) => Err(e),
                    Ok((rest, p2)) => Ok(
                        (seq![MetaSpriteView { path: normalize_path(path), metadata: m }] + rest, p2),
                    ),
                },
            },
        }
    }
}

/// A count stored as a signed 16-bit value; a negative count reads nothing.
pub open spec fn count_at(d: Seq<u8>, pos: int) -> Result<nat, ReadError> {
    if pos + 2 > d.len() {
        Err(ReadError::UnexpectedEof)
    } else if i16_at(d, pos) < 0 {
        Ok(0)
    } else {
        Ok(i16_at(d, pos) as nat)
    }
}

/// `n` data file entries from `pos`, and the position after them.
pub open spec fn files_at(d: Seq<u8>, pos: int, n: nat) -> Result<(Seq<MetaFileView>, int), ReadError>
    decreases n,
{
    if n == 0 {
        Ok((Seq::empty(), pos))
    } else {
        match str_at(d, pos) {
            Err(e) => Err(e),
            Ok((name, p1)) => match count_at(d, p1) {
                Err(e) => Err(e),
                Ok(k) => match sprites_at(d, p1 + 2, k) {
                    Err(e) => Err(e),
                    Ok((sprites, p2)) => match files_at(d, p2, (n - 1) as nat) {
                        Err(e) => Err(e),
                        Ok((rest, p3)) => Ok(
                            (seq![MetaFileView { name, sprites }] + rest, p3),
                        ),
                    },
                },
            },
        }
    }
}

/// A meta file: a 32-bit signature, a string and a 32-bit value (all
/// skipped), a 16-bit count of data files, then the data files.
pub open spec fn parse_meta_spec(d: Seq<u8>) -> Result<Seq<MetaFileView>, ReadError> {
    if d.len() < 4 {
        Err(ReadError::UnexpectedEof)
    } else {
        match str_at(d, 4) {
            Err(e) => Err(e),
            Ok((_, p1)) => if p1 + 4 > d.len() {
                Err(ReadError::UnexpectedEof)
            } else {
                match count_at(d, p1 + 4) {
                    Err(e) => Err(e),
                    Ok(n) => match files_at(d, p1 + 6, n) {
                        Err(e) => Err(e),
                        Ok((files, _)) => Ok(files),
                    },
                }
            },
        }
    }
}

pub open spec fn then_sprites(
    p: Seq<MetaSpriteView>,
    r: Result<(Seq<MetaSpriteView>, int), ReadError>,
) -> Result<(Seq<MetaSpriteView>, int), ReadError> {
    match r {
        Err(e) => Err(e),
        Ok((rest, q)) => Ok((p + rest, q)),
    }
}

pub open spec fn then_files(
    p: Seq<MetaFileView>,
    r: Result<(Seq<MetaFileView>, int), ReadError>,
) -> Result<(Seq<MetaFileView>, int), ReadError> {
    match r {
        Err(e) => Err(e),
        Ok((rest, q)) => Ok((p + rest, q)),
    }
}

/// A sprite path with every backslash turned into a slash.
pub fn normalize_sprite_path(path: &str) -> (r: String)
    ensures
        r@ == normalize_path(path@),
{
    let cs = chars_of(path);
    let mut out: Vec<char> = Vec::new();
    let mut i: usize = 0;
    while i < cs.len()
        invariant
            0 <= i <= cs@.len(),
            cs@ == path@,
            out@ == normalize_path(cs@.take(i as int)),
        decreases cs.len() - i,
    {
        let c = cs[i];
        out.push(if c == '\\' { '/' } else { c });
        assert(normalize_path(cs@.take(i + 1)) =~= normalize_path(cs@.take(i as int)).push(
            if c == '\\' { '/' } else { c },
        ));
        i = i + 1;
    }
    assert(cs@.take(cs@.len() as int) == cs@);
    string_from_chars(&out)
}

/// Reads a length-prefixed string as [`str_at`] states.
pub(crate) fn read_str(rd: &mut BinaryReader) -> (r: Result<String, ReadError>)
    requires
        old(rd).pos <= old(rd).data@.len(),
    ensures
        final(rd).data@ == old(rd).data@,
        match str_at(old(rd).data@, old(rd).pos as int) {
            Err(e) => r == Err::<String, ReadError>(e),
            Ok((s, p)) => r matches Ok(t) && t@ == s && final(rd).pos == p && p <= final(rd).data@.len(),
        },
{
    rd.read_string()
}

fn read_count(rd: &mut BinaryReader) -> (r: Result<u64, ReadError>)
    requires
        old(rd).pos <= old(rd).data@.len(),
    ensures
        final(rd).data@ == old(rd).data@,
        match count_at(old(rd).data@, old(rd).pos as int) {
            Err(e) => r == Err::<u64, ReadError>(e),
            Ok(n) => r matches Ok(k) && k == n && final(rd).pos == old(rd).pos + 2,
        },
{
    let v = rd.read_short()?;
    if v < 0 {
        Ok(0)
    } else {
        Ok(v as u64)
    }
}

fn read_metadata(rd: &mut BinaryReader) -> (r: Result<SpriteMetadata, ReadError>)
    requires
        old(rd).pos <= old(rd).data@.len(),
    ensures
        final(rd).data@ == old(rd).data@,
        match metadata_at(old(rd).data@, old(rd).pos as int) {
            Err(e) => r == Err::<SpriteMetadata, ReadError>(e),
            Ok(m) => r == Ok::<SpriteMetadata, ReadError>(m) && final(rd).pos == old(rd).pos + 16,
        },
{
    if rd.data.len() - rd.pos < 16 {
        return Err(ReadError::UnexpectedEof);
    }
    let x = rd.read_short()?;
    let y = rd.read_short()?;
    let width = rd.read_short()?;
    let height = rd.read_short()?;
    let offset_x = rd.read_short()?;
    let offset_y = rd.read_short()?;
    let real_width = rd.read_short()?;
    let real_height = rd.read_short()?;
    Ok(SpriteMetadata { x, y, width, height, offset_x, offset_y, real_width, real_height })
}

fn read_sprites(rd: &mut BinaryReader, n: u64) -> (r: Result<Vec<MetaSprite>, ReadError>)
    requires
        old(rd).pos <= old(rd).data@.len(),
    ensures
        final(rd).data@ == old(rd).data@,
        r is Ok ==> final(rd).pos <= final(rd).data@.len(),
        match sprites_at(old(rd).data@, old(rd).pos as int, n as nat) {
            Err(e) => r == Err::<Vec<MetaSprite>, ReadError>(e),
            Ok((v, p)) => r matches Ok(out) && out@.map_values(|s: MetaSprite| meta_sprite_view(s)) == v
                && final(rd).pos == p,
        },
{
    let ghost d = rd.data@;
    let ghost p0 = rd.pos as int;
    let mut out: Vec<MetaSprite> = Vec::new();
    let mut i: u64 = 0;
    assert(out@.map_values(|s: MetaSprite| meta_sprite_view(s)) =~= Seq::<MetaSpriteView>::empty());
    while i < n
        invariant
            rd.data@ == d,
            d == old(rd).data@,
            p0 == old(rd).pos,
            i <= n,
            rd.pos <= d.len(),
            sprites_at(d, p0, n as nat) == then_sprites(
                out@.map_values(|s: MetaSprite| meta_sprite_view(s)),
                sprites_at(d, rd.pos as int, (n - i) as nat),
            ),
        decreases n - i,
    {
        let ghost before = out@.map_values(|s: MetaSprite| meta_sprite_view(s));
        let ghost pos = rd.pos as int;
        let path = read_str(rd)?;
        let metadata = read_metadata(rd)?;
        let sprite = MetaSprite { path: normalize_sprite_path(path.as_str()), metadata };
        proof {
            let tail = sprites_at(d, rd.pos as int, (n - i - 1) as nat);
            assert(out@.push(sprite).map_values(|s: MetaSprite| meta_sprite_view(s)) =~= before.push(
                meta_sprite_view(sprite),
            ));
            if let Ok((tv, _)) = tail {
                assert(before + (seq![meta_sprite_view(sprite)] + tv) =~= before.push(
                    meta_sprite_view(sprite),
                ) + tv);
            }
        }
        out.push(sprite);
        i = i + 1;
    }
    assert(out@.map_values(|s: MetaSprite| meta_sprite_view(s)) + Seq::<MetaSpriteView>::empty()
        =~= out@.map_values(|s: MetaSprite| meta_sprite_view(s)));
    Ok(out)
}

fn read_files(rd: &mut BinaryReader, n: u64) -> (r: Result<Vec<MetaDataFile>, ReadError>)
    requires
        old(rd).pos <= old(rd).data@.len(),
    ensures
        final(rd).data@ == old(rd).data@,
        r is Ok ==> final(rd).pos <= final(rd).data@.len(),
        match files_at(old(rd).data@, old(rd).pos as int, n as nat) {
            Err(e) => r == Err::<Vec<MetaDataFile>, ReadError>(e),
            Ok((v, p)) => r matches Ok(out) && meta_view(out@) == v && final(rd).pos == p,
        },
{
    let ghost d = rd.data@;
    let ghost p0 = rd.pos as int;
    let mut out: Vec<MetaDataFile> = Vec::new();
    let mut i: u64 = 0;
    assert(meta_view(out@) =~= Seq::<MetaFileView>::empty());
    while i < n
        invariant
            rd.data@ == d,
            d == old(rd).data@,
            p0 == old(rd).pos,
            i <= n,
            rd.pos <= d.len(),
            files_at(d, p0, n as nat) == then_files(meta_view(out@), files_at(d, rd.pos as int, (n - i) as nat)),
        decreases n - i,
    {
        let ghost before = meta_view(out@);
        let name = read_str(rd)?;
        let count = read_count(rd)?;
        let sprites = read_sprites(rd, count)?;
        let file = MetaDataFile { name, sprites };
        proof {
            let tail = files_at(d, rd.pos as int, (n - i - 1) as nat);
            assert(meta_view(out@.push(file)) =~= before.push(meta_file_view(file)));
            if let Ok((tv, _)) = tail {
                assert(before + (seq![meta_file_view(file)] + tv) =~= before.push(meta_file_view(file)) + tv);
            }
        }
        out.push(file);
        i = i + 1;
    }
    assert(meta_view(out@) + Seq::<MetaFileView>::empty() =~= meta_view(out@));
    Ok(out)
}

/// Parses an atlas meta file into its data files and their sprite records,
/// with sprite paths normalized to forward slashes. Any short read or
/// invalid string fails the whole parse.
pub fn parse_meta(data: Vec<u8>) -> (r: Result<Vec<MetaDataFile>, ReadError>)
    ensures
        match parse_meta_spec(data@) {
            Err(e) => r == Err::<Vec<MetaDataFile>, ReadError>(e),
            Ok(v) => r matches Ok(files) && meta_view(files@) == v,
        },
{
    let mut rd = BinaryReader::new(data);
    let _signature = rd.read_long()?;
    let _name = read_str(&mut rd)?;
    let _value = rd.read_long()?;
    let count = read_count(&mut rd)?;
    read_files(&mut rd, count)
}

/// A texture rectangle as exact fractions of the backing image's size: the
/// normalized coordinates are `min_x / image_width`, `min_y / image_height`,
/// `max_x / image_width` and `max_y / image_height`.
#[derive(Debug, Clone, Copy, PartialEq, Eq, Structural)]
pub struct UvRect {
    pub min_x: i64,
    pub min_y: i64,
    pub max_x: i64,
    pub max_y: i64,
    pub image_width: u32,
    pub image_height: u32,
}

/// A sprite of a loaded atlas: its rectangle, where its pixels live, and
/// its texture rectangle when computed at load.
#[derive(Debug)]
pub struct Sprite {
    pub metadata: SpriteMetadata,
    pub atlas: String,
    pub data_file: String,
    pub uv_rect: Option<UvRect>,
}

/// A sprite as plain values.
pub struct SpriteView {
    pub metadata: SpriteMetadata,
    pub atlas: Seq<char>,
    pub data_file: Seq<char>,
    pub uv_rect: Option<UvRect>,
}

pub open spec fn sprite_view(s: Sprite) -> SpriteView {
    SpriteView { metadata: s.metadata, atlas: s.atlas@, data_file: s.data_file@, uv_rect: s.uv_rect }
}

/// The texture rectangle of a sprite's whole extent in a `w` x `h` image.
pub open spec fn uv_of(m: SpriteMetadata, w: u32, h: u32) -> UvRect {
    UvRect {
        min_x: m.x as i64,
        min_y: m.y as i64,
        max_x: (m.x + m.width) as i64,
        max_y: (m.y + m.height) as i64,
        image_width: w,
        image_height: h,
    }
}

/// The texture rectangle of a sprite's whole extent in a `w` x `h` image.
pub fn sprite_uv_in(m: SpriteMetadata, w: u32, h: u32) -> (r: UvRect)
    ensures
        r == uv_of(m, w, h),
{
    UvRect {
        min_x: m.x as i64,
        min_y: m.y as i64,
        max_x: m.x as i64 + m.width as i64,
        max_y: m.y as i64 + m.height as i64,
        image_width: w,
        image_height: h,
    }
}

/// A named group of data files: their decoded images and the sprites
/// packed into them.
#[derive(Debug)]
pub struct Atlas {
    pub name: String,
    pub sprites: Vec<(String, Sprite)>,
    pub data_files: Vec<String>,
    pub images: Vec<(String, RgbaBuffer)>,
}

/// Index of the last entry whose key is `key`.
pub open spec fn last_key<T>(entries: Seq<(String, T)>, key: Seq<char>) -> Option<int>
    decreases entries.len(),
{
    if entries.len() == 0 {
        None
    } else if entries.last().0@ == key {
        Some(entries.len() - 1)
    } else {
        last_key(entries.drop_last(), key)
    }
}

pub proof fn lemma_last_key<T>(entries: Seq<(String, T)>, key: Seq<char>)
    ensures
        last_key(entries, key) matches Some(k) ==> 0 <= k < entries.len() && entries[k].0@ == key
            && forall|j: int| k < j < entries.len() ==> (#[trigger] entries[j]).0@ != key,
        last_key(entries, key) is None ==> forall|j: int| 0 <= j < entries.len() ==> (#[trigger] entries[j]).0@ != key,
    decreases entries.len(),
{
    if entries.len() > 0 {
        lemma_last_key(entries.drop_last(), key);
        assert forall|j: int| 0 <= j < entries.len() - 1 implies entries[j] == entries.drop_last()[j] by {}
    }
}

/// Whether two texts are equal.
pub fn same_text(a: &str, b: &str) -> (r: bool)
    ensures
        r == (a@ == b@),
{
    let x = chars_of(a);
    let y = chars_of(b);
    if x.len() != y.len() {
        return false;
    }
    let mut i: usize = 0;
    while i < x.len()
        invariant
            x@ == a@,
            y@ == b@,
            x@.len() == y@.len(),
            0 <= i <= x@.len(),
            forall|j: int| 0 <= j < i ==> x@[j] == y@[j],
        decreases x.len() - i,
    {
        if x[i] != y[i] {
            return false;
        }
        i = i + 1;
    }
    assert(x@ =~= y@);
    true
}

fn find_last<T>(entries: &Vec<(String, T)>, key: &str) -> (r: Option<usize>)
    ensures
        r matches Some(k) ==> k < entries@.len() && last_key(entries@, key@) == Some(k as int),
        r is None ==> last_key(entries@, key@) is None,
{
    proof { lemma_last_key(entries@, key@); }
    let mut i: usize = entries.len();
    while i > 0
        invariant
            0 <= i <= entries@.len(),
            forall|j: int| i <= j < entries@.len() ==> (#[trigger] entries@[j]).0@ != key@,
            last_key(entries@, key@) matches Some(k) ==> 0 <= k < entries@.len() && entries@[k].0@ == key@
                && forall|j: int| k < j < entries@.len() ==> (#[trigger] entries@[j]).0@ != key@,
            last_key(entries@, key@) is None ==> forall|j: int|
                0 <= j < entries@.len() ==> (#[trigger] entries@[j]).0@ != key@,
        decreases i,
    {
        if same_text(entries[i - 1].0.as_str(), key) {
            return Some(i - 1);
        }
        i = i - 1;
    }
    None
}

/// The registry entries that one data file adds to an atlas.
pub open spec fn file_entries(atlas: Seq<char>, f: MetaFileView, w: u32, h: u32) -> Seq<(Seq<char>, SpriteView)> {
    f.sprites.map_values(
        |s: MetaSpriteView|
            (
                s.path,
                SpriteView {
                    metadata: s.metadata,
                    atlas,
                    data_file: f.name,
                    uv_rect: Some(uv_of(s.metadata, w, h)),
                },
            ),
    )
}

pub open spec fn entries_view(es: Seq<(String, Sprite)>) -> Seq<(Seq<char>, SpriteView)> {
    es.map_values(|e: (String, Sprite)| (e.0@, sprite_view(e.1)))
}

impl Atlas {
    /// An empty atlas.
    pub fn new(name: &str) -> (r: Self)
        ensures
            r.name@ == name@,
            r.sprites@.len() == 0,
            r.data_files@.len() == 0,
            r.images@.len() == 0,
    {
        Atlas { name: string_from_chars(&chars_of(name)), sprites: Vec::new(), data_files: Vec::new(), images: Vec::new() }
    }

    /// Adds a data file with its decoded image: each of its sprites is
    /// registered under its path with its texture rectangle computed from
    /// the image's size. A later sprite with the same path wins.
    pub fn add_data_file(&mut self, file: MetaDataFile, image: RgbaBuffer)
        ensures
            final(self).name == old(self).name,
            entries_view(final(self).sprites@) == entries_view(old(self).sprites@) + file_entries(
                old(self).name@,
                meta_file_view(file),
                image.width,
                image.height,
            ),
            final(self).data_files@.len() == old(self).data_files@.len() + 1,
            final(self).data_files@.last()@ == file.name@,
            final(self).images@.len() == old(self).images@.len() + 1,
            final(self).images@.last().0@ == file.name@,
            final(self).images@.last().1 == image,
    {
        let ghost before = entries_view(self.sprites@);
        let ghost fv = meta_file_view(file);
        let w = image.width;
        let h = image.height;
        let mut i: usize = 0;
        while i < file.sprites.len()
            invariant
                0 <= i <= file.sprites@.len(),
                fv == meta_file_view(file),
                self.name == old(self).name,
                self.data_files == old(self).data_files,
                self.images == old(self).images,
                entries_view(self.sprites@) == before + file_entries(self.name@, fv, w, h).take(i as int),
            decreases file.sprites.len() - i,
        {
            let ms = &file.sprites[i];
            let sprite = Sprite {
                metadata: ms.metadata,
                atlas: self.name.clone(),
                data_file: file.name.clone(),
                uv_rect: Some(sprite_uv_in(ms.metadata, w, h)),
            };
            let entry = (ms.path.clone(), sprite);
            proof {
                assert(entries_view(self.sprites@.push(entry)) =~= entries_view(self.sprites@).push(
                    (entry.0@, sprite_view(entry.1)),
                ));
                assert(file_entries(self.name@, fv, w, h).take(i + 1) =~= file_entries(
                    self.name@,
                    fv,
                    w,
                    h,
                ).take(i as int).push((entry.0@, sprite_view(entry.1))));
            }
            self.sprites.push(entry);
            i = i + 1;
        }
        assert(file_entries(self.name@, fv, w, h).take(file.sprites@.len() as int) =~= file_entries(
            self.name@,
            fv,
            w,
            h,
        ));
        self.data_files.push(file.name.clone());
        self.images.push((file.name, image));
    }

    /// The sprite registered under `path`: the last one added with it.
    pub fn get_sprite(&self, path: &str) -> (r: Option<&Sprite>)
        ensures
            match last_key(self.sprites@, path@) {
                Some(k) => r == Some(&self.sprites@[k].1),
                None => r is None,
            },
    {
        match find_last(&self.sprites, path) {
            Some(k) => Some(&self.sprites[k].1),
            None => None,
        }
    }

    /// The decoded image of a data file: the last one added under that name.
    pub fn get_image(&self, data_file: &str) -> (r: Option<&RgbaBuffer>)
        ensures
            match last_key(self.images@, data_file@) {
                Some(k) => r == Some(&self.images@[k].1),
                None => r is None,
            },
    {
        match find_last(&self.images, data_file) {
            Some(k) => Some(&self.images[k].1),
            None => None,
        }
    }
}

/// Index of the first atlas with the given name.
pub open spec fn find_atlas(atlases: Seq<Atlas>, name: Seq<char>) -> Option<int>
    decreases atlases.len(),
{
    if atlases.len() == 0 {
        None
    } else {
        match find_atlas(atlases.drop_last(), name) {
            Some(k) => Some(k),
            None => if atlases.last().name@ == name {
                Some(atlases.len() - 1)
            } else {
                None
            },
        }
    }
}

pub proof fn lemma_find_atlas(atlases: Seq<Atlas>, name: Seq<char>)
    ensures
        find_atlas(atlases, name) matches Some(k) ==> 0 <= k < atlases.len() && atlases[k].name@ == name
            && forall|j: int| 0 <= j < k ==> (#[trigger] atlases[j]).name@ != name,
        find_atlas(atlases, name) is None ==> forall|j: int| 0 <= j < atlases.len() ==> (#[trigger] atlases[j]).name@ != name,
    decreases atlases.len(),
{
    if atlases.len() > 0 {
        lemma_find_atlas(atlases.drop_last(), name);
        assert forall|j: int| 0 <= j < atlases.len() - 1 implies atlases[j] == atlases.drop_last()[j] by {}
    }
}

/// Where a path is found across all atlases: the most recently registered
/// atlas that has it, and its last sprite with that path.
pub open spec fn global_hit(atlases: Seq<Atlas>, path: Seq<char>) -> Option<(int, int)>
    decreases atlases.len(),
{
    if atlases.len() == 0 {
        None
    } else {
        match last_key(atlases.last().sprites@, path) {
            Some(e) => Some((atlases.len() - 1, e)),
            None => global_hit(atlases.drop_last(), path),
        }
    }
}

proof fn lemma_global_hit(atlases: Seq<Atlas>, path: Seq<char>)
    ensures
        global_hit(atlases, path) matches Some((a, e)) ==> 0 <= a < atlases.len() && last_key(
            atlases[a].sprites@,
            path,
        ) == Some(e) && forall|j: int| a < j < atlases.len() ==> last_key((#[trigger] atlases[j]).sprites@, path) is None,
        global_hit(atlases, path) is None ==> forall|j: int|
            0 <= j < atlases.len() ==> last_key((#[trigger] atlases[j]).sprites@, path) is None,
    decreases atlases.len(),
{
    if atlases.len() > 0 {
        lemma_global_hit(atlases.drop_last(), path);
        assert forall|j: int| 0 <= j < atlases.len() - 1 implies atlases[j] == atlases.drop_last()[j] by {}
    }
}

/// The size of the image that backs a sprite, if its atlas and data file are registered.
pub open spec fn backing_size(atlases: Seq<Atlas>, sprite: Sprite) -> Option<(u32, u32)> {
    match find_atlas(atlases, sprite.atlas@) {
        Some(a) => match last_key(atlases[a].images@, sprite.data_file@) {
            Some(i) => Some((atlases[a].images@[i].1.width, atlases[a].images@[i].1.height)),
            None => None,
        },
        None => None,
    }
}

/// The texture name used for common tile characters.
pub open spec fn texture_for_tile(c: char) -> Option<Seq<char>> {
    if c == '9' || c == '1' || c == '3' || c == '4' || c == '7' {
        Some("tilesSolid"@)
    } else if c == 'm' {
        Some("mountainTiles"@)
    } else if c == 'n' {
        Some("templeTiles"@)
    } else if c == 'a' {
        Some("coreTiles"@)
    } else if c == 'b' {
        Some("reflectionTiles"@)
    } else if c == 'c' {
        Some("moonTiles"@)
    } else if c == 'd' {
        Some("dreamTiles"@)
    } else {
        None
    }
}

fn copy_sprite(s: &Sprite) -> (r: Sprite)
    ensures
        r == *s,
{
    Sprite { metadata: s.metadata, atlas: s.atlas.clone(), data_file: s.data_file.clone(), uv_rect: s.uv_rect }
}

/// Every loaded atlas, by name. Registering is the only mutation; lookups
/// read only.
#[derive(Debug)]
pub struct AtlasManager {
    pub atlases: Vec<Atlas>,
}

impl AtlasManager {
    /// No two atlases share a name.
    pub open spec fn wf(&self) -> bool {
        forall|i: int, j: int|
            0 <= i < j < self.atlases@.len() ==> (#[trigger] self.atlases@[i]).name@ != (#[trigger] self.atlases@[j]).name@
    }

    /// A registry with no atlas.
    pub fn new() -> (r: Self)
        ensures
            r.atlases@.len() == 0,
            r.wf(),
    {
        AtlasManager { atlases: Vec::new() }
    }

    fn find_atlas_index(&self, name: &str) -> (r: Option<usize>)
        ensures
            r matches Some(k) ==> k < self.atlases@.len() && find_atlas(self.atlases@, name@) == Some(k as int),
            r is None ==> find_atlas(self.atlases@, name@) is None,
    {
        proof { lemma_find_atlas(self.atlases@, name@); }
        let mut i: usize = 0;
        while i < self.atlases.len()
            invariant
                0 <= i <= self.atlases@.len(),
                forall|j: int| 0 <= j < i ==> (#[trigger] self.atlases@[j]).name@ != name@,
                find_atlas(self.atlases@, name@) matches Some(k) ==> 0 <= k < self.atlases@.len()
                    && self.atlases@[k].name@ == name@ && forall|j: int|
                    0 <= j < k ==> (#[trigger] self.atlases@[j]).name@ != name@,
                find_atlas(self.atlases@, name@) is None ==> forall|j: int|
                    0 <= j < self.atlases@.len() ==> (#[trigger] self.atlases@[j]).name@ != name@,
            decreases self.atlases.len() - i,
        {
            if same_text(self.atlases[i].name.as_str(), name) {
                return Some(i);
            }
            i = i + 1;
        }
        None
    }

    /// Registers an atlas under its name, replacing any atlas of that name;
    /// it becomes the most recent one for global lookups.
    pub fn add_atlas(&mut self, atlas: Atlas)
        requires
            old(self).wf(),
        ensures
            final(self).wf(),
            final(self).atlases@ == (match find_atlas(old(self).atlases@, atlas.name@) {
                Some(k) => old(self).atlases@.remove(k),
                None => old(self).atlases@,
            }).push(atlas),
            find_atlas(final(self).atlases@, atlas.name@) == Some(final(self).atlases@.len() - 1),
            forall|p: Seq<char>|
                #[trigger] last_key(atlas.sprites@, p) matches Some(e) ==> global_hit(final(self).atlases@, p) == Some(
                    (final(self).atlases@.len() - 1, e),
                ),
    {
        let ghost name = atlas.name@;
        proof { lemma_find_atlas(self.atlases@, name); }
        match self.find_atlas_index(atlas.name.as_str()) {
            Some(k) => {
                let _old = self.atlases.remove(k);
            },
            None => {},
        }
        let ghost kept = self.atlases@;
        assert forall|j: int| 0 <= j < kept.len() implies (#[trigger] kept[j]).name@ != name by {
            match find_atlas(old(self).atlases@, name) {
                Some(k) => {
                    if j < k {
                        assert(kept[j] == old(self).atlases@[j]);
                    } else {
                        assert(kept[j] == old(self).atlases@[j + 1]);
                        assert(old(self).atlases@[k].name@ != old(self).atlases@[j + 1].name@);
                    }
                },
                None => {},
            }
        }
        self.atlases.push(atlas);
        assert forall|i: int, j: int| 0 <= i < j < self.atlases@.len() implies (#[trigger] self.atlases@[i]).name@
            != (#[trigger] self.atlases@[j]).name@ by {
            if j < kept.len() {
                match find_atlas(old(self).atlases@, name) {
                    Some(k) => {
                        let oi = if i < k { i } else { i + 1 };
                        let oj = if j < k { j } else { j + 1 };
                        assert(kept[i] == old(self).atlases@[oi]);
                        assert(kept[j] == old(self).atlases@[oj]);
                    },
                    None => {},
                }
            } else {
                assert(self.atlases@[i] == kept[i]);
            }
        }
        proof {
            lemma_find_atlas(self.atlases@, name);
            let n = self.atlases@.len();
            if find_atlas(self.atlases@, name) != Some(n - 1) {
                match find_atlas(self.atlases@, name) {
                    Some(j) => {
                        assert(self.atlases@[j] == kept[j]);
                    },
                    None => {
                        assert(self.atlases@[n - 1].name@ == name);
                    },
                }
            }
            assert(self.atlases@.last() == atlas);
        }
    }
    /// The atlas registered under `name`.
    pub fn get_atlas(&self, name: &str) -> (r: Option<&Atlas>)
        ensures
            match find_atlas(self.atlases@, name@) {
                Some(k) => r == Some(&self.atlases@[k]),
                None => r is None,
            },
    {
        match self.find_atlas_index(name) {
            Some(k) => Some(&self.atlases[k]),
            None => None,
        }
    }

    /// A sprite by path within one atlas; not found when the atlas or the
    /// path is unknown.
    pub fn get_sprite(&self, atlas_name: &str, sprite_path: &str) -> (r: Option<&Sprite>)
        ensures
            match find_atlas(self.atlases@, atlas_name@) {
                Some(a) => match last_key(self.atlases@[a].sprites@, sprite_path@) {
                    Some(e) => r == Some(&self.atlases@[a].sprites@[e].1),
                    None => r is None,
                },
                None => r is None,
            },
    {
        match self.get_atlas(atlas_name) {
            Some(atlas) => atlas.get_sprite(sprite_path),
            None => None,
        }
    }

    /// The decoded image of one data file of one atlas.
    pub fn get_atlas_image(&self, atlas_name: &str, data_file: &str) -> (r: Option<&RgbaBuffer>)
        ensures
            match find_atlas(self.atlases@, atlas_name@) {
                Some(a) => match last_key(self.atlases@[a].images@, data_file@) {
                    Some(i) => r == Some(&self.atlases@[a].images@[i].1),
                    None => r is None,
                },
                None => r is None,
            },
    {
        match self.get_atlas(atlas_name) {
            Some(atlas) => atlas.get_image(data_file),
            None => None,
        }
    }

    /// A sprite by path across all atlases, with the name of its atlas: the
    /// most recently registered atlas that has the path wins.
    pub fn get_sprite_global(&self, path: &str) -> (r: Option<(String, Sprite)>)
        ensures
            match global_hit(self.atlases@, path@) {
                Some((a, e)) => r matches Some((n, s)) && n@ == self.atlases@[a].name@ && s
                    == self.atlases@[a].sprites@[e].1,
                None => r is None,
            },
    {
        proof { lemma_global_hit(self.atlases@, path@); }
        let mut i: usize = self.atlases.len();
        while i > 0
            invariant
                0 <= i <= self.atlases@.len(),
                forall|j: int| i <= j < self.atlases@.len() ==> last_key((#[trigger] self.atlases@[j]).sprites@, path@) is None,
                global_hit(self.atlases@, path@) matches Some((a, e)) ==> 0 <= a < self.atlases@.len()
                    && last_key(self.atlases@[a].sprites@, path@) == Some(e) && forall|j: int|
                    a < j < self.atlases@.len() ==> last_key((#[trigger] self.atlases@[j]).sprites@, path@) is None,
                global_hit(self.atlases@, path@) is None ==> forall|j: int|
                    0 <= j < self.atlases@.len() ==> last_key((#[trigger] self.atlases@[j]).sprites@, path@) is None,
            decreases i,
        {
            let atlas = &self.atlases[i - 1];
            match find_last(&atlas.sprites, path) {
                Some(e) => {
                    return Some((atlas.name.clone(), copy_sprite(&atlas.sprites[e].1)));
                },
                None => {},
            }
            i = i - 1;
        }
        None
    }

    /// The size of the image that backs a sprite.
    pub fn backing_image_size(&self, sprite: &Sprite) -> (r: Option<(u32, u32)>)
        ensures
            r == backing_size(self.atlases@, *sprite),
    {
        match self.get_atlas_image(sprite.atlas.as_str(), sprite.data_file.as_str()) {
            Some(img) => Some((img.width, img.height)),
            None => None,
        }
    }

    /// The texture rectangle to draw a sprite's whole extent with: the one
    /// computed at load, or else one computed now from its backing image;
    /// nothing when neither is available.
    pub fn sprite_uv(&self, sprite: &Sprite) -> (r: Option<UvRect>)
        ensures
            match sprite.uv_rect {
                Some(uv) => r == Some(uv),
                None => match backing_size(self.atlases@, *sprite) {
                    Some((w, h)) => r == Some(uv_of(sprite.metadata, w, h)),
                    None => r is None,
                },
            },
    {
        if let Some(uv) = sprite.uv_rect {
            return Some(uv);
        }
        match self.backing_image_size(sprite) {
            Some((w, h)) => Some(sprite_uv_in(sprite.metadata, w, h)),
            None => None,
        }
    }

    /// The texture rectangle of a sub-rectangle of a sprite, given in pixels
    /// relative to the sprite's own rectangle (one 8x8 cell of a packed
    /// tileset, say); nothing when the backing image is not registered.
    pub fn sprite_region_uv(&self, sprite: &Sprite, x: i32, y: i32, width: i32, height: i32) -> (r: Option<UvRect>)
        ensures
            match backing_size(self.atlases@, *sprite) {
                Some((w, h)) => r == Some(
                    UvRect {
                        min_x: (sprite.metadata.x + x) as i64,
                        min_y: (sprite.metadata.y + y) as i64,
                        max_x: (sprite.metadata.x + x + width) as i64,
                        max_y: (sprite.metadata.y + y + height) as i64,
                        image_width: w,
                        image_height: h,
                    },
                ),
                None => r is None,
            },
    {
        match self.backing_image_size(sprite) {
            Some((w, h)) => {
                let sx = sprite.metadata.x as i64;
                let sy = sprite.metadata.y as i64;
                Some(
                    UvRect {
                        min_x: sx + x as i64,
                        min_y: sy + y as i64,
                        max_x: sx + x as i64 + width as i64,
                        max_y: sy + y as i64 + height as i64,
                        image_width: w,
                        image_height: h,
                    },
                )
            },
            None => None,
        }
    }

    /// The texture name used for common tile characters.
    pub fn get_texture_path_for_tile(&self, tile_char: char) -> (r: Option<&'static str>)
        ensures
            match texture_for_tile(tile_char) {
                Some(t) => r matches Some(s) && s@ == t,
                None => r is None,
            },
    {
        match tile_char {
            '9' | '1' | '3' | '4' | '7' => Some("tilesSolid"),
            'm' => Some("mountainTiles"),
            'n' => Some("templeTiles"),
            'a' => Some("coreTiles"),
            'b' => Some("reflectionTiles"),
            'c' => Some("moonTiles"),
            'd' => Some("dreamTiles"),
            _ => None,
        }
    }
}

/// A data file `tiles` with sprite `a` at (0, 0, 8, 8) and sprite `b` at
/// (8, 0, 8, 8), added to an atlas with a `w` x `h` image, registers exactly
/// those two sprites, with their rectangles as given and texture rectangles
/// (0, 0)-(8/w, 8/h) and (8/w, 0)-(16/w, 8/h).
pub proof fn lemma_two_sprite_file(atlas: Seq<char>, w: u32, h: u32)
    ensures
        ({
            let a = SpriteMetadata { x: 0, y: 0, width: 8, height: 8, offset_x: 0, offset_y: 0, real_width: 8, real_height: 8 };
            let b = SpriteMetadata { x: 8, y: 0, width: 8, height: 8, offset_x: 0, offset_y: 0, real_width: 8, real_height: 8 };
            let f = MetaFileView {
                name: seq!['t', 'i', 'l', 'e', 's'],
                sprites: seq![MetaSpriteView { path: seq!['a'], metadata: a }, MetaSpriteView { path: seq!['b'], metadata: b }],
            };
            let es = file_entries(atlas, f, w, h);
            &&& es.len() == 2
            &&& es[0].0 == seq!['a'] && es[0].1.metadata == a && es[0].1.data_file == f.name
            &&& es[1].0 == seq!['b'] && es[1].1.metadata == b && es[1].1.data_file == f.name
            &&& es[0].1.uv_rect == Some(UvRect { min_x: 0, min_y: 0, max_x: 8, max_y: 8, image_width: w, image_height: h })
            &&& es[1].1.uv_rect == Some(UvRect { min_x: 8, min_y: 0, max_x: 16, max_y: 8, image_width: w, image_height: h })
        }),
{
}

} // verus!
