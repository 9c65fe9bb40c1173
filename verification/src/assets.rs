//! Texture atlases: sprite records, name lookup and the cutting of a named
//! fragment out of the atlas texture.

use vstd::prelude::*;
use crate::parse::decimal_value;
use crate::parse::decimal_vec_value;
use crate::parse::int_value;
use crate::parse::parse_int;
use crate::parse::parse_rect_vecs;
use crate::parse::parse_thousandths;
use crate::parse::parse_vec;
use crate::parse::parse_vec_thousandths;
use crate::parse::rect_value;
use crate::parse::vec_value;
use crate::raster::Pixels;
use crate::raster::Raster;

verus! {

/// A sprite's record in an atlas.
#[derive(Clone, Copy, Debug, PartialEq, Eq)]
pub struct Sprite {
    /// Whenever the sprite is drawn, it is moved by this much, in thousandths of a pixel.
    pub offset: (i32, i32),
    /// `(left, top)` and `(width, height)` of the region that holds the sprite in the texture.
    pub rect: ((i32, i32), (i32, i32)),
    /// Whether the region holds the sprite turned by a quarter, to be turned back when cut out.
    pub rotated: bool,
    /// The size of the sprite.
    pub size: (i32, i32),
    /// The size of the sprite before it was packed.
    pub source_size: (i32, i32),
}

/// The sprites of an atlas by name. Of two records under one name the later counts.
#[derive(Debug)]
pub struct Spritesheet {
    pub sprites: Vec<(String, Sprite)>,
    pub texture_file_name: String,
    pub size: (i32, i32),
}

/// A spritesheet together with its texture.
#[derive(Debug)]
pub struct LoadedSpritesheet {
    pub spritesheet: Spritesheet,
    pub texture: Raster,
}

/// The animation frames of a character class by the name of the pose.
#[derive(Debug)]
pub struct Animations {
    pub tracks: Vec<(String, Vec<AnimationSprite>)>,
}

/// One placed part of a pose.
#[derive(Debug)]
pub struct AnimationSprite {
    /// The name of the part's texture, written for the first icon of its class.
    pub texture: String,
    /// Where the part goes, in thousandths of a track unit; a track unit is four pixels.
    pub position: (i32, i32),
    /// The part's scale in thousandths.
    pub scale: (i32, i32),
    /// The part's clockwise angle in thousandths of a degree.
    pub rotation: i64,
    /// Whether the part is mirrored left to right, and top to bottom.
    pub flipped: (bool, bool),
    /// The part's place in the stack: lower is drawn earlier.
    pub z: i32,
}

/// The records by name; of two records under one name the later counts.
pub open spec fn sprite_map(entries: Seq<(String, Sprite)>) -> Map<Seq<char>, Sprite>
    decreases entries.len(),
{
    if entries.len() == 0 {
        Map::empty()
    } else {
        sprite_map(entries.drop_last()).insert(entries.last().0@, entries.last().1)
    }
}

/// Records behind place `from` that are not under `key` do not matter to what is under `key`.
pub proof fn lemma_sprite_map_tail(entries: Seq<(String, Sprite)>, key: Seq<char>, from: int)
    requires
        0 <= from <= entries.len(),
        forall|j: int| from <= j < entries.len() ==> (#[trigger] entries[j]).0@ != key,
    ensures
        sprite_map(entries).contains_key(key) == sprite_map(entries.take(from)).contains_key(key),
        sprite_map(entries).contains_key(key) ==> sprite_map(entries)[key] == sprite_map(
            entries.take(from),
        )[key],
    decreases entries.len(),
{
    if from == entries.len() {
        assert(entries.take(from) =~= entries);
    } else {
        lemma_sprite_map_tail(entries.drop_last(), key, from);
        assert(entries.drop_last().take(from) =~= entries.take(from));
    }
}

/// A 32-bit number read as unsigned: a negative one becomes a large one.
pub open spec fn unsigned(value: i32) -> int {
    if value < 0 {
        value + 0x1_0000_0000
    } else {
        value as int
    }
}

/// The fragment that a sprite's record cuts out of a texture: its region,
/// with width and height exchanged if the sprite is stored turned, clipped to
/// the texture, and then turned back by a quarter counter-clockwise.
pub open spec fn fragment(texture: Pixels, sprite: Sprite) -> Pixels {
    let left = unsigned(sprite.rect.0.0);
    let top = unsigned(sprite.rect.0.1);
    if sprite.rotated {
        texture.cropped(left, top, unsigned(sprite.rect.1.1), unsigned(sprite.rect.1.0)).rotated_270()
    } else {
        texture.cropped(left, top, unsigned(sprite.rect.1.0), unsigned(sprite.rect.1.1))
    }
}

impl View for Spritesheet {
    type V = Map<Seq<char>, Sprite>;

    open spec fn view(&self) -> Map<Seq<char>, Sprite> {
        sprite_map(self.sprites@)
    }
}

impl Spritesheet {
    /// The record under `key`, if there is one.
    pub open spec fn lookup(&self, key: Seq<char>) -> Option<Sprite> {
        if self@.contains_key(key) {
            Some(self@[key])
        } else {
            None
        }
    }

    /// Finds a sprite's record by name.
    pub fn get(&self, key: &str) -> (r: Option<Sprite>)
        ensures
            r == self.lookup(key@),
    {
        let wanted = String::from_str(key);
        let mut i: usize = self.sprites.len();
        while i > 0
            invariant
                i <= self.sprites@.len(),
                wanted@ == key@,
                forall|j: int| i <= j < self.sprites@.len() ==> (#[trigger] self.sprites@[j]).0@ != key@,
            decreases i,
        {
            i = i - 1;
            if self.sprites[i].0 == wanted {
                proof {
                    lemma_sprite_map_tail(self.sprites@, key@, i + 1);
                }
                return Some(self.sprites[i].1);
            }
        }
        proof {
            lemma_sprite_map_tail(self.sprites@, key@, 0);
        }
        None
    }

    /// Puts a record under a name, in place of the record that was there.
    pub fn insert(&mut self, name: String, sprite: Sprite)
        ensures
            final(self)@ == old(self)@.insert(name@, sprite),
            final(self).texture_file_name == old(self).texture_file_name,
            final(self).size == old(self).size,
    {
        let ghost before = self.sprites@;
        self.sprites.push((name, sprite));
        assert(self.sprites@.drop_last() =~= before);
    }
}

/// A 32-bit number read as unsigned.
fn to_unsigned(value: i32) -> (r: u32)
    ensures
        r == unsigned(value),
{
    if value < 0 {
        ((value as i64) + 0x1_0000_0000) as u32
    } else {
        value as u32
    }
}

/// Cuts a named sprite out of a texture, and hands it out with its record;
/// nothing if the spritesheet has no such name.
pub fn get_sprite(spritesheet: &Spritesheet, img: &Raster, key: &str) -> (r: Option<(Raster, Sprite)>)
    requires
        img.wf(),
    ensures
        match r {
            Some((image, sprite)) => spritesheet.lookup(key@) == Some(sprite) && image.wf()
                && image@ == fragment(img@, sprite),
            None => spritesheet.lookup(key@).is_none(),
        },
{
    let sprite = match spritesheet.get(key) {
        Some(s) => s,
        None => { return None; },
    };
    let left = to_unsigned(sprite.rect.0.0);
    let top = to_unsigned(sprite.rect.0.1);
    let width = to_unsigned(sprite.rect.1.0);
    let height = to_unsigned(sprite.rect.1.1);
    if sprite.rotated {
        let cut = img.crop(left, top, height, width);
        Some((cut.rotate270(), sprite))
    } else {
        Some((img.crop(left, top, width, height), sprite))
    }
}

/// Cuts a named sprite out of a loaded spritesheet.
pub fn get_sprite_from_loaded(spritesheet: &LoadedSpritesheet, key: &str) -> (r: Option<
    (Raster, Sprite),
>)
    requires
        spritesheet.texture.wf(),
    ensures
        match r {
            Some((image, sprite)) => spritesheet.spritesheet.lookup(key@) == Some(sprite)
                && image.wf() && image@ == fragment(spritesheet.texture@, sprite),
            None => spritesheet.spritesheet.lookup(key@).is_none(),
        },
{
    get_sprite(&spritesheet.spritesheet, &spritesheet.texture, key)
}

/// The entries of a sprite in an atlas description, as far as they were
/// found there with the right kind of value.
#[derive(Clone, Debug)]
pub struct SpriteEntries {
    /// `spriteOffset`, a pair of decimal numbers.
    pub sprite_offset: Option<String>,
    /// `spriteSize`, a pair of whole numbers.
    pub sprite_size: Option<String>,
    /// `spriteSourceSize`, a pair of whole numbers.
    pub sprite_source_size: Option<String>,
    /// `textureRect`, two pairs of whole numbers.
    pub texture_rect: Option<String>,
    /// `textureRotated`.
    pub texture_rotated: Option<bool>,
}

/// The entries of a part of a pose in an animation description, as far as
/// they were found there as texts.
#[derive(Clone, Debug)]
pub struct AnimationEntries {
    /// `texture`.
    pub texture: Option<String>,
    /// `position`, a pair of decimal numbers.
    pub position: Option<String>,
    /// `scale`, a pair of decimal numbers.
    pub scale: Option<String>,
    /// `rotation`, a decimal number.
    pub rotation: Option<String>,
    /// `flipped`, a pair of whole numbers, each above zero for a mirror.
    pub flipped: Option<String>,
    /// `zValue`, a whole number.
    pub z_value: Option<String>,
}

/// The entries of an atlas description.
#[derive(Debug)]
pub struct SheetEntries {
    /// `frames`: the sprites by name.
    pub frames: Option<Vec<(String, SpriteEntries)>>,
    /// `textureFileName` of `metadata`.
    pub texture_file_name: Option<String>,
    /// `size` of `metadata`, a pair of whole numbers.
    pub size: Option<String>,
}

/// A pair of numbers that fit 32 bits.
pub open spec fn pair(p: (int, int)) -> (i32, i32) {
    (p.0 as i32, p.1 as i32)
}

/// The sprite that the entries describe, if all five are there and each
/// spells what it should.
pub open spec fn sprite_of(entries: SpriteEntries) -> Option<Sprite> {
    match (
        entries.sprite_offset,
        entries.sprite_size,
        entries.sprite_source_size,
        entries.texture_rect,
        entries.texture_rotated,
    ) {
        (Some(offset), Some(size), Some(source_size), Some(rect), Some(rotated)) => match (
            decimal_vec_value(offset@),
            vec_value(size@),
            vec_value(source_size@),
            rect_value(rect@),
        ) {
            (Some(o), Some(s), Some(ss), Some(r)) => Some(
                Sprite {
                    offset: pair(o),
                    rect: (pair(r.0), pair(r.1)),
                    rotated,
                    size: pair(s),
                    source_size: pair(ss),
                },
            ),
            _ => None,
        },
        _ => None,
    }
}

/// What the entries of a part spell, if all six are there and each spells
/// what it should: the position, the scale, the angle, the mirrors and `z`.
pub open spec fn frame_values(entries: AnimationEntries) -> Option<
    ((i32, i32), (i32, i32), i64, (bool, bool), i32),
> {
    match (
        entries.texture,
        entries.position,
        entries.scale,
        entries.rotation,
        entries.flipped,
        entries.z_value,
    ) {
        (Some(texture), Some(position), Some(scale), Some(rotation), Some(flipped), Some(z)) => match (
            decimal_vec_value(position@),
            decimal_vec_value(scale@),
            decimal_value(rotation@),
            vec_value(flipped@),
            int_value(z@),
        ) {
            (Some(p), Some(s), Some(r), Some(f), Some(z)) => Some(
                (pair(p), pair(s), r as i64, (f.0 > 0, f.1 > 0), z as i32),
            ),
            _ => None,
        },
        _ => None,
    }
}

/// Whether `frame` is the part that the entries describe.
pub open spec fn is_frame_of(entries: AnimationEntries, frame: AnimationSprite) -> bool {
    &&& entries.texture matches Some(texture) && frame.texture@ == texture@
    &&& frame_values(entries) == Some(
        (frame.position, frame.scale, frame.rotation, frame.flipped, frame.z),
    )
}

impl Sprite {
    /// The sprite that the entries of an atlas description describe; nothing
    /// if an entry is missing or does not spell what it should.
    pub fn initialize(entries: &SpriteEntries) -> (r: Option<Sprite>)
        ensures
            r == sprite_of(*entries),
    {
        let offset = match &entries.sprite_offset {
            Some(text) => parse_vec_thousandths(text.as_str()),
            None => { return None; },
        };
        let size = match &entries.sprite_size {
            Some(text) => parse_vec(text.as_str()),
            None => { return None; },
        };
        let source_size = match &entries.sprite_source_size {
            Some(text) => parse_vec(text.as_str()),
            None => { return None; },
        };
        let rect = match &entries.texture_rect {
            Some(text) => parse_rect_vecs(text.as_str()),
            None => { return None; },
        };
        let rotated = match entries.texture_rotated {
            Some(flag) => flag,
            None => { return None; },
        };
        match (offset, size, source_size, rect) {
            (Some(o), Some(s), Some(ss), Some(r)) => Some(
                Sprite { offset: o, rect: r, rotated, size: s, source_size: ss },
            ),
            _ => None,
        }
    }
}

impl AnimationSprite {
    /// The part that the entries of an animation description describe;
    /// nothing if an entry is missing or does not spell what it should.
    pub fn initialize(entries: &AnimationEntries) -> (r: Option<AnimationSprite>)
        ensures
            match r {
                Some(frame) => is_frame_of(*entries, frame),
                None => frame_values(*entries).is_none(),
            },
    {
        let texture = match &entries.texture {
            Some(text) => text.clone(),
            None => { return None; },
        };
        let position = match &entries.position {
            Some(text) => parse_vec_thousandths(text.as_str()),
            None => { return None; },
        };
        let scale = match &entries.scale {
            Some(text) => parse_vec_thousandths(text.as_str()),
            None => { return None; },
        };
        let rotation = match &entries.rotation {
            Some(text) => parse_thousandths(text.as_str()),
            None => { return None; },
        };
        let flipped = match &entries.flipped {
            Some(text) => parse_vec(text.as_str()),
            None => { return None; },
        };
        let z = match &entries.z_value {
            Some(text) => parse_int(text.as_str()),
            None => { return None; },
        };
        match (position, scale, rotation, flipped, z) {
            (Some(p), Some(s), Some(r), Some(f), Some(z)) => Some(
                AnimationSprite {
                    texture,
                    position: p,
                    scale: s,
                    rotation: r as i64,
                    flipped: (f.0 > 0, f.1 > 0),
                    z,
                },
            ),
            _ => None,
        }
    }
}

/// Whether every sprite of the first `count` frames can be read.
pub open spec fn frames_readable(frames: Seq<(String, SpriteEntries)>, count: int) -> bool {
    forall|i: int| 0 <= i < count && i < frames.len() ==> sprite_of(#[trigger] frames[i].1).is_some()
}

/// Whether `sprites` holds, frame for frame, the frame's name and its sprite.
pub open spec fn is_sprites_of(
    frames: Seq<(String, SpriteEntries)>,
    sprites: Seq<(String, Sprite)>,
) -> bool {
    &&& sprites.len() == frames.len()
    &&& forall|i: int|
        0 <= i < frames.len() ==> (#[trigger] sprites[i]).0@ == frames[i].0@ && Some(sprites[i].1)
            == sprite_of(frames[i].1)
}

/// Whether an atlas description can be read: its three entries are there,
/// every sprite can be read, and the size spells a pair.
pub open spec fn sheet_readable(entries: SheetEntries) -> bool {
    &&& entries.frames matches Some(frames) && frames_readable(frames@, frames@.len() as int)
    &&& entries.texture_file_name.is_some()
    &&& entries.size matches Some(size) && vec_value(size@).is_some()
}

/// Whether `sheet` is the spritesheet that the entries describe.
pub open spec fn is_sheet_of(entries: SheetEntries, sheet: Spritesheet) -> bool {
    &&& entries.frames matches Some(frames) && is_sprites_of(frames@, sheet.sprites@)
    &&& entries.texture_file_name matches Some(name) && sheet.texture_file_name@ == name@
    &&& entries.size matches Some(size) && vec_value(size@) == Some(
        (sheet.size.0 as int, sheet.size.1 as int),
    )
}

impl Spritesheet {
    /// The spritesheet that an atlas description describes; nothing if an
    /// entry is missing or does not spell what it should.
    pub fn initialize(entries: &SheetEntries) -> (r: Option<Spritesheet>)
        ensures
            match r {
                Some(sheet) => sheet_readable(*entries) && is_sheet_of(*entries, sheet),
                None => !sheet_readable(*entries),
            },
    {
        let frames = match &entries.frames {
            Some(f) => f,
            None => { return None; },
        };
        let texture_file_name = match &entries.texture_file_name {
            Some(text) => text.clone(),
            None => { return None; },
        };
        let size = match &entries.size {
            Some(text) => match parse_vec(text.as_str()) {
                Some(pair) => pair,
                None => { return None; },
            },
            None => { return None; },
        };
        let n = frames.len();
        let mut sprites: Vec<(String, Sprite)> = Vec::new();
        let mut i: usize = 0;
        while i < n
            invariant
                n == frames@.len(),
                i <= n,
                entries.frames == Some(*frames),
                frames_readable(frames@, i as int),
                is_sprites_of(frames@.take(i as int), sprites@),
            decreases n - i,
        {
            match Sprite::initialize(&frames[i].1) {
                Some(sprite) => {
                    sprites.push((frames[i].0.clone(), sprite));
                },
                None => {
                    return None;
                },
            }
            i = i + 1;
        }
        Some(Spritesheet { sprites, texture_file_name, size })
    }
}

/// Whether every part of the first `count` parts can be read.
pub open spec fn parts_readable(parts: Seq<AnimationEntries>, count: int) -> bool {
    forall|i: int| 0 <= i < count && i < parts.len() ==> frame_values(#[trigger] parts[i]).is_some()
}

/// Whether `frames` holds, part for part, the part that the entries describe.
pub open spec fn is_frames_of(parts: Seq<AnimationEntries>, frames: Seq<AnimationSprite>) -> bool {
    &&& frames.len() == parts.len()
    &&& forall|i: int| 0 <= i < parts.len() ==> is_frame_of(parts[i], #[trigger] frames[i])
}

/// The parts of a pose that the entries describe; nothing if an entry of a
/// part is missing or does not spell what it should.
pub fn initialize_frames(parts: &Vec<AnimationEntries>) -> (r: Option<Vec<AnimationSprite>>)
    ensures
        match r {
            Some(frames) => parts_readable(parts@, parts@.len() as int) && is_frames_of(
                parts@,
                frames@,
            ),
            None => !parts_readable(parts@, parts@.len() as int),
        },
{
    let n = parts.len();
    let mut frames: Vec<AnimationSprite> = Vec::new();
    let mut i: usize = 0;
    while i < n
        invariant
            n == parts@.len(),
            i <= n,
            parts_readable(parts@, i as int),
            is_frames_of(parts@.take(i as int), frames@),
        decreases n - i,
    {
        match AnimationSprite::initialize(&parts[i]) {
            Some(frame) => {
                frames.push(frame);
            },
            None => {
                return None;
            },
        }
        i = i + 1;
    }
    Some(frames)
}

/// Whether every pose of the first `count` poses can be read.
pub open spec fn poses_readable(poses: Seq<(String, Vec<AnimationEntries>)>, count: int) -> bool {
    forall|i: int|
        0 <= i < count && i < poses.len() ==> parts_readable(
            (#[trigger] poses[i]).1@,
            poses[i].1@.len() as int,
        )
}

/// Whether `tracks` holds, pose for pose, the pose's name and its parts.
pub open spec fn is_tracks_of(
    poses: Seq<(String, Vec<AnimationEntries>)>,
    tracks: Seq<(String, Vec<AnimationSprite>)>,
) -> bool {
    &&& tracks.len() == poses.len()
    &&& forall|i: int|
        0 <= i < poses.len() ==> (#[trigger] tracks[i]).0@ == poses[i].0@ && is_frames_of(
            poses[i].1@,
            tracks[i].1@,
        )
}

impl Animations {
    /// The poses that an animation description describes; nothing if an
    /// entry of a part is missing or does not spell what it should.
    pub fn initialize(poses: &Vec<(String, Vec<AnimationEntries>)>) -> (r: Option<Animations>)
        ensures
            match r {
                Some(animations) => poses_readable(poses@, poses@.len() as int) && is_tracks_of(
                    poses@,
                    animations.tracks@,
                ),
                None => !poses_readable(poses@, poses@.len() as int),
            },
    {
        let n = poses.len();
        let mut tracks: Vec<(String, Vec<AnimationSprite>)> = Vec::new();
        let mut i: usize = 0;
        while i < n
            invariant
                n == poses@.len(),
                i <= n,
                poses_readable(poses@, i as int),
                is_tracks_of(poses@.take(i as int), tracks@),
            decreases n - i,
        {
            match initialize_frames(&poses[i].1) {
                Some(frames) => {
                    tracks.push((poses[i].0.clone(), frames));
                },
                None => {
                    return None;
                },
            }
            i = i + 1;
        }
        assert(poses@.take(n as int) =~= poses@);
        Some(Animations { tracks })
    }
}

} // verus!
