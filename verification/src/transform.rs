//! The transform unit: tint, then scale and mirror, then turn one fragment.
//!
//! Numbers that are not whole are held in thousandths: a scale of `1500` is
//! one and a half, an angle of `90_000` is a quarter turn. A colour channel is
//! held in 255ths, so `255` is full intensity.

use vstd::prelude::*;
use crate::raster::Pixels;
use crate::raster::Raster;
use crate::raster::lemma_from_fn;
use crate::raster::lemma_index;
use crate::raster::lemma_same_pixels;

verus! {

/// A colour, each channel in 255ths of full intensity. Used as a tint it
/// multiplies the matching channel of every pixel.
#[derive(Clone, Copy, Debug, PartialEq, Eq, Structural)]
pub struct Color {
    pub r: u32,
    pub g: u32,
    pub b: u32,
}

/// Why an icon could not be rendered.
#[derive(Clone, Copy, Debug, PartialEq, Eq, Structural)]
pub enum RenderError {
    /// There is no layer to draw, so no base layer.
    NoLayers,
    /// A raster would have more bytes, or a side more pixels, than can be counted.
    TooLarge,
    /// The angle is not a whole number of quarter turns.
    UnsupportedRotation,
    /// The gamemode is not in the table.
    InvalidGamemode,
    /// The animations hold no idle pose.
    NoAnimation,
}

impl Color {
    /// Full intensity on every channel: a tint that changes nothing.
    pub open spec fn white() -> Color {
        Color { r: 255, g: 255, b: 255 }
    }

    /// The factor for channel `c` (0 red, 1 green, 2 blue).
    pub open spec fn factor(self, c: int) -> u32 {
        if c == 0 {
            self.r
        } else if c == 1 {
            self.g
        } else {
            self.b
        }
    }

    /// No intensity on any channel.
    pub open spec fn black(self) -> bool {
        self.r == 0 && self.g == 0 && self.b == 0
    }
}

/// Whether a colour is exactly black.
pub fn is_black(c: Color) -> (r: bool)
    ensures
        r == c.black(),
{
    c.r == 0 && c.g == 0 && c.b == 0
}

/// A channel value multiplied by a factor in 255ths, cut to a whole number
/// and to the channel's range.
pub open spec fn tint_channel(value: u8, factor: u32) -> u8 {
    let scaled = (value as int * factor as int) / 255;
    if scaled > 255 {
        255u8
    } else {
        scaled as u8
    }
}

/// A side of `length` pixels scaled by `factor` thousandths: the magnitude of
/// the factor counts, and the result is rounded to the nearest whole pixel.
pub open spec fn scaled_length(length: int, factor: int) -> int {
    let magnitude = if factor < 0 { -factor } else { factor };
    (2 * length * magnitude + 1000) / 2000
}

/// The number of clockwise quarter turns that an angle in thousandths of a
/// degree amounts to, if it is a whole number of them.
pub open spec fn quarter_turns(angle: int) -> Option<int> {
    if angle % 90_000 == 0 {
        Some((angle / 90_000) % 4)
    } else {
        None
    }
}

impl Pixels {
    /// Every colour channel multiplied by the tint; alpha is left alone.
    pub open spec fn tinted(self, color: Color) -> Pixels {
        Pixels {
            width: self.width,
            height: self.height,
            data: Seq::new(
                self.data.len(),
                |k: int|
                    if k % 4 == 3 {
                        self.data[k]
                    } else {
                        tint_channel(self.data[k], color.factor(k % 4))
                    },
            ),
        }
    }

    /// Tinted if there is a tint.
    pub open spec fn tinted_by(self, color: Option<Color>) -> Pixels {
        match color {
            Some(c) => self.tinted(c),
            None => self,
        }
    }

    /// Mirrored left to right and top to bottom as asked.
    pub open spec fn mirrored(self, horizontal: bool, vertical: bool) -> Pixels {
        let h = if horizontal { self.flipped_h() } else { self };
        if vertical { h.flipped_v() } else { h }
    }

    /// Turned clockwise by a number of quarter turns between 0 and 3.
    pub open spec fn turned(self, quarters: int) -> Pixels {
        if quarters == 1 {
            self.rotated_90()
        } else if quarters == 2 {
            self.rotated_180()
        } else if quarters == 3 {
            self.rotated_270()
        } else {
            self
        }
    }
}

/// The size that a scale gives a raster of the given size.
pub open spec fn scaled_size(width: int, height: int, scale: Option<(i64, i64)>) -> (int, int) {
    match scale {
        Some(s) => (scaled_length(width, s.0 as int), scaled_length(height, s.1 as int)),
        None => (width, height),
    }
}

/// The quarter turns that a rotation asks for; none is no turn.
pub open spec fn turns_of(rotation: Option<i64>) -> Option<int> {
    match rotation {
        Some(a) => quarter_turns(a as int),
        None => Some(0),
    }
}

/// Whether scaling to `size` resamples: the source has pixels and they are
/// to fill another size.
pub open spec fn is_resampled(src: Pixels, size: (int, int)) -> bool {
    src.width > 0 && src.height > 0 && size != (src.width as int, src.height as int)
}

/// The error of a transform, if there is one: an angle off the quarter turns
/// first; then a scaled size with a side or a number of bytes that cannot be
/// counted, or, where the pixels are resampled, with as many rows that are
/// as wide as the source and cannot be counted.
pub open spec fn transform_error(src: Pixels, scale: Option<(i64, i64)>, rotation: Option<i64>) -> Option<
    RenderError,
> {
    let size = scaled_size(src.width as int, src.height as int, scale);
    if turns_of(rotation).is_none() {
        Some(RenderError::UnsupportedRotation)
    } else if size.0 > u32::MAX || size.1 > u32::MAX || size.0 * size.1 * 4 > usize::MAX {
        Some(RenderError::TooLarge)
    } else if is_resampled(src, size) && src.width * size.1 * 4 > usize::MAX {
        Some(RenderError::TooLarge)
    } else {
        None
    }
}

/// What a successful transform returns. The size is that of the scaled
/// raster, turned. Where the scale keeps the size, the pixels are those of
/// the source, tinted, mirrored where a scale is negative, and turned. Where
/// it changes the size the pixels come from resampling, of which nothing is
/// stated.
pub open spec fn is_transformed(
    src: Pixels,
    color: Option<Color>,
    scale: Option<(i64, i64)>,
    rotation: Option<i64>,
    out: Pixels,
) -> bool {
    let size = scaled_size(src.width as int, src.height as int, scale);
    let quarters = turns_of(rotation).unwrap();
    let sideways = quarters == 1 || quarters == 3;
    let mirror_h = scale matches Some(s) && s.0 < 0;
    let mirror_v = scale matches Some(s) && s.1 < 0;
    &&& out.wf()
    &&& out.width == if sideways { size.1 } else { size.0 }
    &&& out.height == if sideways { size.0 } else { size.1 }
    &&& size == (src.width as int, src.height as int) ==> out == src.tinted_by(color).mirrored(
        mirror_h,
        mirror_v,
    ).turned(quarters)
}

/// One channel value tinted.
fn tint_value(value: u8, factor: u32) -> (r: u8)
    ensures
        r == tint_channel(value, factor),
{
    assert(0 <= (value as int) * (factor as int) <= 255 * 0xffff_ffff) by (nonlinear_arith)
        requires
            0 <= value <= 255,
            0 <= factor <= 0xffff_ffff,
    ;
    let scaled: u64 = (value as u64) * (factor as u64) / 255;
    if scaled > 255 {
        255
    } else {
        scaled as u8
    }
}

/// Multiplies the colour channels of every pixel by the tint.
pub fn tint(image: &Raster, color: Color) -> (r: Raster)
    requires
        image.wf(),
    ensures
        r.wf(),
        r@ == image@.tinted(color),
{
    let n = image.data.len();
    let mut data: Vec<u8> = Vec::new();
    let mut k: usize = 0;
    while k < n
        invariant
            n == image.data@.len(),
            k <= n,
            data@.len() == k,
            forall|j: int| 0 <= j < k ==> data@[j] == image@.tinted(color).data[j],
        decreases n - k,
    {
        let c = k % 4;
        let v = image.data[k];
        let t = if c == 3 {
            v
        } else if c == 0 {
            tint_value(v, color.r)
        } else if c == 1 {
            tint_value(v, color.g)
        } else {
            tint_value(v, color.b)
        };
        data.push(t);
        k = k + 1;
    }
    assert(data@ =~= image@.tinted(color).data);
    Raster { width: image.width, height: image.height, data }
}

/// A side scaled, or nothing if the result does not fit a `u32`.
pub fn scale_length(length: u32, factor: i64) -> (r: Option<u32>)
    ensures
        r.is_some() <==> scaled_length(length as int, factor as int) <= u32::MAX,
        r matches Some(n) ==> n == scaled_length(length as int, factor as int),
{
    let magnitude: u128 = if factor < 0 {
        (-(factor as i128)) as u128
    } else {
        factor as u128
    };
    assert(2 * (length as int) * (magnitude as int) + 1000 <= 0x1_0000_0000_0000_0000_0000_0000)
        by (nonlinear_arith)
        requires
            0 <= length <= 0xffff_ffff,
            0 <= magnitude <= 0x8000_0000_0000_0000,
    ;
    assert(0 <= 2 * (length as int) * (magnitude as int)) by (nonlinear_arith)
        requires
            0 <= length,
            0 <= magnitude,
    ;
    assert(0 <= 2 * (length as int)) by (nonlinear_arith)
        requires
            0 <= length,
    ;
    let scaled: u128 = (2 * (length as u128) * magnitude + 1000) / 2000;
    if scaled > u32::MAX as u128 {
        None
    } else {
        Some(scaled as u32)
    }
}

/// Resamples a raster to a new size with the image crate's
/// `DynamicImage::resize_exact` and its Lanczos filter of window 3. Claimed:
/// the result has the size asked for. Of its pixels nothing is claimed. The
/// crate resamples the rows first, into a buffer as wide as the source and
/// as high as the result, which has to be countable too.
#[verifier::external_body]
fn resample(image: &Raster, width: u32, height: u32) -> (r: Raster)
    requires
        image.wf(),
        image.width > 0,
        image.height > 0,
        width as int * height as int * 4 <= usize::MAX,
        image.width as int * height as int * 4 <= usize::MAX,
    ensures
        r.wf(),
        r.width == width,
        r.height == height,
{
    let source = image::RgbaImage::from_raw(image.width, image.height, image.data.clone()).unwrap();
    let resized = image::DynamicImage::ImageRgba8(source).resize_exact(
        width,
        height,
        image::imageops::FilterType::Lanczos3,
    ).into_rgba8();
    Raster { width: resized.width(), height: resized.height(), data: resized.into_raw() }
}

/// Two wellformed rasters of one size without pixels are the same.
proof fn lemma_empty_same(a: Pixels, b: Pixels)
    requires
        a.wf(),
        b.wf(),
        a.width == b.width,
        a.height == b.height,
        a.width == 0 || a.height == 0,
    ensures
        a == b,
{
    assert(a.width * a.height * 4 == 0) by (nonlinear_arith)
        requires
            a.width == 0 || a.height == 0,
    ;
    assert(a.data =~= b.data);
}

/// Scales a raster and mirrors it where a factor is negative.
pub fn scale_image(image: &Raster, scale: (i64, i64)) -> (r: Result<Raster, RenderError>)
    requires
        image.wf(),
    ensures
        match r {
            Ok(out) => transform_error(image@, Some(scale), None).is_none() && is_transformed(
                image@,
                None,
                Some(scale),
                None,
                out@,
            ),
            Err(e) => transform_error(image@, Some(scale), None) == Some(e),
        },
{
    let width = match scale_length(image.width, scale.0) {
        Some(w) => w,
        None => { return Err(RenderError::TooLarge); },
    };
    let height = match scale_length(image.height, scale.1) {
        Some(h) => h,
        None => { return Err(RenderError::TooLarge); },
    };
    assert(0 <= width as int * height as int <= 0x1_0000_0000_0000_0000) by (nonlinear_arith)
        requires
            0 <= width <= 0xffff_ffff,
            0 <= height <= 0xffff_ffff,
    ;
    let bytes: u128 = (width as u128) * (height as u128) * 4;
    if bytes > usize::MAX as u128 {
        return Err(RenderError::TooLarge);
    }
    let sized = if image.width == 0 || image.height == 0 {
        assert(width == 0 || height == 0) by {
            let m0 = if scale.0 < 0 { -(scale.0 as int) } else { scale.0 as int };
            let m1 = if scale.1 < 0 { -(scale.1 as int) } else { scale.1 as int };
            assert(2 * 0 * m0 == 0 && 2 * 0 * m1 == 0) by (nonlinear_arith);
        }
        let blank = Raster::new(width, height).unwrap();
        proof {
            if width == image.width && height == image.height {
                lemma_empty_same(blank@, image@);
            }
        }
        blank
    } else if width == image.width && height == image.height {
        image.duplicate()
    } else {
        assert(0 <= image.width as int * height as int <= 0x1_0000_0000_0000_0000)
            by (nonlinear_arith)
            requires
                0 <= image.width <= 0xffff_ffff,
                0 <= height <= 0xffff_ffff,
        ;
        let between: u128 = (image.width as u128) * (height as u128) * 4;
        if between > usize::MAX as u128 {
            return Err(RenderError::TooLarge);
        }
        resample(image, width, height)
    };
    let mirrored_h = if scale.0 < 0 { sized.fliph() } else { sized };
    let mirrored = if scale.1 < 0 { mirrored_h.flipv() } else { mirrored_h };
    Ok(mirrored)
}

/// The clockwise quarter turns of an angle in thousandths of a degree, or
/// nothing if the angle is not a whole number of them.
pub fn quarter_turns_of(angle: i64) -> (r: Option<u8>)
    ensures
        r.is_some() <==> quarter_turns(angle as int).is_some(),
        r matches Some(q) ==> quarter_turns(angle as int) == Some(q as int),
{
    // 140_737_488_355_328 quarter turns are whole turns, and more than any angle is negative.
    let shifted: u128 = ((angle as i128) + 12_666_373_951_979_520_000) as u128;
    let quarters: u128 = shifted / 90_000;
    proof {
        let a = angle as int;
        let n = 140_737_488_355_328int;
        assert(shifted as int == (a / 90_000 + n) * 90_000 + a % 90_000) by (nonlinear_arith)
            requires
                shifted as int == a + 12_666_373_951_979_520_000,
                a == 90_000 * (a / 90_000) + a % 90_000,
                n == 140_737_488_355_328,
        ;
        let q = a / 90_000;
        assert(q + n == (q / 4 + 35_184_372_088_832) * 4 + q % 4) by (nonlinear_arith)
            requires
                q == 4 * (q / 4) + q % 4,
                n == 140_737_488_355_328,
        ;
    }
    if shifted % 90_000 != 0 {
        None
    } else {
        Some((quarters % 4) as u8)
    }
}

/// Turns a raster clockwise by a number of quarter turns.
pub fn turn(image: Raster, quarters: u8) -> (r: Raster)
    requires
        image.wf(),
        quarters < 4,
    ensures
        r.wf(),
        r@ == image@.turned(quarters as int),
{
    if quarters == 1 {
        image.rotate90()
    } else if quarters == 2 {
        image.rotate180()
    } else if quarters == 3 {
        image.rotate270()
    } else {
        image
    }
}

/// What `transform` returns: the error that the inputs call for, or else a
/// raster that is their transform.
pub open spec fn transform_post(
    src: Pixels,
    color: Option<Color>,
    scale: Option<(i64, i64)>,
    rotation: Option<i64>,
    r: Result<Raster, RenderError>,
) -> bool {
    match r {
        Ok(out) => transform_error(src, scale, rotation).is_none() && is_transformed(
            src,
            color,
            scale,
            rotation,
            out@,
        ),
        Err(e) => transform_error(src, scale, rotation) == Some(e),
    }
}

/// Applies a tint, then a scale with its mirrors, then a rotation to an image
/// fragment; each of the three may be absent. A scale of exactly one and a
/// rotation of exactly zero are skipped. Angles that are no whole number of
/// quarter turns are refused.
pub fn transform(
    image: &Raster,
    color: Option<Color>,
    scale: Option<(i64, i64)>,
    rotation: Option<i64>,
) -> (r: Result<Raster, RenderError>)
    requires
        image.wf(),
    ensures
        transform_post(image@, color, scale, rotation, r),
{
    let quarters: u8 = match rotation {
        None => 0,
        Some(angle) => match quarter_turns_of(angle) {
            Some(q) => q,
            None => { return Err(RenderError::UnsupportedRotation); },
        },
    };
    let tinted = match color {
        Some(c) => tint(image, c),
        None => image.duplicate(),
    };
    let n = image.data.len();
    let scaled = match scale {
        None => tinted,
        Some(s) => {
            if s.0 == 1000 && s.1 == 1000 {
                assert(scaled_length(image.width as int, 1000) == image.width
                    && scaled_length(image.height as int, 1000) == image.height)
                    by (nonlinear_arith);
                tinted
            } else {
                match scale_image(&tinted, s) {
                    Ok(img) => img,
                    Err(e) => { return Err(e); },
                }
            }
        },
    };
    proof {
        assert(scaled@.width * scaled@.height == scaled@.height * scaled@.width)
            by (nonlinear_arith);
    }
    Ok(turn(scaled, quarters))
}

/// A transform with no tint, no scale and no rotation succeeds and returns
/// the fragment pixel for pixel.
pub proof fn lemma_transform_nothing(image: Raster, r: Result<Raster, RenderError>)
    requires
        image.wf(),
        transform_post(image@, None, None, None, r),
    ensures
        r.is_ok(),
        r.unwrap()@ == image@,
{
    assert(image.data.len() == image.data@.len());
}

/// A tint of full intensity on every channel changes no pixel.
pub proof fn lemma_tint_white(p: Pixels)
    ensures
        p.tinted(Color::white()) == p,
{
    assert forall|k: int| 0 <= k < p.data.len() implies p.tinted(Color::white()).data[k]
        == p.data[k] by {
        let v = p.data[k];
    }
    assert(p.tinted(Color::white()).data =~= p.data);
}

/// A black tint zeroes red, green and blue of every pixel and keeps its alpha.
pub proof fn lemma_tint_black(p: Pixels, color: Color, x: int, y: int)
    requires
        p.wf(),
        p.contains(x, y),
        color.black(),
    ensures
        p.tinted(color).at(x, y, 0) == 0,
        p.tinted(color).at(x, y, 1) == 0,
        p.tinted(color).at(x, y, 2) == 0,
        p.tinted(color).at(x, y, 3) == p.at(x, y, 3),
{
    lemma_index(p.width as int, p.height as int, x, y, 1);
}

/// A rotation of zero asks for nothing: the result has the size that
/// the scale alone gives, and is what the transform without a rotation is.
pub proof fn lemma_zero_rotation(
    image: Raster,
    color: Option<Color>,
    scale: Option<(i64, i64)>,
    r: Result<Raster, RenderError>,
)
    requires
        image.wf(),
        transform_post(image@, color, scale, Some(0i64), r),
    ensures
        transform_post(image@, color, scale, None, r),
        r matches Ok(out) ==> (out@.width as int, out@.height as int) == scaled_size(
            image@.width as int,
            image@.height as int,
            scale,
        ),
{
}

/// A rotation by a full turn is no rotation.
pub proof fn lemma_full_turn(
    image: Raster,
    color: Option<Color>,
    scale: Option<(i64, i64)>,
    r: Result<Raster, RenderError>,
)
    requires
        image.wf(),
        transform_post(image@, color, scale, Some(360_000i64), r),
    ensures
        transform_post(image@, color, scale, None, r),
{
}

/// Two half turns bring every pixel back.
pub proof fn lemma_half_turn_twice(p: Pixels)
    requires
        p.wf(),
    ensures
        p.turned(2).turned(2) == p,
{
    let once = p.rotated_180();
    let twice = once.rotated_180();
    assert forall|x: int, y: int, c: int|
        0 <= x < p.width && 0 <= y < p.height && 0 <= c < 4 implies twice.at(x, y, c) == p.at(
        x,
        y,
        c,
    ) by {
        lemma_from_fn(
            once.width,
            once.height,
            |x: int, y: int, c: int| once.at(once.width - 1 - x, once.height - 1 - y, c),
            x,
            y,
            c,
        );
        lemma_from_fn(
            p.width,
            p.height,
            |x: int, y: int, c: int| p.at(p.width - 1 - x, p.height - 1 - y, c),
            p.width - 1 - x,
            p.height - 1 - y,
            c,
        );
    }
    lemma_same_pixels(twice, p);
}

/// A quarter turn clockwise and one counter-clockwise undo each other.
pub proof fn lemma_quarter_turn_back(p: Pixels)
    requires
        p.wf(),
    ensures
        p.turned(1).turned(3) == p,
{
    let once = p.rotated_90();
    let back = once.rotated_270();
    assert forall|x: int, y: int, c: int|
        0 <= x < p.width && 0 <= y < p.height && 0 <= c < 4 implies back.at(x, y, c) == p.at(
        x,
        y,
        c,
    ) by {
        lemma_from_fn(
            once.height,
            once.width,
            |x: int, y: int, c: int| once.at(once.width - 1 - y, x, c),
            x,
            y,
            c,
        );
        lemma_from_fn(
            p.height,
            p.width,
            |x: int, y: int, c: int| p.at(y, p.height - 1 - x, c),
            p.height - 1 - y,
            x,
            c,
        );
    }
    lemma_same_pixels(back, p);
}

/// Two quarter turns are a half turn.
pub proof fn lemma_two_quarter_turns(p: Pixels)
    requires
        p.wf(),
    ensures
        p.turned(1).turned(1) == p.turned(2),
{
    let once = p.rotated_90();
    let twice = once.rotated_90();
    let half = p.rotated_180();
    assert forall|x: int, y: int, c: int|
        0 <= x < half.width && 0 <= y < half.height && 0 <= c < 4 implies twice.at(x, y, c)
        == half.at(x, y, c) by {
        lemma_from_fn(
            once.height,
            once.width,
            |x: int, y: int, c: int| once.at(y, once.height - 1 - x, c),
            x,
            y,
            c,
        );
        lemma_from_fn(
            p.height,
            p.width,
            |x: int, y: int, c: int| p.at(y, p.height - 1 - x, c),
            y,
            once.height - 1 - x,
            c,
        );
        lemma_from_fn(
            p.width,
            p.height,
            |x: int, y: int, c: int| p.at(p.width - 1 - x, p.height - 1 - y, c),
            x,
            y,
            c,
        );
    }
    lemma_same_pixels(twice, half);
}

/// Four quarter turns bring every pixel back.
pub proof fn lemma_four_quarter_turns(p: Pixels)
    requires
        p.wf(),
    ensures
        p.turned(1).turned(1).turned(1).turned(1) == p,
{
    lemma_two_quarter_turns(p);
    lemma_two_quarter_turns(p.turned(2));
    lemma_half_turn_twice(p);
}

} // verus!
