//! The compositor: lays transformed fragments out on a canvas that is just
//! large enough, copies the base layer and blends the others over it in
//! order. Positions are in thousandths of a pixel, measured from the centre
//! of the canvas to the centre of the fragment.

use vstd::prelude::*;
use crate::raster::Pixels;
use crate::raster::Raster;
use crate::raster::lemma_from_fn;
use crate::raster::lemma_same_pixels;
use crate::transform::Color;
use crate::transform::RenderError;
use crate::transform::transform;
use crate::transform::transform_error;
use crate::transform::is_transformed;

verus! {

/// One compositing step: a fragment with all that is to be done to it.
#[derive(Debug)]
pub struct Layer {
    /// The fragment as it was cut from the atlas.
    pub image: Raster,
    /// Where the fragment's centre goes, from the canvas centre, in thousandths of a pixel.
    pub position: (i64, i64),
    /// The tint, if the fragment is tinted.
    pub color: Option<Color>,
    /// The scale in thousandths, negative to mirror, if the fragment is scaled.
    pub scale: Option<(i64, i64)>,
    /// The clockwise angle in thousandths of a degree, if the fragment is turned.
    pub rotation: Option<i64>,
    /// Whether the layer is drawn before those that are not forced to the front.
    pub force_front: bool,
}

/// A fragment that is ready to be drawn, and where.
#[derive(Debug)]
pub struct Placed {
    pub image: Raster,
    pub position: (i64, i64),
}

/// A layer with its fragment taken by its pixels.
pub struct LayerView {
    pub image: Pixels,
    pub position: (i64, i64),
    pub color: Option<Color>,
    pub scale: Option<(i64, i64)>,
    pub rotation: Option<i64>,
    pub force_front: bool,
}

/// A placed fragment taken by its pixels.
pub struct PlacedView {
    pub image: Pixels,
    pub position: (i64, i64),
}

impl View for Layer {
    type V = LayerView;

    open spec fn view(&self) -> LayerView {
        LayerView {
            image: self.image@,
            position: self.position,
            color: self.color,
            scale: self.scale,
            rotation: self.rotation,
            force_front: self.force_front,
        }
    }
}

impl View for Placed {
    type V = PlacedView;

    open spec fn view(&self) -> PlacedView {
        PlacedView { image: self.image@, position: self.position }
    }
}

/// The layers of a list, each taken by its pixels.
pub open spec fn layer_views(layers: Seq<Layer>) -> Seq<LayerView> {
    layers.map_values(|l: Layer| l@)
}

/// The placed fragments of a list, each taken by its pixels.
pub open spec fn placed_views(placed: Seq<Placed>) -> Seq<PlacedView> {
    placed.map_values(|p: Placed| p@)
}

/// The pixel that the image crate's `Pixel::blend` leaves for a background
/// pixel and a foreground pixel that is neither transparent nor opaque, as
/// its four channels.
pub uninterp spec fn blended(background: Seq<u8>, foreground: Seq<u8>) -> Seq<u8>;

/// A foreground pixel over a background pixel: a transparent one leaves the
/// background, an opaque one replaces it, any other is blended with it.
pub open spec fn composited(background: Seq<u8>, foreground: Seq<u8>) -> Seq<u8> {
    if foreground[3] == 0 {
        background
    } else if foreground[3] == 255 {
        foreground
    } else {
        blended(background, foreground)
    }
}

impl Pixels {
    /// `top` blended over `self` with its top left corner at `(x0, y0)`; what
    /// of `top` falls outside is left out.
    pub open spec fn overlaid(self, top: Pixels, x0: int, y0: int) -> Pixels {
        Pixels::from_fn(
            self.width,
            self.height,
            |x: int, y: int, c: int|
                if top.contains(x - x0, y - y0) {
                    composited(self.pixel(x, y), top.pixel(x - x0, y - y0))[c]
                } else {
                    self.at(x, y, c)
                },
        )
    }
}

/// The room that a layer needs along one axis: its size and twice its
/// distance from the centre, cut to whole pixels.
pub open spec fn extent(size: int, position: int) -> int {
    let distance = if position < 0 { -position } else { position };
    size + (2 * distance) / 1000
}

/// The width of the canvas: the largest room that any layer needs across.
pub open spec fn canvas_width(layers: Seq<PlacedView>) -> int
    decreases layers.len(),
{
    if layers.len() == 0 {
        0
    } else {
        let rest = canvas_width(layers.drop_last());
        let own = extent(layers.last().image.width as int, layers.last().position.0 as int);
        if own > rest { own } else { rest }
    }
}

/// The height of the canvas: the largest room that any layer needs down.
pub open spec fn canvas_height(layers: Seq<PlacedView>) -> int
    decreases layers.len(),
{
    if layers.len() == 0 {
        0
    } else {
        let rest = canvas_height(layers.drop_last());
        let own = extent(layers.last().image.height as int, layers.last().position.1 as int);
        if own > rest { own } else { rest }
    }
}

/// The coordinate of a layer's first pixel along one axis: half the canvas,
/// plus the position, less half the layer, cut to a whole pixel toward zero.
pub open spec fn anchor(canvas: int, size: int, position: int) -> int {
    let t = 500 * canvas + position - 500 * size;
    if t >= 0 {
        t / 1000
    } else {
        -((-t) / 1000)
    }
}

/// The canvas after the first `count` layers: the base layer copied onto a
/// transparent canvas, each later layer blended over what was there.
pub open spec fn stacked(layers: Seq<PlacedView>, count: int) -> Pixels
    decreases count,
{
    let width = canvas_width(layers);
    let height = canvas_height(layers);
    if count <= 0 {
        Pixels::blank(width as nat, height as nat)
    } else {
        let layer = layers[count - 1];
        let x = anchor(width, layer.image.width as int, layer.position.0 as int);
        let y = anchor(height, layer.image.height as int, layer.position.1 as int);
        if count == 1 {
            stacked(layers, 0).pasted(layer.image, x, y)
        } else {
            stacked(layers, count - 1).overlaid(layer.image, x, y)
        }
    }
}

/// The composite of all the layers.
pub open spec fn composed(layers: Seq<PlacedView>) -> Pixels {
    stacked(layers, layers.len() as int)
}

/// Why the layers cannot be composed, if they cannot.
pub open spec fn compose_error(layers: Seq<PlacedView>) -> Option<RenderError> {
    let width = canvas_width(layers);
    let height = canvas_height(layers);
    if layers.len() == 0 {
        Some(RenderError::NoLayers)
    } else if width > u32::MAX || height > u32::MAX || width * height * 4 > usize::MAX {
        Some(RenderError::TooLarge)
    } else {
        None
    }
}

/// What `compose` returns.
pub open spec fn compose_post(layers: Seq<PlacedView>, r: Result<Raster, RenderError>) -> bool {
    match r {
        Ok(out) => compose_error(layers).is_none() && out.wf() && out@ == composed(layers),
        Err(e) => compose_error(layers) == Some(e),
    }
}

/// Blends `top` over `bottom` with the image crate's `imageops::overlay`.
/// Claimed: the size stays; every pixel that does not lie under a pixel of
/// `top` stays; one that does stays if the pixel over it is transparent,
/// becomes that pixel if it is opaque, and is blended with it otherwise.
#[verifier::external_body]
fn overlay_pixels(bottom: Raster, top: &Raster, x0: i64, y0: i64) -> (r: Raster)
    requires
        bottom.wf(),
        top.wf(),
    ensures
        r.wf(),
        r.width == bottom.width,
        r.height == bottom.height,
        forall|x: int, y: int, c: int|
            0 <= x < bottom.width && 0 <= y < bottom.height && 0 <= c < 4 ==> #[trigger] r@.at(
                x,
                y,
                c,
            ) == if !top@.contains(x - x0, y - y0) {
                bottom@.at(x, y, c)
            } else if top@.at(x - x0, y - y0, 3) == 0 {
                bottom@.at(x, y, c)
            } else if top@.at(x - x0, y - y0, 3) == 255 {
                top@.at(x - x0, y - y0, c)
            } else {
                blended(bottom@.pixel(x, y), top@.pixel(x - x0, y - y0))[c]
            },
{
    let mut canvas = image::RgbaImage::from_raw(bottom.width, bottom.height, bottom.data).unwrap();
    let layer = image::ImageBuffer::<image::Rgba<u8>, &[u8]>::from_raw(
        top.width,
        top.height,
        top.data.as_slice(),
    ).unwrap();
    image::imageops::overlay(&mut canvas, &layer, x0, y0);
    Raster { width: canvas.width(), height: canvas.height(), data: canvas.into_raw() }
}

/// Blends `top` over `bottom` with the top left corner of `top` at `(x, y)`.
pub fn overlay(bottom: Raster, top: &Raster, x: i64, y: i64) -> (r: Raster)
    requires
        bottom.wf(),
        top.wf(),
    ensures
        r.wf(),
        r@ == bottom@.overlaid(top@, x as int, y as int),
{
    let ghost want = bottom@.overlaid(top@, x as int, y as int);
    let ghost before = bottom@;
    let r = overlay_pixels(bottom, top, x, y);
    proof {
        assert forall|px: int, py: int, c: int|
            0 <= px < want.width && 0 <= py < want.height && 0 <= c < 4 implies r@.at(px, py, c)
            == want.at(px, py, c) by {
            lemma_from_fn(
                before.width,
                before.height,
                |px: int, py: int, c: int|
                    if top@.contains(px - x, py - y) {
                        composited(before.pixel(px, py), top@.pixel(px - x, py - y))[c]
                    } else {
                        before.at(px, py, c)
                    },
                px,
                py,
                c,
            );
        }
        lemma_same_pixels(r@, want);
    }
    r
}

/// The room that a layer needs along one axis.
fn extent_of(size: u32, position: i64) -> (r: u128)
    ensures
        r == extent(size as int, position as int),
{
    let distance: u128 = if position < 0 {
        (-(position as i128)) as u128
    } else {
        position as u128
    };
    (size as u128) + (2 * distance) / 1000
}

/// The coordinate of a layer's first pixel along one axis.
fn anchor_of(canvas: u32, size: u32, position: i64) -> (r: i64)
    ensures
        r == anchor(canvas as int, size as int, position as int),
{
    let t: i128 = 500 * (canvas as i128) + (position as i128) - 500 * (size as i128);
    if t >= 0 {
        ((t as u128) / 1000) as i64
    } else {
        let below: u128 = ((-t) as u128) / 1000;
        -(below as i64)
    }
}

/// The canvas is at least as wide and as high as any layer needs.
pub proof fn lemma_canvas_covers(layers: Seq<PlacedView>, i: int)
    requires
        0 <= i < layers.len(),
    ensures
        canvas_width(layers) >= extent(layers[i].image.width as int, layers[i].position.0 as int),
        canvas_height(layers) >= extent(layers[i].image.height as int, layers[i].position.1 as int),
    decreases layers.len(),
{
    if i < layers.len() - 1 {
        lemma_canvas_covers(layers.drop_last(), i);
    }
}

/// A layer that has its room on the canvas starts inside it, and ends inside it.
pub proof fn lemma_anchor_inside(canvas: int, size: int, position: int)
    requires
        0 <= size,
        canvas >= extent(size, position),
    ensures
        0 <= anchor(canvas, size, position),
        anchor(canvas, size, position) + size <= canvas,
{
}

/// Composes fragments that are already transformed: the first is copied onto
/// a transparent canvas sized for all of them, the others are blended over it
/// in order.
pub fn compose(layers: &Vec<Placed>) -> (r: Result<Raster, RenderError>)
    requires
        forall|i: int| 0 <= i < layers@.len() ==> (#[trigger] layers@[i]).image.wf(),
    ensures
        compose_post(placed_views(layers@), r),
{
    let ghost views = placed_views(layers@);
    let n = layers.len();
    if n == 0 {
        return Err(RenderError::NoLayers);
    }
    let mut width: u128 = 0;
    let mut height: u128 = 0;
    let mut i: usize = 0;
    while i < n
        invariant
            n == layers@.len(),
            views == placed_views(layers@),
            i <= n,
            width == canvas_width(views.take(i as int)),
            height == canvas_height(views.take(i as int)),
        decreases n - i,
    {
        let own_width = extent_of(layers[i].image.width, layers[i].position.0);
        let own_height = extent_of(layers[i].image.height, layers[i].position.1);
        proof {
            let now = views.take(i + 1);
            assert(now.drop_last() =~= views.take(i as int));
        }
        if own_width > width {
            width = own_width;
        }
        if own_height > height {
            height = own_height;
        }
        i = i + 1;
    }
    assert(views.take(n as int) =~= views);
    if width > u32::MAX as u128 || height > u32::MAX as u128 {
        return Err(RenderError::TooLarge);
    }
    let canvas_w = width as u32;
    let canvas_h = height as u32;
    let blank = match Raster::new(canvas_w, canvas_h) {
        Some(b) => b,
        None => { return Err(RenderError::TooLarge); },
    };
    proof {
        lemma_canvas_covers(views, 0);
    }
    let x0 = anchor_of(canvas_w, layers[0].image.width, layers[0].position.0);
    let y0 = anchor_of(canvas_h, layers[0].image.height, layers[0].position.1);
    let mut canvas = blank.paste(&layers[0].image, x0 as u32, y0 as u32);
    assert(stacked(views, 0) == blank@);
    let mut k: usize = 1;
    while k < n
        invariant
            n == layers@.len(),
            views == placed_views(layers@),
            1 <= k <= n,
            canvas.wf(),
            canvas_w == canvas_width(views),
            canvas_h == canvas_height(views),
            canvas@ == stacked(views, k as int),
            forall|i: int| 0 <= i < layers@.len() ==> (#[trigger] layers@[i]).image.wf(),
        decreases n - k,
    {
        let x = anchor_of(canvas_w, layers[k].image.width, layers[k].position.0);
        let y = anchor_of(canvas_h, layers[k].image.height, layers[k].position.1);
        canvas = overlay(canvas, &layers[k].image, x, y);
        k = k + 1;
    }
    Ok(canvas)
}

/// The first error among the layers' transforms, in the order of the layers.
pub open spec fn first_transform_error(layers: Seq<LayerView>) -> Option<RenderError>
    decreases layers.len(),
{
    if layers.len() == 0 {
        None
    } else {
        match first_transform_error(layers.drop_last()) {
            Some(e) => Some(e),
            None => transform_error(layers.last().image, layers.last().scale, layers.last().rotation),
        }
    }
}

/// Whether `placed` holds, layer for layer, a transform of the layer at the
/// layer's position.
pub open spec fn is_placement(layers: Seq<LayerView>, placed: Seq<PlacedView>) -> bool {
    &&& placed.len() == layers.len()
    &&& forall|i: int|
        0 <= i < layers.len() ==> {
            &&& (#[trigger] placed[i]).position == layers[i].position
            &&& is_transformed(
                layers[i].image,
                layers[i].color,
                layers[i].scale,
                layers[i].rotation,
                placed[i].image,
            )
        }
}

/// What `render_layered` returns: with no layer, the error for that; with a
/// layer whose transform fails, the first such error; otherwise the
/// composite of the transformed layers, or the error of composing them.
pub open spec fn layered_post(layers: Seq<LayerView>, r: Result<Raster, RenderError>) -> bool {
    if layers.len() == 0 {
        r == Err::<Raster, RenderError>(RenderError::NoLayers)
    } else if first_transform_error(layers).is_some() {
        r is Err && r->Err_0 == first_transform_error(layers).unwrap()
    } else {
        exists|placed: Seq<PlacedView>| is_placement(layers, placed) && compose_post(placed, r)
    }
}

/// Every fragment of the list holds exactly the pixels that its size announces.
pub open spec fn layers_wf(layers: Seq<Layer>) -> bool {
    forall|i: int| 0 <= i < layers.len() ==> (#[trigger] layers[i]).image.wf()
}

/// Transforms every layer and composes the results. Layer 0 is the base.
pub fn render_layered(layers: &Vec<Layer>) -> (r: Result<Raster, RenderError>)
    requires
        layers_wf(layers@),
    ensures
        layered_post(layer_views(layers@), r),
{
    let ghost views = layer_views(layers@);
    let n = layers.len();
    if n == 0 {
        return Err(RenderError::NoLayers);
    }
    let mut placed: Vec<Placed> = Vec::new();
    let mut i: usize = 0;
    while i < n
        invariant
            n == layers@.len(),
            views == layer_views(layers@),
            i <= n,
            layers_wf(layers@),
            forall|j: int| 0 <= j < placed@.len() ==> (#[trigger] placed@[j]).image.wf(),
            first_transform_error(views.take(i as int)).is_none(),
            is_placement(views.take(i as int), placed_views(placed@)),
        decreases n - i,
    {
        let layer = &layers[i];
        let outcome = transform(&layer.image, layer.color, layer.scale, layer.rotation);
        proof {
            let now = views.take(i + 1);
            assert(now.drop_last() =~= views.take(i as int));
        }
        match outcome {
            Ok(image) => {
                let ghost before = placed_views(placed@);
                let piece = Placed { image, position: layer.position };
                placed.push(piece);
                proof {
                    let after = placed_views(placed@);
                    assert forall|j: int| 0 <= j < i + 1 implies {
                        &&& (#[trigger] after[j]).position == views.take(i + 1)[j].position
                        &&& is_transformed(
                            views.take(i + 1)[j].image,
                            views.take(i + 1)[j].color,
                            views.take(i + 1)[j].scale,
                            views.take(i + 1)[j].rotation,
                            after[j].image,
                        )
                    } by {
                        if j < i {
                            assert(after[j] == before[j]);
                        }
                    }
                }
            },
            Err(e) => {
                proof {
                    lemma_first_error_stays(views, i + 1);
                }
                return Err(e);
            },
        }
        i = i + 1;
    }
    assert(views.take(n as int) =~= views);
    compose(&placed)
}

/// An error among the first layers is the error of all the layers.
pub proof fn lemma_first_error_stays(layers: Seq<LayerView>, count: int)
    requires
        0 <= count <= layers.len(),
        first_transform_error(layers.take(count)).is_some(),
    ensures
        first_transform_error(layers) == first_transform_error(layers.take(count)),
    decreases layers.len() - count,
{
    if count < layers.len() {
        assert(layers.take(count + 1).drop_last() =~= layers.take(count));
        lemma_first_error_stays(layers, count + 1);
    } else {
        assert(layers.take(count) =~= layers);
    }
}

/// A single layer at the centre, with nothing done to it, composes to itself.
pub proof fn lemma_single_layer(layer: Placed)
    requires
        layer.image.wf(),
        layer.position == (0i64, 0i64),
    ensures
        compose_error(seq![layer@]).is_none(),
        composed(seq![layer@]) == layer.image@,
{
    let layers = seq![layer@];
    let image = layer.image@;
    assert(canvas_width(layers.drop_last()) == 0);
    assert(canvas_height(layers.drop_last()) == 0);
    assert(layer.image.data.len() == layer.image.data@.len());
    let blank = Pixels::blank(image.width, image.height);
    assert(stacked(layers, 0) == blank);
    let out = blank.pasted(image, 0, 0);
    assert forall|x: int, y: int, c: int|
        0 <= x < image.width && 0 <= y < image.height && 0 <= c < 4 implies out.at(x, y, c)
        == image.at(x, y, c) by {
        lemma_from_fn(
            blank.width,
            blank.height,
            |x: int, y: int, c: int|
                if image.contains(x - 0, y - 0) {
                    image.at(x - 0, y - 0, c)
                } else {
                    blank.at(x, y, c)
                },
            x,
            y,
            c,
        );
    }
    lemma_same_pixels(out, image);
}

/// One untouched layer at the centre renders to itself: the canvas has the
/// layer's size and its pixels.
pub proof fn lemma_render_single(layer: Layer, r: Result<Raster, RenderError>)
    requires
        layer.image.wf(),
        layer.position == (0i64, 0i64),
        layer.color.is_none(),
        layer.scale.is_none(),
        layer.rotation.is_none(),
        layered_post(seq![layer@], r),
    ensures
        r.is_ok(),
        r.unwrap()@ == layer.image@,
{
    let layers = seq![layer@];
    assert(layer.image.data.len() == layer.image.data@.len());
    assert(first_transform_error(layers.drop_last()).is_none());
    let placed = choose|placed: Seq<PlacedView>| is_placement(layers, placed) && compose_post(placed, r);
    let piece = Placed { image: layer.image, position: layer.position };
    assert(placed =~= seq![piece@]);
    lemma_single_layer(piece);
}

/// A layer without a visible pixel leaves the canvas as it was.
pub proof fn lemma_overlay_transparent(bottom: Pixels, top: Pixels, x0: int, y0: int)
    requires
        bottom.wf(),
        forall|x: int, y: int| top.contains(x, y) ==> top.at(x, y, 3) == 0,
    ensures
        bottom.overlaid(top, x0, y0) == bottom,
{
    let out = bottom.overlaid(top, x0, y0);
    assert forall|x: int, y: int, c: int|
        0 <= x < bottom.width && 0 <= y < bottom.height && 0 <= c < 4 implies out.at(x, y, c)
        == bottom.at(x, y, c) by {
        lemma_from_fn(
            bottom.width,
            bottom.height,
            |x: int, y: int, c: int|
                if top.contains(x - x0, y - y0) {
                    composited(bottom.pixel(x, y), top.pixel(x - x0, y - y0))[c]
                } else {
                    bottom.at(x, y, c)
                },
            x,
            y,
            c,
        );
    }
    lemma_same_pixels(out, bottom);
}

/// A layer whose every pixel is opaque is copied over the canvas.
pub proof fn lemma_overlay_opaque(bottom: Pixels, top: Pixels, x0: int, y0: int)
    requires
        bottom.wf(),
        forall|x: int, y: int| top.contains(x, y) ==> top.at(x, y, 3) == 255,
    ensures
        bottom.overlaid(top, x0, y0) == bottom.pasted(top, x0, y0),
{
    let out = bottom.overlaid(top, x0, y0);
    let copy = bottom.pasted(top, x0, y0);
    assert forall|x: int, y: int, c: int|
        0 <= x < bottom.width && 0 <= y < bottom.height && 0 <= c < 4 implies out.at(x, y, c)
        == copy.at(x, y, c) by {
        lemma_from_fn(
            bottom.width,
            bottom.height,
            |x: int, y: int, c: int|
                if top.contains(x - x0, y - y0) {
                    composited(bottom.pixel(x, y), top.pixel(x - x0, y - y0))[c]
                } else {
                    bottom.at(x, y, c)
                },
            x,
            y,
            c,
        );
        lemma_from_fn(
            bottom.width,
            bottom.height,
            |x: int, y: int, c: int|
                if top.contains(x - x0, y - y0) {
                    top.at(x - x0, y - y0, c)
                } else {
                    bottom.at(x, y, c)
                },
            x,
            y,
            c,
        );
    }
    lemma_same_pixels(out, copy);
}

} // verus!
