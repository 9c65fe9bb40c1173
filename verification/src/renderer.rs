//! The icon assemblers: which fragments make up an icon, with which tint and
//! where, for the simple icons of five fixed layers and for the animated
//! icons whose parts come from a pose.

use vstd::prelude::*;
use crate::animation::idle_track;
use crate::animation::sort_by_z;
use crate::animation::stable_sorted;
use crate::assets::Animations;
use crate::assets::AnimationSprite;
use crate::assets::fragment;
use crate::assets::get_sprite_from_loaded;
use crate::assets::LoadedSpritesheet;
use crate::assets::Sprite;
use crate::compositor::compose_error;
use crate::compositor::compose_post;
use crate::compositor::composed;
use crate::compositor::first_transform_error;
use crate::compositor::is_placement;
use crate::compositor::Layer;
use crate::compositor::layer_views;
use crate::compositor::layers_wf;
use crate::compositor::LayerView;
use crate::compositor::PlacedView;
use crate::compositor::render_layered;
use crate::constants::gamemode;
use crate::constants::gamemode_of;
use crate::constants::icon_name;
use crate::constants::zero_padded;
use crate::raster::Raster;
use crate::transform::Color;
use crate::transform::is_black;
use crate::transform::RenderError;
use crate::trimmer::crop_whitespace;
use crate::trimmer::is_trimmed;

verus! {

/// Whether an icon gets its glow layer: when it is asked for, and also when
/// both colours are black, since the icon could not be seen on black otherwise.
pub open spec fn glow_active(col1: Color, col2: Color, glow: bool) -> bool {
    glow || (col1.black() && col2.black())
}

/// The tint of the glow layer: the secondary colour unless it is black, then
/// the primary colour unless it is black, then white.
pub open spec fn glow_color(col1: Color, col2: Color) -> Color {
    if !col2.black() {
        col2
    } else if !col1.black() {
        col1
    } else {
        Color::white()
    }
}

/// The tint of the glow layer.
pub fn glow_tint(col1: Color, col2: Color) -> (r: Color)
    ensures
        r == glow_color(col1, col2),
{
    if is_black(col2) {
        if is_black(col1) {
            Color { r: 255, g: 255, b: 255 }
        } else {
            col1
        }
    } else {
        col2
    }
}

/// What follows the base name in the sprite name of each of the five slots
/// of a simple icon: glow, secondary colour, outline, primary colour, detail.
pub open spec fn normal_suffix(slot: int) -> Seq<char> {
    if slot == 0 {
        "_glow_001.png"@
    } else if slot == 1 {
        "_2_001.png"@
    } else if slot == 2 {
        "_3_001.png"@
    } else if slot == 3 {
        "_001.png"@
    } else {
        "_extra_001.png"@
    }
}

/// The tint of each slot of a simple icon: the outline and the detail keep
/// the atlas colours.
pub open spec fn normal_color(slot: int, col1: Color, col2: Color) -> Option<Color> {
    if slot == 0 {
        Some(glow_color(col1, col2))
    } else if slot == 1 {
        Some(col2)
    } else if slot == 3 {
        Some(col1)
    } else {
        None
    }
}

/// The layer of a sprite of a simple icon: the sprite's fragment, moved by
/// the sprite's offset with the vertical axis turned over, neither scaled
/// nor turned.
pub open spec fn normal_layer(sheet: LoadedSpritesheet, sprite: Sprite, color: Option<Color>) -> LayerView {
    LayerView {
        image: fragment(sheet.texture@, sprite),
        position: (sprite.offset.0 as i64, (-(sprite.offset.1 as int)) as i64),
        color,
        scale: None,
        rotation: None,
        force_front: false,
    }
}

/// The layer that a slot of a simple icon contributes, if it contributes
/// one: the glow slot only where the glow is active, and any slot only where
/// its sprite is in its atlas. The glow is looked up in the glow atlas.
pub open spec fn normal_slot(
    slot: int,
    basename: Seq<char>,
    col1: Color,
    col2: Color,
    glow: bool,
    sheet: LoadedSpritesheet,
    glow_sheet: LoadedSpritesheet,
) -> Option<LayerView> {
    let source = if slot == 0 { glow_sheet } else { sheet };
    if slot == 0 && !glow_active(col1, col2, glow) {
        None
    } else {
        match source.spritesheet.lookup(basename + normal_suffix(slot)) {
            Some(sprite) => Some(normal_layer(source, sprite, normal_color(slot, col1, col2))),
            None => None,
        }
    }
}

/// The layers of the first `count` slots of a simple icon, in the order of
/// the slots; a slot without a layer leaves no gap.
pub open spec fn normal_plan(
    count: int,
    basename: Seq<char>,
    col1: Color,
    col2: Color,
    glow: bool,
    sheet: LoadedSpritesheet,
    glow_sheet: LoadedSpritesheet,
) -> Seq<LayerView>
    decreases count,
{
    if count <= 0 {
        Seq::empty()
    } else {
        let rest = normal_plan(count - 1, basename, col1, col2, glow, sheet, glow_sheet);
        match normal_slot(count - 1, basename, col1, col2, glow, sheet, glow_sheet) {
            Some(layer) => rest.push(layer),
            None => rest,
        }
    }
}

/// What rendering a list of layers returns: with no layer, the error for
/// that; with a layer whose transform fails, the first such error; otherwise
/// the composite of the transformed layers, trimmed to what is visible, or
/// the error of composing them.
pub open spec fn rendered_post(plan: Seq<LayerView>, r: Result<Raster, RenderError>) -> bool {
    if plan.len() == 0 {
        r == Err::<Raster, RenderError>(RenderError::NoLayers)
    } else if first_transform_error(plan).is_some() {
        r is Err && r->Err_0 == first_transform_error(plan).unwrap()
    } else {
        exists|placed: Seq<PlacedView>|
            is_placement(plan, placed) && match r {
                Ok(out) => compose_error(placed).is_none() && out.wf() && is_trimmed(
                    composed(placed),
                    out@,
                ),
                Err(e) => compose_error(placed) == Some(e),
            }
    }
}

/// A layer list rendered and trimmed.
pub fn render_trimmed(layers: &Vec<Layer>) -> (r: Result<Raster, RenderError>)
    requires
        layers_wf(layers@),
    ensures
        rendered_post(layer_views(layers@), r),
{
    let ghost plan = layer_views(layers@);
    match render_layered(layers) {
        Ok(canvas) => {
            let out = crop_whitespace(&canvas);
            proof {
                let placed = choose|placed: Seq<PlacedView>|
                    is_placement(plan, placed) && compose_post(
                        placed,
                        Ok::<Raster, RenderError>(canvas),
                    );
                assert(is_placement(plan, placed) && compose_error(placed).is_none() && out.wf()
                    && is_trimmed(composed(placed), out@));
            }
            Ok(out)
        },
        Err(e) => {
            proof {
                if plan.len() != 0 && first_transform_error(plan).is_none() {
                    let placed = choose|placed: Seq<PlacedView>|
                        is_placement(plan, placed) && compose_post(
                            placed,
                            Err::<Raster, RenderError>(e),
                        );
                }
            }
            Err(e)
        },
    }
}

/// The base name followed by a suffix.
fn with_suffix(basename: &str, suffix: &str) -> (r: String)
    ensures
        r@ == basename@ + suffix@,
{
    String::from_str(basename).concat(suffix)
}

/// The layers of a simple icon: up to five, for glow, secondary colour,
/// outline, primary colour and detail, in that order.
pub fn normal_layers(
    basename: &str,
    col1: Color,
    col2: Color,
    glow: bool,
    game_sheet_02: &LoadedSpritesheet,
    game_sheet_glow: &LoadedSpritesheet,
) -> (r: Vec<Layer>)
    requires
        game_sheet_02.texture.wf(),
        game_sheet_glow.texture.wf(),
    ensures
        layers_wf(r@),
        layer_views(r@) == normal_plan(
            5,
            basename@,
            col1,
            col2,
            glow,
            *game_sheet_02,
            *game_sheet_glow,
        ),
{
    let glow_col = glow_tint(col1, col2);
    let with_glow = glow || (is_black(col1) && is_black(col2));
    let mut layers: Vec<Layer> = Vec::new();
    let mut slot: usize = 0;
    while slot < 5
        invariant
            slot <= 5,
            game_sheet_02.texture.wf(),
            game_sheet_glow.texture.wf(),
            glow_col == glow_color(col1, col2),
            with_glow == glow_active(col1, col2, glow),
            layers_wf(layers@),
            layer_views(layers@) == normal_plan(
                slot as int,
                basename@,
                col1,
                col2,
                glow,
                *game_sheet_02,
                *game_sheet_glow,
            ),
        decreases 5 - slot,
    {
        let (suffix, color, source): (&str, Option<Color>, &LoadedSpritesheet) = if slot == 0 {
            ("_glow_001.png", Some(glow_col), game_sheet_glow)
        } else if slot == 1 {
            ("_2_001.png", Some(col2), game_sheet_02)
        } else if slot == 2 {
            ("_3_001.png", None, game_sheet_02)
        } else if slot == 3 {
            ("_001.png", Some(col1), game_sheet_02)
        } else {
            ("_extra_001.png", None, game_sheet_02)
        };
        if slot != 0 || with_glow {
            let name = with_suffix(basename, suffix);
            match get_sprite_from_loaded(source, name.as_str()) {
                Some((image, sprite)) => {
                    let layer = Layer {
                        image,
                        position: (sprite.offset.0 as i64, -(sprite.offset.1 as i64)),
                        color,
                        scale: None,
                        rotation: None,
                        force_front: false,
                    };
                    layers.push(layer);
                },
                None => {},
            }
        }
        slot = slot + 1;
    }
    layers
}

/// Renders an icon of five fixed layers. You may be looking for `render_icon`.
pub fn render_normal(
    basename: &str,
    col1: Color,
    col2: Color,
    glow: bool,
    game_sheet_02: &LoadedSpritesheet,
    game_sheet_glow: &LoadedSpritesheet,
) -> (r: Result<Raster, RenderError>)
    requires
        game_sheet_02.texture.wf(),
        game_sheet_glow.texture.wf(),
    ensures
        rendered_post(
            normal_plan(5, basename@, col1, col2, glow, *game_sheet_02, *game_sheet_glow),
            r,
        ),
{
    let layers = normal_layers(basename, col1, col2, glow, game_sheet_02, game_sheet_glow);
    render_trimmed(&layers)
}

/// `text` with every occurrence of `from` replaced by `to`: the occurrences
/// are found from the left, and none overlaps the one before it.
pub open spec fn replaced(text: Seq<char>, from: Seq<char>, to: Seq<char>) -> Seq<char>
    decreases text.len(),
{
    if from.len() == 0 || text.len() < from.len() {
        text
    } else if text.subrange(0, from.len() as int) == from {
        to + replaced(text.subrange(from.len() as int, text.len() as int), from, to)
    } else {
        seq![text[0]] + replaced(text.subrange(1, text.len() as int), from, to)
    }
}

/// Replaces every occurrence of a pattern in a text with std's
/// `str::replace`. Claimed: the occurrences are taken from the left, each
/// starting where the one before it has ended at the earliest.
#[verifier::external_body]
fn replace(text: &str, from: &str, to: &str) -> (r: String)
    requires
        from@.len() > 0,
    ensures
        r@ == replaced(text@, from@, to@),
{
    text.replace(from, to)
}

/// The name of a part's texture for the icon `basename`: the part's texture
/// name with the name of the first spider, and of the first robot, replaced.
pub open spec fn texture_name(template: Seq<char>, basename: Seq<char>) -> Seq<char> {
    replaced(replaced(template, "spider_01"@, basename), "robot_01"@, basename)
}

/// The sprite name of each of the five slots of a part: secondary colour,
/// outline, primary colour, detail, glow.
pub open spec fn zany_name(slot: int, name: Seq<char>) -> Seq<char> {
    if slot == 0 {
        replaced(name, "_001.png"@, "_2_001.png"@)
    } else if slot == 1 {
        replaced(name, "_001.png"@, "_3_001.png"@)
    } else if slot == 2 {
        name
    } else if slot == 3 {
        replaced(name, "_001.png"@, "_extra_001.png"@)
    } else {
        replaced(name, "_001.png"@, "_glow_001.png"@)
    }
}

/// The tint of each slot of a part.
pub open spec fn zany_color(slot: int, col1: Color, col2: Color) -> Option<Color> {
    if slot == 0 {
        Some(col2)
    } else if slot == 2 {
        Some(col1)
    } else if slot == 4 {
        Some(glow_color(col1, col2))
    } else {
        None
    }
}

/// A part's scale, with the sign turned on each axis on which the part is mirrored.
pub open spec fn flipped_scale(scale: (i32, i32), flipped: (bool, bool)) -> (i64, i64) {
    (
        if flipped.0 { (-(scale.0 as int)) as i64 } else { scale.0 as i64 },
        if flipped.1 { (-(scale.1 as int)) as i64 } else { scale.1 as i64 },
    )
}

/// The layer of a sprite of a part: the sprite's fragment, at four times the
/// part's position plus the sprite's offset, the vertical axis turned over,
/// with the part's scale and angle; a glow layer is forced to the front.
pub open spec fn zany_layer(
    sheet: LoadedSpritesheet,
    sprite: Sprite,
    frame: AnimationSprite,
    color: Option<Color>,
    force_front: bool,
) -> LayerView {
    LayerView {
        image: fragment(sheet.texture@, sprite),
        position: (
            (sprite.offset.0 + 4 * frame.position.0) as i64,
            (-(sprite.offset.1 as int) - 4 * frame.position.1) as i64,
        ),
        color,
        scale: Some(flipped_scale(frame.scale, frame.flipped)),
        rotation: Some(frame.rotation),
        force_front,
    }
}

/// The layer that a slot of a part contributes, if it contributes one.
pub open spec fn zany_slot(
    slot: int,
    frame: AnimationSprite,
    basename: Seq<char>,
    col1: Color,
    col2: Color,
    glow: bool,
    sheet: LoadedSpritesheet,
) -> Option<LayerView> {
    if slot == 4 && !glow_active(col1, col2, glow) {
        None
    } else {
        match sheet.spritesheet.lookup(zany_name(slot, texture_name(frame.texture@, basename))) {
            Some(sprite) => Some(
                zany_layer(sheet, sprite, frame, zany_color(slot, col1, col2), slot == 4),
            ),
            None => None,
        }
    }
}

/// The layers of the first `count` slots of a part.
pub open spec fn frame_plan(
    count: int,
    frame: AnimationSprite,
    basename: Seq<char>,
    col1: Color,
    col2: Color,
    glow: bool,
    sheet: LoadedSpritesheet,
) -> Seq<LayerView>
    decreases count,
{
    if count <= 0 {
        Seq::empty()
    } else {
        let rest = frame_plan(count - 1, frame, basename, col1, col2, glow, sheet);
        match zany_slot(count - 1, frame, basename, col1, col2, glow, sheet) {
            Some(layer) => rest.push(layer),
            None => rest,
        }
    }
}

/// The layers of all the parts, part after part.
pub open spec fn frames_plan(
    frames: Seq<AnimationSprite>,
    basename: Seq<char>,
    col1: Color,
    col2: Color,
    glow: bool,
    sheet: LoadedSpritesheet,
) -> Seq<LayerView>
    decreases frames.len(),
{
    if frames.len() == 0 {
        Seq::empty()
    } else {
        frames_plan(frames.drop_last(), basename, col1, col2, glow, sheet) + frame_plan(
            5,
            frames.last(),
            basename,
            col1,
            col2,
            glow,
            sheet,
        )
    }
}

/// The layers that are forced to the front, or those that are not, in their order.
pub open spec fn kept(layers: Seq<LayerView>, front: bool) -> Seq<LayerView>
    decreases layers.len(),
{
    if layers.len() == 0 {
        Seq::empty()
    } else {
        let rest = kept(layers.drop_last(), front);
        if layers.last().force_front == front {
            rest.push(layers.last())
        } else {
            rest
        }
    }
}

/// The layers of an animated icon: those of the parts in drawing order, the
/// layers that are forced to the front first and then all the others, each
/// group in its order.
pub open spec fn zany_plan(
    frames: Seq<AnimationSprite>,
    basename: Seq<char>,
    col1: Color,
    col2: Color,
    glow: bool,
    sheet: LoadedSpritesheet,
) -> Seq<LayerView> {
    let all = frames_plan(stable_sorted(frames), basename, col1, col2, glow, sheet);
    kept(all, true) + kept(all, false)
}

/// A part's scale with its mirrors.
fn flip(scale: (i32, i32), flipped: (bool, bool)) -> (r: (i64, i64))
    ensures
        r == flipped_scale(scale, flipped),
{
    (
        if flipped.0 { -(scale.0 as i64) } else { scale.0 as i64 },
        if flipped.1 { -(scale.1 as i64) } else { scale.1 as i64 },
    )
}

/// The name of a part's texture for an icon.
fn texture_name_of(template: &str, basename: &str) -> (r: String)
    ensures
        r@ == texture_name(template@, basename@),
{
    proof {
        reveal_strlit("spider_01");
        reveal_strlit("robot_01");
    }
    let first = replace(template, "spider_01", basename);
    replace(first.as_str(), "robot_01", basename)
}

/// The sprite name of a slot of a part.
fn zany_name_of(slot: usize, name: &str) -> (r: String)
    requires
        slot < 5,
    ensures
        r@ == zany_name(slot as int, name@),
{
    proof {
        reveal_strlit("_001.png");
    }
    if slot == 0 {
        replace(name, "_001.png", "_2_001.png")
    } else if slot == 1 {
        replace(name, "_001.png", "_3_001.png")
    } else if slot == 2 {
        String::from_str(name)
    } else if slot == 3 {
        replace(name, "_001.png", "_extra_001.png")
    } else {
        replace(name, "_001.png", "_glow_001.png")
    }
}

/// Splitting off the last layer splits it off its group.
proof fn lemma_kept_push(layers: Seq<LayerView>, layer: LayerView, front: bool)
    ensures
        kept(layers.push(layer), front) == if layer.force_front == front {
            kept(layers, front).push(layer)
        } else {
            kept(layers, front)
        },
{
    assert(layers.push(layer).drop_last() =~= layers);
}

/// The layers of an animated icon in the order in which they are drawn.
pub fn zany_layers(
    basename: &str,
    col1: Color,
    col2: Color,
    glow: bool,
    game_sheet_02: &LoadedSpritesheet,
    frames: &Vec<AnimationSprite>,
) -> (r: Vec<Layer>)
    requires
        game_sheet_02.texture.wf(),
    ensures
        layers_wf(r@),
        layer_views(r@) == zany_plan(frames@, basename@, col1, col2, glow, *game_sheet_02),
{
    let glow_col = glow_tint(col1, col2);
    let with_glow = glow || (is_black(col1) && is_black(col2));
    let sorted = sort_by_z(frames);
    let n = sorted.len();
    let mut front: Vec<Layer> = Vec::new();
    let mut others: Vec<Layer> = Vec::new();
    let ghost mut all: Seq<LayerView> = Seq::empty();
    let mut i: usize = 0;
    while i < n
        invariant
            n == sorted@.len(),
            i <= n,
            game_sheet_02.texture.wf(),
            glow_col == glow_color(col1, col2),
            with_glow == glow_active(col1, col2, glow),
            layers_wf(front@),
            layers_wf(others@),
            all == frames_plan(sorted@.take(i as int), basename@, col1, col2, glow, *game_sheet_02),
            layer_views(front@) == kept(all, true),
            layer_views(others@) == kept(all, false),
        decreases n - i,
    {
        let frame = &sorted[i];
        let name = texture_name_of(frame.texture.as_str(), basename);
        let ghost before = all;
        let ghost mut part: Seq<LayerView> = Seq::empty();
        let mut slot: usize = 0;
        while slot < 5
            invariant
                slot <= 5,
                i < n,
                n == sorted@.len(),
                *frame == sorted@[i as int],
                name@ == texture_name(frame.texture@, basename@),
                game_sheet_02.texture.wf(),
                glow_col == glow_color(col1, col2),
                with_glow == glow_active(col1, col2, glow),
                layers_wf(front@),
                layers_wf(others@),
                part == frame_plan(slot as int, *frame, basename@, col1, col2, glow, *game_sheet_02),
                all == before + part,
                layer_views(front@) == kept(all, true),
                layer_views(others@) == kept(all, false),
            decreases 5 - slot,
        {
            let color: Option<Color> = if slot == 0 {
                Some(col2)
            } else if slot == 2 {
                Some(col1)
            } else if slot == 4 {
                Some(glow_col)
            } else {
                None
            };
            if slot != 4 || with_glow {
                let sprite_name = zany_name_of(slot, name.as_str());
                match get_sprite_from_loaded(game_sheet_02, sprite_name.as_str()) {
                    Some((image, sprite)) => {
                        let layer = Layer {
                            image,
                            position: (
                                (sprite.offset.0 as i64) + 4 * (frame.position.0 as i64),
                                -(sprite.offset.1 as i64) - 4 * (frame.position.1 as i64),
                            ),
                            color,
                            scale: Some(flip(frame.scale, frame.flipped)),
                            rotation: Some(frame.rotation),
                            force_front: slot == 4,
                        };
                        let ghost view = layer@;
                        proof {
                            lemma_kept_push(all, view, true);
                            lemma_kept_push(all, view, false);
                            part = part.push(view);
                            all = all.push(view);
                        }
                        if slot == 4 {
                            front.push(layer);
                        } else {
                            others.push(layer);
                        }
                    },
                    None => {},
                }
            }
            slot = slot + 1;
        }
        proof {
            assert(sorted@.take(i + 1).drop_last() =~= sorted@.take(i as int));
        }
        i = i + 1;
    }
    assert(sorted@.take(n as int) =~= sorted@);
    front.append(&mut others);
    front
}

/// What `render_zany` returns: without an idle pose the error for that, else
/// the rendering of the pose's layers.
pub open spec fn zany_post(
    basename: Seq<char>,
    col1: Color,
    col2: Color,
    glow: bool,
    sheet: LoadedSpritesheet,
    animations: Animations,
    r: Result<Raster, RenderError>,
) -> bool {
    match idle_track(animations) {
        Some(frames) => rendered_post(zany_plan(frames, basename, col1, col2, glow, sheet), r),
        None => r == Err::<Raster, RenderError>(RenderError::NoAnimation),
    }
}

/// Renders a robot or spider icon from the idle pose of its class. You may be
/// looking for `render_icon`.
pub fn render_zany(
    basename: &str,
    col1: Color,
    col2: Color,
    glow: bool,
    game_sheet_02: &LoadedSpritesheet,
    animations: &Animations,
) -> (r: Result<Raster, RenderError>)
    requires
        game_sheet_02.texture.wf(),
    ensures
        zany_post(basename@, col1, col2, glow, *game_sheet_02, *animations, r),
{
    let at = match animations.find_idle() {
        Some(i) => i,
        None => { return Err(RenderError::NoAnimation); },
    };
    let layers = zany_layers(basename, col1, col2, glow, game_sheet_02, &animations.tracks[at].1);
    render_trimmed(&layers)
}

/// Among the layers of an animated icon, every layer that is forced to the
/// front stands before every layer that is not.
pub proof fn lemma_forced_first(
    frames: Seq<AnimationSprite>,
    basename: Seq<char>,
    col1: Color,
    col2: Color,
    glow: bool,
    sheet: LoadedSpritesheet,
    i: int,
    j: int,
)
    requires
        0 <= i < zany_plan(frames, basename, col1, col2, glow, sheet).len(),
        0 <= j < zany_plan(frames, basename, col1, col2, glow, sheet).len(),
        zany_plan(frames, basename, col1, col2, glow, sheet)[i].force_front,
        !zany_plan(frames, basename, col1, col2, glow, sheet)[j].force_front,
    ensures
        i < j,
{
    let all = frames_plan(stable_sorted(frames), basename, col1, col2, glow, sheet);
    lemma_kept_flag(all, true);
    lemma_kept_flag(all, false);
}

/// Every layer of a group has the group's flag.
pub proof fn lemma_kept_flag(layers: Seq<LayerView>, front: bool)
    ensures
        forall|k: int| 0 <= k < kept(layers, front).len() ==> (#[trigger] kept(layers, front)[k]).force_front == front,
    decreases layers.len(),
{
    if layers.len() > 0 {
        lemma_kept_flag(layers.drop_last(), front);
    }
}

/// What `render_icon` returns: for a gamemode that the table lacks the error
/// for that; else the rendering of the icon whose name is the gamemode's
/// prefix and the number, from the robot's or the spider's pose where the
/// gamemode has moving parts.
pub open spec fn icon_post(
    gamemode_str: Seq<char>,
    icon: i32,
    col1: Color,
    col2: Color,
    glow: bool,
    sheet: LoadedSpritesheet,
    glow_sheet: LoadedSpritesheet,
    robot_animations: Animations,
    spider_animations: Animations,
    r: Result<Raster, RenderError>,
) -> bool {
    match gamemode_of(gamemode_str) {
        None => r == Err::<Raster, RenderError>(RenderError::InvalidGamemode),
        Some((prefix, zany)) => {
            let basename = prefix + zero_padded(icon as int);
            if zany {
                zany_post(
                    basename,
                    col1,
                    col2,
                    glow,
                    sheet,
                    if gamemode_str == "robot"@ {
                        robot_animations
                    } else {
                        spider_animations
                    },
                    r,
                )
            } else {
                rendered_post(normal_plan(5, basename, col1, col2, glow, sheet, glow_sheet), r)
            }
        },
    }
}

/// Renders the icon of the given number of a gamemode. `gamemode_str` is one
/// of `cube`, `ship`, `ball`, `ufo`, `wave`, `robot` and `spider`.
pub fn render_icon(
    gamemode_str: &str,
    icon: i32,
    col1: Color,
    col2: Color,
    glow: bool,
    game_sheet_02: &LoadedSpritesheet,
    game_sheet_glow: &LoadedSpritesheet,
    robot_animations: &Animations,
    spider_animations: &Animations,
) -> (r: Result<Raster, RenderError>)
    requires
        game_sheet_02.texture.wf(),
        game_sheet_glow.texture.wf(),
    ensures
        icon_post(
            gamemode_str@,
            icon,
            col1,
            col2,
            glow,
            *game_sheet_02,
            *game_sheet_glow,
            *robot_animations,
            *spider_animations,
            r,
        ),
{
    let mode = match gamemode(gamemode_str) {
        Some(m) => m,
        None => { return Err(RenderError::InvalidGamemode); },
    };
    let basename = icon_name(mode.prefix.as_str(), icon);
    if mode.zany {
        let wanted = String::from_str(gamemode_str);
        let robot = String::from_str("robot");
        let animations = if wanted == robot {
            robot_animations
        } else {
            spider_animations
        };
        render_zany(basename.as_str(), col1, col2, glow, game_sheet_02, animations)
    } else {
        render_normal(basename.as_str(), col1, col2, glow, game_sheet_02, game_sheet_glow)
    }
}

/// The layer of a slot as a list: the layer alone, or nothing.
pub open spec fn slot_layers(layer: Option<LayerView>) -> Seq<LayerView> {
    match layer {
        Some(l) => seq![l],
        None => Seq::empty(),
    }
}

/// The layers of a simple icon are the layers of its five slots in the order
/// of the slots. A slot without a layer takes nothing from the others: each
/// layer that is there has the fragment, the position and the tint of its
/// own slot.
pub proof fn lemma_normal_plan_slots(
    basename: Seq<char>,
    col1: Color,
    col2: Color,
    glow: bool,
    sheet: LoadedSpritesheet,
    glow_sheet: LoadedSpritesheet,
)
    ensures
        normal_plan(5, basename, col1, col2, glow, sheet, glow_sheet) == slot_layers(
            normal_slot(0, basename, col1, col2, glow, sheet, glow_sheet),
        ) + slot_layers(normal_slot(1, basename, col1, col2, glow, sheet, glow_sheet))
            + slot_layers(normal_slot(2, basename, col1, col2, glow, sheet, glow_sheet))
            + slot_layers(normal_slot(3, basename, col1, col2, glow, sheet, glow_sheet))
            + slot_layers(normal_slot(4, basename, col1, col2, glow, sheet, glow_sheet)),
{
    let upto0 = normal_plan(0, basename, col1, col2, glow, sheet, glow_sheet);
    let upto1 = normal_plan(1, basename, col1, col2, glow, sheet, glow_sheet);
    let upto2 = normal_plan(2, basename, col1, col2, glow, sheet, glow_sheet);
    let upto3 = normal_plan(3, basename, col1, col2, glow, sheet, glow_sheet);
    let upto4 = normal_plan(4, basename, col1, col2, glow, sheet, glow_sheet);
    let upto5 = normal_plan(5, basename, col1, col2, glow, sheet, glow_sheet);
    let s0 = slot_layers(normal_slot(0, basename, col1, col2, glow, sheet, glow_sheet));
    let s1 = slot_layers(normal_slot(1, basename, col1, col2, glow, sheet, glow_sheet));
    let s2 = slot_layers(normal_slot(2, basename, col1, col2, glow, sheet, glow_sheet));
    let s3 = slot_layers(normal_slot(3, basename, col1, col2, glow, sheet, glow_sheet));
    let s4 = slot_layers(normal_slot(4, basename, col1, col2, glow, sheet, glow_sheet));
}

/// An icon whose two colours are black gets its glow layer though none was
/// asked for, and the glow is tinted white: where the glow atlas has the
/// icon's glow sprite, that sprite's layer is the base layer.
pub proof fn lemma_black_icon_glows(
    basename: Seq<char>,
    col1: Color,
    col2: Color,
    sheet: LoadedSpritesheet,
    glow_sheet: LoadedSpritesheet,
)
    requires
        col1.black(),
        col2.black(),
    ensures
        glow_active(col1, col2, false),
        glow_color(col1, col2) == Color::white(),
        match glow_sheet.spritesheet.lookup(basename + "_glow_001.png"@) {
            Some(sprite) => normal_plan(5, basename, col1, col2, false, sheet, glow_sheet)[0]
                == normal_layer(glow_sheet, sprite, Some(Color::white())),
            None => true,
        },
{
    lemma_normal_plan_slots(basename, col1, col2, false, sheet, glow_sheet);
}

/// An icon with a colour that is not black gets no glow layer unless one is
/// asked for: its layers are those of the four other slots.
pub proof fn lemma_colored_icon_has_no_glow(
    basename: Seq<char>,
    col1: Color,
    col2: Color,
    sheet: LoadedSpritesheet,
    glow_sheet: LoadedSpritesheet,
)
    requires
        !col1.black() || !col2.black(),
    ensures
        !glow_active(col1, col2, false),
        normal_slot(0, basename, col1, col2, false, sheet, glow_sheet).is_none(),
        normal_plan(5, basename, col1, col2, false, sheet, glow_sheet) == slot_layers(
            normal_slot(1, basename, col1, col2, false, sheet, glow_sheet),
        ) + slot_layers(normal_slot(2, basename, col1, col2, false, sheet, glow_sheet))
            + slot_layers(normal_slot(3, basename, col1, col2, false, sheet, glow_sheet))
            + slot_layers(normal_slot(4, basename, col1, col2, false, sheet, glow_sheet)),
{
    lemma_normal_plan_slots(basename, col1, col2, false, sheet, glow_sheet);
    let s1 = slot_layers(normal_slot(1, basename, col1, col2, false, sheet, glow_sheet));
    let s2 = slot_layers(normal_slot(2, basename, col1, col2, false, sheet, glow_sheet));
    let s3 = slot_layers(normal_slot(3, basename, col1, col2, false, sheet, glow_sheet));
    let s4 = slot_layers(normal_slot(4, basename, col1, col2, false, sheet, glow_sheet));
}

} // verus!
