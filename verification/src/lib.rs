//! Composes game-character icons from the fragments of texture atlases.
//!
//! A fragment is cut out of an atlas, tinted, scaled, mirrored and turned;
//! the fragments of an icon are laid on a canvas that is just large enough,
//! the first copied, the others blended over it in order; the canvas is
//! trimmed to what can be seen. Simple icons have five fixed layers, animated
//! icons take theirs from the parts of a pose.
//!
//! Numbers that are not whole are held in thousandths, colour channels in
//! 255ths. Turns are exact and by quarters only.

pub mod raster;
pub mod transform;
pub mod compositor;
pub mod trimmer;
pub mod parse;
pub mod assets;
pub mod animation;
pub mod constants;
pub mod renderer;
