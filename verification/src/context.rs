//! The settings of one render pass.
use crate::fixed::{fx, Fixed, SCALE};
use vstd::prelude::*;

verus! {

/// What a render pass needs to know about its canvas and viewport.
#[derive(Clone, Copy, Debug)]
pub struct GlobalCtx {
    /// Width of the canvas in pixels.
    pub width: usize,
    /// Height of the canvas in pixels.
    pub height: usize,
    /// Width of the viewport in camera-space units.
    pub view_width: Fixed,
    /// Height of the viewport in camera-space units.
    pub view_height: Fixed,
    /// Distance from the eye to the viewport.
    pub viewport_dist: Fixed,
    /// Whether each triangle gets a darker outline.
    pub draw_outline: bool,
}

/// The settings that [`init_global_ctx`] gives: a viewport one unit wide and
/// high at distance one, with outlines switched on.
pub open spec fn init_global_ctx_spec(width: usize, height: usize) -> GlobalCtx {
    GlobalCtx {
        width,
        height,
        view_width: fx(SCALE as int),
        view_height: fx(SCALE as int),
        viewport_dist: fx(SCALE as int),
        draw_outline: true,
    }
}

/// The width and height of the canvas.
pub fn get_canvas_dimensions(ctx: &GlobalCtx) -> (r: (usize, usize))
    ensures
        r == (ctx.width, ctx.height),
{
    (ctx.width, ctx.height)
}

/// The width and height of the viewport.
pub fn get_view_dimensions(ctx: &GlobalCtx) -> (r: (Fixed, Fixed))
    ensures
        r == (ctx.view_width, ctx.view_height),
{
    (ctx.view_width, ctx.view_height)
}

/// The distance from the eye to the viewport.
pub fn get_viewport_dist(ctx: &GlobalCtx) -> (r: Fixed)
    ensures
        r == ctx.viewport_dist,
{
    ctx.viewport_dist
}

/// Whether triangles are outlined.
pub fn get_draw_outline(ctx: &GlobalCtx) -> (r: bool)
    ensures
        r == ctx.draw_outline,
{
    ctx.draw_outline
}

/// The settings for a canvas of the given size.
pub fn init_global_ctx(width: usize, height: usize) -> (ctx: GlobalCtx)
    ensures
        ctx == init_global_ctx_spec(width, height),
{
    GlobalCtx {
        width,
        height,
        view_width: Fixed::one(),
        view_height: Fixed::one(),
        viewport_dist: Fixed::one(),
        draw_outline: true,
    }
}

} // verus!
