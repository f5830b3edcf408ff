//! Conversion of client drawing payloads into the paths a room keeps.
use vstd::prelude::*;
use crate::color::{brush_size_of, color_of, convert_brush_size, convert_color};
use crate::models::{DrawPath, DrawStroke, FrontendDrawPath, FrontendDrawStroke};
use crate::text::{lower_of, parse_uuid, uuid_of};

verus! {

/// Bit pattern of the `f32` value 1.0.
pub const OPAQUE_ALPHA_BITS: u32 = 0x3f80_0000;

/// Opacity bits as kept: a zero opacity (either sign) means "not given" and
/// becomes fully opaque; anything else is kept.
pub open spec fn alpha_or_opaque(bits: u32) -> u32 {
    if bits & 0x7fff_ffff == 0 {
        OPAQUE_ALPHA_BITS
    } else {
        bits
    }
}

/// The stroke kept for a client stroke taken at `now_secs`.
pub open spec fn stroke_of(s: FrontendDrawStroke, now_secs: u64) -> DrawStroke {
    DrawStroke {
        x_bits: s.x_bits,
        y_bits: s.y_bits,
        timestamp: now_secs,
        color_hex: s.color,
        alpha_bits: alpha_or_opaque(s.alpha_bits),
        is_eraser: s.is_eraser,
        brush_px: s.brush_size,
        brush_size: brush_size_of(s.brush_size),
    }
}

/// Converts a live client stroke.
pub fn convert_stroke(s: &FrontendDrawStroke, now_secs: u64) -> (r: DrawStroke)
    ensures
        r == stroke_of(*s, now_secs),
{
    let alpha = if s.alpha_bits & 0x7fff_ffff == 0 {
        OPAQUE_ALPHA_BITS
    } else {
        s.alpha_bits
    };
    DrawStroke {
        x_bits: s.x_bits,
        y_bits: s.y_bits,
        timestamp: now_secs,
        color_hex: s.color.clone(),
        alpha_bits: alpha,
        is_eraser: s.is_eraser,
        brush_px: s.brush_size,
        brush_size: convert_brush_size(s.brush_size),
    }
}

/// Builds the path kept for a client path under the id `id`, drawn by
/// `drawer`: its colour and brush come from its first stroke. A path without
/// strokes gives nothing.
pub fn build_draw_path(
    path: &FrontendDrawPath,
    id: u128,
    drawer: u128,
    now_ms: i64,
    now_secs: u64,
) -> (r: Option<DrawPath>)
    ensures
        path.strokes@.len() == 0 <==> r is None,
        r matches Some(p) ==> {
            let first = path.strokes@[0];
            &&& p.id == id
            &&& p.player_id == drawer
            &&& p.color == color_of(lower_of(first.color@))
            &&& p.color_hex == first.color
            &&& p.brush_size == brush_size_of(first.brush_size)
            &&& p.strokes@ == Seq::new(path.strokes@.len(), |i: int| stroke_of(path.strokes@[i], now_secs))
            &&& p.created_at_ms == now_ms
        },
{
    if path.strokes.len() == 0 {
        return None;
    }
    let first = &path.strokes[0];
    let mut strokes: Vec<DrawStroke> = Vec::new();
    let mut k: usize = 0;
    while k < path.strokes.len()
        invariant
            0 <= k <= path.strokes@.len(),
            strokes@ == Seq::new(k as nat, |i: int| stroke_of(path.strokes@[i], now_secs)),
        decreases path.strokes@.len() - k,
    {
        strokes.push(convert_stroke(&path.strokes[k], now_secs));
        proof {
            assert(strokes@ =~= Seq::new((k + 1) as nat, |i: int| stroke_of(path.strokes@[i], now_secs)));
        }
        k = k + 1;
    }
    Some(
        DrawPath {
            id,
            player_id: drawer,
            color: convert_color(first.color.as_str()),
            color_hex: first.color.clone(),
            brush_size: convert_brush_size(first.brush_size),
            strokes,
            created_at_ms: now_ms,
        },
    )
}

/// Converts a client path: its id is kept where it reads as a UUID (so a
/// resent path is recognised), else `fresh_id` is used.
pub fn convert_draw_path(
    path: &FrontendDrawPath,
    drawer: u128,
    fresh_id: u128,
    now_ms: i64,
    now_secs: u64,
) -> (r: Option<DrawPath>)
    ensures
        path.strokes@.len() == 0 <==> r is None,
        r matches Some(p) ==> p.id == match uuid_of(path.id@) {
            Some(u) => u,
            None => fresh_id,
        },
        r matches Some(p) ==> {
            let first = path.strokes@[0];
            &&& p.player_id == drawer
            &&& p.color == color_of(lower_of(first.color@))
            &&& p.color_hex == first.color
            &&& p.brush_size == brush_size_of(first.brush_size)
            &&& p.strokes@ == Seq::new(path.strokes@.len(), |i: int| stroke_of(path.strokes@[i], now_secs))
            &&& p.created_at_ms == now_ms
        },
{
    let id = match parse_uuid(path.id.as_str()) {
        Some(u) => u,
        None => fresh_id,
    };
    build_draw_path(path, id, drawer, now_ms, now_secs)
}

} // verus!
