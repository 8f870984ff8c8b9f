//! How a renderer draws the strips of an assembled mesh: which pass a strip
//! belongs to, how it blends, and whether back faces are culled.
use vstd::prelude::*;
use crate::entity::Platform;
use crate::mesh::{TriStrip, STRIP_ALT_TRANSPARENT, STRIP_BLENDED, STRIP_DOUBLE_SIDED, STRIP_INVISIBLE};

verus! {

/// Blending of a strip with what is already drawn.
#[derive(Clone, Copy, Debug, PartialEq, Eq, Structural)]
pub enum BlendMode {
    Opaque,
    Additive,
    ReverseSubtract,
    Blend,
    Cutout,
}

/// How one strip is drawn.
#[derive(Clone, Copy, Debug, PartialEq, Eq, Structural)]
pub struct StripDraw {
    pub blend: BlendMode,
    pub cull_back_faces: bool,
}

/// Texture flags of a cube map, which strips are not drawn with.
pub const TEXTURE_CUBEMAP: u32 = 0x30000;

/// A strip belongs to the opaque pass when its transparency class is zero
/// and it does not use the alternative transparent mode.
pub open spec fn opaque_spec(t: TriStrip) -> bool {
    t.transparency == 0 && t.flags & STRIP_ALT_TRANSPARENT == 0
}

/// The blend mode of a transparency class: 2 subtracts, 1 adds, any other
/// is opaque.
pub open spec fn class_blend(transparency: u8) -> BlendMode {
    if transparency == 2 {
        BlendMode::ReverseSubtract
    } else if transparency == 1 {
        BlendMode::Additive
    } else {
        BlendMode::Opaque
    }
}

/// Whether a texture's flags ask for alpha cut-out.
pub open spec fn texture_cutout(flags: u32) -> bool {
    (flags >> 29u32) & 3 != 0
}

/// How a strip is drawn, given the flags of its texture if it has one;
/// `None` when it is not drawn (invisible, or textured with a cube map).
pub open spec fn strip_draw_spec(t: TriStrip, texture_flags: Option<u32>, p: Platform) -> Option<StripDraw> {
    if t.flags & STRIP_INVISIBLE != 0 {
        None
    } else if texture_flags is Some && texture_flags->Some_0 & TEXTURE_CUBEMAP != 0 {
        None
    } else {
        let base = class_blend(t.transparency);
        let blended = if (t.flags & STRIP_ALT_TRANSPARENT != 0 || t.flags & STRIP_BLENDED != 0) && base == BlendMode::Opaque {
            BlendMode::Blend
        } else {
            base
        };
        let blend = if texture_flags is Some && texture_cutout(texture_flags->Some_0) && t.flags & STRIP_ALT_TRANSPARENT == 0 {
            BlendMode::Cutout
        } else {
            blended
        };
        let cull = t.flags & STRIP_DOUBLE_SIDED == 0 && (p == Platform::Pc || p == Platform::Xbox);
        Some(StripDraw { blend, cull_back_faces: cull })
    }
}

/// Whether a strip is drawn in the opaque pass; the others are drawn in the
/// translucent pass.
pub fn is_opaque(t: &TriStrip) -> (r: bool)
    ensures
        r == opaque_spec(*t),
{
    t.transparency == 0 && t.flags & STRIP_ALT_TRANSPARENT == 0
}

/// How a strip is drawn. Strips of platforms whose strips are not wound
/// consistently are never culled.
pub fn strip_draw(t: &TriStrip, texture_flags: Option<u32>, platform: Platform) -> (r: Option<StripDraw>)
    ensures
        r == strip_draw_spec(*t, texture_flags, platform),
{
    if t.flags & STRIP_INVISIBLE != 0 {
        return None;
    }
    if let Some(f) = texture_flags {
        if f & TEXTURE_CUBEMAP != 0 {
            return None;
        }
    }
    let mut blend = if t.transparency == 2 {
        BlendMode::ReverseSubtract
    } else if t.transparency == 1 {
        BlendMode::Additive
    } else {
        BlendMode::Opaque
    };
    if (t.flags & STRIP_ALT_TRANSPARENT != 0 || t.flags & STRIP_BLENDED != 0) && blend == BlendMode::Opaque {
        blend = BlendMode::Blend;
    }
    if let Some(f) = texture_flags {
        if (f >> 29u32) & 3 != 0 && t.flags & STRIP_ALT_TRANSPARENT == 0 {
            blend = BlendMode::Cutout;
        }
    }
    let cull = t.flags & STRIP_DOUBLE_SIDED == 0 && match platform {
        Platform::Pc | Platform::Xbox => true,
        _ => false,
    };
    Some(StripDraw { blend, cull_back_faces: cull })
}

} // verus!
