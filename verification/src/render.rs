//! What drawing a pass decides before anything is sent to the graphics
//! device: which colour and depth a target is cleared with, which scale a
//! pass has, and which buffers a draw call and a geometry get.

use vstd::prelude::*;
use crate::live_float::LiveFloat;
use crate::platform::{CxPlatformDrawCall, CxPlatformDrawCallVao, CxPlatformGeometry};

verus! {

/// A colour, by its four channels.
#[derive(Clone, Copy, Debug, PartialEq, Eq, Structural)]
pub struct Vec4 {
    pub x: LiveFloat,
    pub y: LiveFloat,
    pub z: LiveFloat,
    pub w: LiveFloat,
}

/// How a colour target is cleared: once, when it is made, or before every
/// drawing.
#[derive(Clone, Copy, Debug, PartialEq, Eq, Structural)]
pub enum PassClearColor {
    InitWith(Vec4),
    ClearWith(Vec4),
}

/// How a depth target is cleared: once, when it is made, or before every
/// drawing.
#[derive(Clone, Copy, Debug, PartialEq, Eq, Structural)]
pub enum PassClearDepth {
    InitWith(LiveFloat),
    ClearWith(LiveFloat),
}

/// A texture that a pass draws its colours to.
#[derive(Clone, Copy, Debug, PartialEq, Eq, Structural)]
pub struct CxPassColorTexture {
    pub clear_color: PassClearColor,
    pub texture_id: usize,
}

/// A colour target as the graphics device is told of it.
#[derive(Clone, Copy, Debug, PartialEq, Eq, Structural)]
pub struct ColorTarget {
    pub texture_id: usize,
    pub init_only: bool,
    pub clear_color: Vec4,
}

/// A depth target as the graphics device is told of it.
#[derive(Clone, Copy, Debug, PartialEq, Eq, Structural)]
pub struct DepthTarget {
    pub texture_id: usize,
    pub init_only: bool,
    pub clear_depth: LiveFloat,
}

/// The colour that a clear mode names.
pub open spec fn color_of(clear: PassClearColor) -> Vec4 {
    match clear {
        PassClearColor::InitWith(color) => color,
        PassClearColor::ClearWith(color) => color,
    }
}

/// The depth that a clear mode names.
pub open spec fn depth_of(clear: PassClearDepth) -> LiveFloat {
    match clear {
        PassClearDepth::InitWith(depth) => depth,
        PassClearDepth::ClearWith(depth) => depth,
    }
}

/// The colour that the canvas is cleared with for a pass: that of the first
/// colour texture of the pass, or the pass's own where it has none.
pub fn canvas_clear_color(own: Vec4, color_textures: &Vec<CxPassColorTexture>) -> (r: Vec4)
    ensures
        r == if color_textures@.len() == 0 {
            own
        } else {
            color_of(color_textures@[0].clear_color)
        },
{
    if color_textures.len() == 0 {
        own
    } else {
        match color_textures[0].clear_color {
            PassClearColor::InitWith(color) => color,
            PassClearColor::ClearWith(color) => color,
        }
    }
}

/// The depth that the canvas is cleared with for a pass.
pub fn canvas_clear_depth(clear_depth: PassClearDepth) -> (r: LiveFloat)
    ensures
        r == depth_of(clear_depth),
{
    match clear_depth {
        PassClearDepth::InitWith(depth) => depth,
        PassClearDepth::ClearWith(depth) => depth,
    }
}

/// The colour target for a colour texture of a pass: it is cleared once
/// only where the texture asks to be initialised.
pub fn color_target(color_texture: &CxPassColorTexture) -> (r: ColorTarget)
    ensures
        r == (ColorTarget {
            texture_id: color_texture.texture_id,
            init_only: color_texture.clear_color is InitWith,
            clear_color: color_of(color_texture.clear_color),
        }),
{
    match color_texture.clear_color {
        PassClearColor::InitWith(clear_color) => ColorTarget {
            texture_id: color_texture.texture_id,
            init_only: true,
            clear_color,
        },
        PassClearColor::ClearWith(clear_color) => ColorTarget {
            texture_id: color_texture.texture_id,
            init_only: false,
            clear_color,
        },
    }
}

/// The depth target for the depth texture of a pass.
pub fn depth_target(depth_texture_id: usize, clear_depth: PassClearDepth) -> (r: DepthTarget)
    ensures
        r == (DepthTarget {
            texture_id: depth_texture_id,
            init_only: clear_depth is InitWith,
            clear_depth: depth_of(clear_depth),
        }),
{
    match clear_depth {
        PassClearDepth::InitWith(clear_depth) => DepthTarget {
            texture_id: depth_texture_id,
            init_only: true,
            clear_depth,
        },
        PassClearDepth::ClearWith(clear_depth) => DepthTarget {
            texture_id: depth_texture_id,
            init_only: false,
            clear_depth,
        },
    }
}

/// The scale that a pass is drawn with: its own where it has one, else the
/// one that it inherits.
pub fn pass_dpi_factor(override_dpi_factor: Option<LiveFloat>, inherit_dpi_factor: LiveFloat) -> (r:
    LiveFloat)
    ensures
        r == match override_dpi_factor {
            Some(dpi_factor) => dpi_factor,
            None => inherit_dpi_factor,
        },
{
    if let Some(override_dpi_factor) = override_dpi_factor {
        override_dpi_factor
    } else {
        inherit_dpi_factor
    }
}

/// The numbers that were handed out last for vertex buffers, index buffers
/// and vertex array objects.
#[derive(Clone, Copy, Debug, PartialEq, Eq, Structural)]
pub struct BufferCounters {
    pub vertex_buffers: usize,
    pub index_buffers: usize,
    pub vaos: usize,
}

impl BufferCounters {
    /// Gives a draw call its instance buffer, if it has none. Returns
    /// whether the instances have to be sent: they are dirty, or the buffer
    /// is new.
    pub fn prepare_instances(&mut self, draw_call: &mut CxPlatformDrawCall, instance_dirty: bool) -> (r:
        bool)
        requires
            old(self).vertex_buffers < usize::MAX,
        ensures
            r == (instance_dirty || old(draw_call).inst_vb_id is None),
            final(draw_call).vao == old(draw_call).vao,
            final(draw_call).inst_vb_id == match old(draw_call).inst_vb_id {
                Some(id) => Some(id),
                None => Some(old(self).vertex_buffers),
            },
            *final(self) == if old(draw_call).inst_vb_id is None {
                BufferCounters { vertex_buffers: (old(self).vertex_buffers + 1) as usize, ..*old(self) }
            } else {
                *old(self)
            },
    {
        if instance_dirty || draw_call.inst_vb_id.is_none() {
            if draw_call.inst_vb_id.is_none() {
                draw_call.inst_vb_id = Some(self.vertex_buffers);
                self.vertex_buffers += 1;
            }
            true
        } else {
            false
        }
    }

    /// Gives a geometry its vertex and index buffers, as far as it has
    /// none. Returns whether the geometry has to be sent: it is dirty, or a
    /// buffer is new.
    pub fn prepare_geometry(&mut self, geometry: &mut CxPlatformGeometry, dirty: bool) -> (r: bool)
        requires
            old(self).vertex_buffers < usize::MAX,
            old(self).index_buffers < usize::MAX,
        ensures
            r == (dirty || old(geometry).vb_id is None || old(geometry).ib_id is None),
            final(geometry).vb_id == match old(geometry).vb_id {
                Some(id) => Some(id),
                None => if r {
                    Some(old(self).vertex_buffers)
                } else {
                    None
                },
            },
            final(geometry).ib_id == match old(geometry).ib_id {
                Some(id) => Some(id),
                None => if r {
                    Some(old(self).index_buffers)
                } else {
                    None
                },
            },
            final(self).vaos == old(self).vaos,
            final(self).vertex_buffers == if old(geometry).vb_id is None {
                old(self).vertex_buffers + 1
            } else {
                old(self).vertex_buffers as int
            },
            final(self).index_buffers == if old(geometry).ib_id is None {
                old(self).index_buffers + 1
            } else {
                old(self).index_buffers as int
            },
    {
        if dirty || geometry.vb_id.is_none() || geometry.ib_id.is_none() {
            if geometry.vb_id.is_none() {
                geometry.vb_id = Some(self.vertex_buffers);
                self.vertex_buffers += 1;
            }
            if geometry.ib_id.is_none() {
                geometry.ib_id = Some(self.index_buffers);
                self.index_buffers += 1;
            }
            true
        } else {
            false
        }
    }

    /// Gives a draw call its vertex array object, if it has none, and binds
    /// the object to the shader and the buffers of the call unless it is
    /// bound to them already. Returns whether the object was bound anew and
    /// has to be sent.
    pub fn prepare_vao(
        &mut self,
        draw_call: &mut CxPlatformDrawCall,
        shader_id: usize,
        geometry: &CxPlatformGeometry,
    ) -> (r: bool)
        requires
            old(self).vaos < usize::MAX,
        ensures
            final(draw_call).inst_vb_id == old(draw_call).inst_vb_id,
            final(draw_call).vao is Some,
            final(draw_call).vao.unwrap().is_for(shader_id, old(draw_call).inst_vb_id, geometry),
            final(draw_call).vao.unwrap().vao_id == match old(draw_call).vao {
                Some(vao) => vao.vao_id,
                None => old(self).vaos,
            },
            r == match old(draw_call).vao {
                Some(vao) => !vao.is_for(shader_id, old(draw_call).inst_vb_id, geometry),
                None => true,
            },
            *final(self) == if old(draw_call).vao is None {
                BufferCounters { vaos: (old(self).vaos + 1) as usize, ..*old(self) }
            } else {
                *old(self)
            },
    {
        let mut vao = match draw_call.vao {
            Some(vao) => vao,
            None => {
                let vao = CxPlatformDrawCallVao::new(self.vaos);
                self.vaos += 1;
                vao
            },
        };
        let stale: bool = !vao.is_for(shader_id, draw_call.inst_vb_id, geometry);
        if stale {
            vao.bind(shader_id, draw_call.inst_vb_id, geometry);
        }
        draw_call.vao = Some(vao);
        stale
    }
}

} // verus!
