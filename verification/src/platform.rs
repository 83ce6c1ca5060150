//! What the platform layer keeps for passes, views, draw calls, shaders,
//! textures and geometries.

use vstd::prelude::*;
use vstd::string::StringExecFns;

verus! {

/// The declarations that every vertex shader starts with.
pub const VERTEX_SHADER_HEAD: &'static str = "\n            precision highp float;\n            precision highp int;\n            vec4 sample2d(sampler2D sampler, vec2 pos){return texture2D(sampler, vec2(pos.x, 1.0-pos.y));}\n            mat4 transpose(mat4 m){return mat4(m[0][0],m[1][0],m[2][0],m[3][0],m[0][1],m[1][1],m[2][1],m[3][1],m[0][2],m[1][2],m[2][2],m[3][3], m[3][0], m[3][1], m[3][2], m[3][3]);}\n            mat3 transpose(mat3 m){return mat3(m[0][0],m[1][0],m[2][0],m[0][1],m[1][1],m[2][1],m[0][2],m[1][2],m[2][2]);}\n            mat2 transpose(mat2 m){return mat2(m[0][0],m[1][0],m[0][1],m[1][1]);}\n            ";

/// The declarations that every pixel shader starts with.
pub const PIXEL_SHADER_HEAD: &'static str = "\n            #extension GL_OES_standard_derivatives : enable\n            precision highp float;\n            precision highp int;\n            vec4 sample2d(sampler2D sampler, vec2 pos){return texture2D(sampler, vec2(pos.x, 1.0-pos.y));}\n            mat4 transpose(mat4 m){return mat4(m[0][0],m[1][0],m[2][0],m[3][0],m[0][1],m[1][1],m[2][1],m[3][1],m[0][2],m[1][2],m[2][2],m[3][3], m[3][0], m[3][1], m[3][2], m[3][3]);}\n            mat3 transpose(mat3 m){return mat3(m[0][0],m[1][0],m[2][0],m[0][1],m[1][1],m[2][1],m[0][2],m[1][2],m[2][2]);}\n            mat2 transpose(mat2 m){return mat2(m[0][0],m[1][0],m[0][1],m[1][1]);}\n            ";

#[derive(Clone, Debug, Default)]
pub struct CxPlatformPass {}

#[derive(Clone, Default)]
pub struct CxPlatformView {}

/// The buffers and the shader that a vertex array object was made for.
#[derive(Clone, Copy, PartialEq, Eq, Structural)]
pub struct CxPlatformDrawCallVao {
    pub vao_id: usize,
    pub shader_id: Option<usize>,
    pub inst_vb_id: Option<usize>,
    pub geom_vb_id: Option<usize>,
    pub geom_ib_id: Option<usize>,
}

#[derive(Clone, Copy)]
pub struct CxPlatformDrawCall {
    pub vao: Option<CxPlatformDrawCallVao>,
    pub inst_vb_id: Option<usize>,
}

/// The source of a compiled shader pair.
#[derive(Clone)]
pub struct CxPlatformDrawShader {
    pub vertex: String,
    pub pixel: String,
}

#[derive(Clone, Default)]
pub struct CxPlatformTexture {}

#[derive(Clone, Copy)]
pub struct CxPlatformGeometry {
    pub vb_id: Option<usize>,
    pub ib_id: Option<usize>,
}

impl CxPlatformDrawShader {
    /// The shader pair for a vertex and a pixel shader body: each body with
    /// the head of its kind before it.
    pub fn new(vertex: String, pixel: String) -> (r: CxPlatformDrawShader)
        ensures
            r.vertex@ == VERTEX_SHADER_HEAD@ + vertex@,
            r.pixel@ == PIXEL_SHADER_HEAD@ + pixel@,
    {
        let mut v: String = String::from_str(VERTEX_SHADER_HEAD);
        v.append(vertex.as_str());
        let mut p: String = String::from_str(PIXEL_SHADER_HEAD);
        p.append(pixel.as_str());
        CxPlatformDrawShader { vertex: v, pixel: p }
    }
}

/// The place of the first shader pair, from `from` on, with the given
/// sources.
pub open spec fn shader_index(
    shaders: Seq<CxPlatformDrawShader>,
    from: int,
    vertex: Seq<char>,
    pixel: Seq<char>,
) -> Option<int>
    decreases shaders.len() - from,
{
    if from < 0 || from >= shaders.len() {
        None
    } else if shaders[from].vertex@ == vertex && shaders[from].pixel@ == pixel {
        Some(from)
    } else {
        shader_index(shaders, from + 1, vertex, pixel)
    }
}

/// The place of the first shader pair whose sources are exactly the given
/// ones, head included.
pub fn find_draw_shader(shaders: &Vec<CxPlatformDrawShader>, vertex: &String, pixel: &String) -> (r:
    Option<usize>)
    ensures
        match r {
            Some(i) => i < shaders@.len() && shader_index(shaders@, 0, vertex@, pixel@) == Some(
                i as int,
            ),
            None => shader_index(shaders@, 0, vertex@, pixel@) is None,
        },
{
    let mut i: usize = 0;
    while i < shaders.len()
        invariant
            i <= shaders@.len(),
            shader_index(shaders@, i as int, vertex@, pixel@) == shader_index(
                shaders@,
                0,
                vertex@,
                pixel@,
            ),
        decreases shaders@.len() - i,
    {
        if shaders[i].vertex == *vertex && shaders[i].pixel == *pixel {
            return Some(i);
        }
        i += 1;
    }
    None
}

/// The place of the shader pair for two generated sources: that of a pair
/// kept already with exactly these sources, else that of a new pair, made
/// from the sources with the heads before them and kept at the end. The
/// second result tells whether the pair is new and has to be compiled.
pub fn draw_shader_for(shaders: &mut Vec<CxPlatformDrawShader>, vertex: String, pixel: String) -> (r:
    (usize, bool))
    ensures
        match shader_index(old(shaders)@, 0, vertex@, pixel@) {
            Some(i) => r == (i as usize, false) && final(shaders)@ == old(shaders)@,
            None => {
                &&& r == (old(shaders)@.len() as usize, true)
                &&& final(shaders)@.len() == old(shaders)@.len() + 1
                &&& final(shaders)@.drop_last() == old(shaders)@
                &&& final(shaders)@.last().vertex@ == VERTEX_SHADER_HEAD@ + vertex@
                &&& final(shaders)@.last().pixel@ == PIXEL_SHADER_HEAD@ + pixel@
            },
        },
{
    match find_draw_shader(shaders, &vertex, &pixel) {
        Some(i) => (i, false),
        None => {
            let at: usize = shaders.len();
            shaders.push(CxPlatformDrawShader::new(vertex, pixel));
            proof {
                assert(shaders@.drop_last() =~= old(shaders)@);
            }
            (at, true)
        },
    }
}

impl CxPlatformDrawCallVao {
    /// A vertex array object that is bound to nothing yet.
    pub fn new(vao_id: usize) -> (r: CxPlatformDrawCallVao)
        ensures
            r == (CxPlatformDrawCallVao {
                vao_id,
                shader_id: None,
                inst_vb_id: None,
                geom_vb_id: None,
                geom_ib_id: None,
            }),
    {
        CxPlatformDrawCallVao {
            vao_id,
            shader_id: None,
            inst_vb_id: None,
            geom_vb_id: None,
            geom_ib_id: None,
        }
    }

    /// Whether the object was made for this shader and these buffers.
    pub open spec fn spec_is_for(
        &self,
        shader_id: usize,
        inst_vb_id: Option<usize>,
        geometry: &CxPlatformGeometry,
    ) -> bool {
        &&& self.inst_vb_id == inst_vb_id
        &&& self.geom_vb_id == geometry.vb_id
        &&& self.geom_ib_id == geometry.ib_id
        &&& self.shader_id == Some(shader_id)
    }

    /// Whether the object was made for this shader and these buffers; if
    /// not, it has to be made anew before it is drawn with.
    #[verifier::when_used_as_spec(spec_is_for)]
    pub fn is_for(&self, shader_id: usize, inst_vb_id: Option<usize>, geometry: &CxPlatformGeometry)
        -> (r: bool)
        ensures
            r == self.spec_is_for(shader_id, inst_vb_id, geometry),
    {
        self.inst_vb_id == inst_vb_id && self.geom_vb_id == geometry.vb_id && self.geom_ib_id
            == geometry.ib_id && self.shader_id == Some(shader_id)
    }

    /// Binds the object to a shader and buffers.
    pub fn bind(&mut self, shader_id: usize, inst_vb_id: Option<usize>, geometry: &CxPlatformGeometry)
        ensures
            final(self).vao_id == old(self).vao_id,
            final(self).is_for(shader_id, inst_vb_id, geometry),
    {
        self.shader_id = Some(shader_id);
        self.inst_vb_id = inst_vb_id;
        self.geom_vb_id = geometry.vb_id;
        self.geom_ib_id = geometry.ib_id;
    }
}

} // verus!
