//! Textures: what is asked of one, and the handle that an object holds.

use vstd::prelude::*;
use vstd::string::StringSliceAdditionalSpecFns;
use crate::cx::Cx;
use crate::live_error::{
    error_at, lemma_extends_add, lemma_extends_refl, LiveError,
    LiveErrorKind,
};
use crate::live_id::{id_of_bytes, module_id_of_bytes, LiveId, LiveModuleId, LiveType};
use crate::live_node::{lemma_node_end_bounds, node_end, scope_end, LiveNode};
use crate::live_node_slice::{lemma_scope_step, skip_node};
use crate::live_traits::{
    unknown_field_errors, ApplyFrom, LiveApply, LiveHook, LiveNew, LiveTypeInfo,
};
use crate::platform::CxPlatformTexture;

verus! {

#[derive(Clone, Copy, Debug, PartialEq, Eq, Structural)]
pub enum TextureFormat {
    Default,
    ImageBGRA,
    Depth32Stencil8,
    RenderBGRA,
    RenderBGRAf16,
    RenderBGRAf32,
}

/// What is asked of a texture: its format and, where they are fixed, its
/// size and the number of samples.
#[derive(Clone, Copy, Debug, PartialEq, Eq, Structural)]
pub struct TextureDesc {
    pub format: TextureFormat,
    pub width: Option<usize>,
    pub height: Option<usize>,
    pub multisample: Option<usize>,
}

impl Default for TextureDesc {
    fn default() -> (r: TextureDesc)
        ensures
            r == (TextureDesc {
                format: TextureFormat::Default,
                width: None,
                height: None,
                multisample: None,
            }),
    {
        TextureDesc { format: TextureFormat::Default, width: None, height: None, multisample: None }
    }
}

/// What the context keeps for one texture.
pub struct CxTexture {
    pub desc: TextureDesc,
    pub image_u32: Vec<u32>,
    pub update_image: bool,
    pub platform: CxPlatformTexture,
}

impl Default for CxTexture {
    fn default() -> (r: CxTexture)
        ensures
            r.desc == (TextureDesc {
                format: TextureFormat::Default,
                width: None,
                height: None,
                multisample: None,
            }),
            r.image_u32@.len() == 0,
            !r.update_image,
    {
        CxTexture {
            desc: TextureDesc::default(),
            image_u32: Vec::new(),
            update_image: false,
            platform: CxPlatformTexture {  },
        }
    }
}

/// The handle of a texture that the context keeps.
#[derive(Debug, PartialEq, Eq)]
pub struct Texture {
    pub texture_id: usize,
}

/// Reading and writing what is asked of a texture.
pub trait TextureCx {
    /// Whether the context keeps the texture. As it stands, every context
    /// is taken to.
    open spec fn has_texture(&self, cx: &Cx) -> bool {
        true
    }

    /// Whether `desc` is what the context has been asked of the texture. As
    /// it stands, nothing is said.
    open spec fn has_desc(&self, cx: &Cx, desc: TextureDesc) -> bool {
        true
    }

    fn set_desc(&mut self, cx: &mut Cx, desc: TextureDesc)
        requires
            old(self).has_texture(old(cx)),
        ensures
            final(self).has_texture(final(cx)),
            final(self).has_desc(final(cx), desc),
    ;

    fn get_desc(&self, cx: &mut Cx) -> (r: TextureDesc)
        requires
            self.has_texture(old(cx)),
        ensures
            self.has_desc(old(cx), r),
            *final(cx) == *old(cx),
    ;
}

impl TextureCx for Texture {
    open spec fn has_texture(&self, cx: &Cx) -> bool {
        self.texture_id < cx.textures@.len()
    }

    open spec fn has_desc(&self, cx: &Cx, desc: TextureDesc) -> bool {
        cx.textures@[self.texture_id as int].desc == desc
    }

    fn set_desc(&mut self, cx: &mut Cx, desc: TextureDesc)
        ensures
            *final(self) == *old(self),
            final(cx).textures@.len() == old(cx).textures@.len(),
            final(cx).textures@[old(self).texture_id as int].image_u32
                == old(cx).textures@[old(self).texture_id as int].image_u32,
            final(cx).textures@[old(self).texture_id as int].update_image
                == old(cx).textures@[old(self).texture_id as int].update_image,
            forall|i: int|
                0 <= i < old(cx).textures@.len() && i != old(self).texture_id ==> final(cx).textures@[i]
                    == old(cx).textures@[i],
            final(cx).apply_errors == old(cx).apply_errors,
            final(cx).textures_free == old(cx).textures_free,
            final(cx).actions == old(cx).actions,
            final(cx).id_names == old(cx).id_names,
            final(cx).textures_wf() == old(cx).textures_wf(),
    {
        cx.textures[self.texture_id].desc = desc;
    }

    fn get_desc(&self, cx: &mut Cx) -> (r: TextureDesc) {
        cx.textures[self.texture_id].desc
    }
}

/// The diagnostics for the children of a scope from `index` on, of which a
/// texture takes none: for each child what is due for a node that no field
/// takes, in the order of the stream. A child whose name is capitalised or
/// was written with a prefix is passed over in silence.
pub open spec fn no_field_errors(nodes: Seq<LiveNode>, index: int) -> Seq<LiveError>
    decreases nodes.len() - index,
{
    if index < 0 || index >= nodes.len() || nodes[index].value.is_close() {
        Seq::empty()
    } else {
        match node_end(nodes, index) {
            Some(next) => if index < next <= nodes.len() {
                unknown_field_errors(nodes, index) + no_field_errors(nodes, next)
            } else {
                Seq::empty()
            },
            None => Seq::empty(),
        }
    }
}

/// The diagnostics for a node applied to a texture, which has no fields: one
/// for a node that opens no object, else what is due for each child of the
/// object.
pub open spec fn texture_errors(nodes: Seq<LiveNode>, index: int) -> Seq<LiveError> {
    if !nodes[index].value.is_structy_type() {
        seq![error_at(LiveErrorKind::WrongTypeForStruct, nodes, index)]
    } else {
        no_field_errors(nodes, index + 1)
    }
}

impl LiveHook for Texture {
}

impl LiveApply for Texture {
    open spec fn applied(
        &self,
        cx: &Cx,
        from: ApplyFrom,
        index: int,
        nodes: Seq<LiveNode>,
        after: &Self,
        cx_after: &Cx,
    ) -> bool {
        *after == *self && cx_after.errors_added(cx, texture_errors(nodes, index))
    }

    fn apply(
        &mut self,
        cx: &mut Cx,
        apply_from: ApplyFrom,
        start_index: usize,
        nodes: &[LiveNode],
    ) -> (next: usize) {
        let len: usize = nodes.len();
        proof {
            lemma_node_end_bounds(nodes@, start_index as int);
            lemma_node_end_bounds(nodes@, start_index + 1);
        }
        if !nodes[start_index].value.is_structy_type() {
            proof {
                lemma_extends_add(cx.apply_errors@, texture_errors(nodes@, start_index as int));
            }
            cx.apply_error_wrong_type_for_struct(start_index, nodes);
            return skip_node(nodes, start_index);
        }
        let mut index: usize = start_index + 1;
        let ghost mut done: Seq<LiveError> = Seq::empty();
        loop
            invariant_except_break
                len == nodes@.len(),
                start_index < index < len,
                scope_end(nodes@, index as int) is Some,
                scope_end(nodes@, index as int) == node_end(nodes@, start_index as int),
                cx.errors_added(old(cx), done),
                done + no_field_errors(nodes@, index as int) == no_field_errors(
                    nodes@,
                    start_index + 1,
                ),
            ensures
                node_end(nodes@, start_index as int) == Some(index as int),
                cx.errors_added(old(cx), no_field_errors(nodes@, start_index + 1)),
            decreases len - index,
        {
            if index >= len || nodes[index].value.is_close() {
                proof {
                    assert(no_field_errors(nodes@, index as int) =~= Seq::<LiveError>::empty());
                    assert(done + Seq::<LiveError>::empty() =~= done);
                }
                index += 1;
                break ;
            }
            proof {
                lemma_scope_step(nodes@, index as int);
                lemma_node_end_bounds(nodes@, node_end(nodes@, index as int).unwrap());
                let next = node_end(nodes@, index as int).unwrap();
                let here = unknown_field_errors(nodes@, index as int);
                assert(no_field_errors(nodes@, index as int) == here + no_field_errors(
                    nodes@,
                    next,
                ));
                assert((done + here) + no_field_errors(nodes@, next) =~= done + (here
                    + no_field_errors(nodes@, next)));
                assert(done + Seq::<LiveError>::empty() =~= done);
                done = done + here;
            }
            if !nodes[index].id.is_capitalised() && !nodes[index].origin.node_has_prefix() {
                cx.apply_error_no_matching_field(index, nodes);
            }
            index = skip_node(nodes, index);
        }
        proof {
            lemma_extends_add(old(cx).apply_errors@, no_field_errors(nodes@, start_index + 1));
        }
        index
    }
}

impl LiveNew for Texture {
    /// A new texture takes the place that was given up last, if one was,
    /// else a new place at the end, with nothing asked of it yet.
    open spec fn made(cx: &Cx, made: &Self, cx_after: &Cx) -> bool {
        &&& cx_after.apply_errors == cx.apply_errors
        &&& cx_after.actions == cx.actions
        &&& cx_after.id_names == cx.id_names
        &&& if cx.textures_free@.len() > 0 {
            &&& made.texture_id == cx.textures_free@.last()
            &&& cx_after.textures_free@ == cx.textures_free@.drop_last()
            &&& cx_after.textures == cx.textures
        } else {
            &&& made.texture_id == cx.textures@.len()
            &&& cx_after.textures_free@ == cx.textures_free@
            &&& cx_after.textures@.len() == cx.textures@.len() + 1
            &&& cx_after.textures@.drop_last() == cx.textures@
            &&& cx_after.textures@.last().desc == (TextureDesc {
                format: TextureFormat::Default,
                width: None,
                height: None,
                multisample: None,
            })
            &&& cx_after.textures@.last().image_u32@.len() == 0
            &&& !cx_after.textures@.last().update_image
        }
    }

    fn new(cx: &mut Cx) -> (r: Self)
        ensures
            old(cx).textures_wf() ==> final(cx).textures_wf() && r.has_texture(final(cx)),
    {
        proof {
            lemma_extends_refl(cx.apply_errors@);
        }
        let texture_id: usize = if let Some(texture_id) = cx.textures_free.pop() {
            proof {
                assert(cx.textures_free@ =~= old(cx).textures_free@.drop_last());
            }
            texture_id
        } else {
            let texture_id: usize = cx.textures.len();
            cx.textures.push(CxTexture::default());
            proof {
                assert(cx.textures@.drop_last() =~= old(cx).textures@);
            }
            texture_id
        };
        Self { texture_id }
    }

    fn live_type_info(_cx: &mut Cx) -> (r: LiveTypeInfo)
        ensures
            *final(_cx) == *old(_cx),
            r.name == id_of_bytes("Texture".spec_bytes()),
            r.live_type == LiveType(r.name.0),
            r.module_id == module_id_of_bytes("live_runtime::texture".spec_bytes()),
            r.fields@.len() == 0,
    {
        proof {
            lemma_extends_refl(_cx.apply_errors@);
        }
        let name = LiveId::from_str("Texture");
        LiveTypeInfo {
            live_type: LiveType(name.0),
            name,
            module_id: LiveModuleId::from_str("live_runtime::texture"),
            fields: Vec::new(),
        }
    }
}

impl Texture {
    /// Gives the texture up: its place can be handed out again. Giving up
    /// a texture that the context holds leaves the context in order.
    pub fn release(self, cx: &mut Cx)
        ensures
            final(cx).textures_free@ == old(cx).textures_free@.push(self.texture_id),
            final(cx).textures == old(cx).textures,
            final(cx).apply_errors == old(cx).apply_errors,
            final(cx).actions == old(cx).actions,
            final(cx).id_names == old(cx).id_names,
            old(cx).textures_wf() && self.has_texture(old(cx)) ==> final(cx).textures_wf(),
    {
        cx.textures_free.push(self.texture_id);
    }
}

/// A texture made in a context that is in order is one that the context
/// holds afterwards, whether its place is new or was given up before, and
/// the context stays in order.
pub proof fn lemma_made_texture_is_held(cx: Cx, made: Texture, cx_after: Cx)
    requires
        cx.textures_wf(),
        Texture::made(&cx, &made, &cx_after),
    ensures
        cx_after.textures_wf(),
        made.has_texture(&cx_after),
{
    if cx.textures_free@.len() > 0 {
        assert(cx.textures_free@[cx.textures_free@.len() - 1] < cx.textures@.len());
        assert forall|i: int| 0 <= i < cx_after.textures_free@.len() implies (
        #[trigger] cx_after.textures_free@[i]) < cx_after.textures@.len() by {
            assert(cx_after.textures_free@[i] == cx.textures_free@[i]);
        }
    } else {
        assert(cx_after.textures_free@.len() == 0);
    }
}

} // verus!
