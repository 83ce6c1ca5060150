//! The registry: it owns the documents, gives each a generation that every
//! new registration of the same module advances, and answers whether a pointer
//! still points into the document it was made for.

use vstd::prelude::*;
use crate::live_id::{LiveFileId, LiveId, LiveModuleId};
use crate::live_node::{node_end, LiveNode};
use crate::live_node_slice::{
    check_document, checked_skip_node, child_by_name, is_document, named_sibling,
};

verus! {

/// The most documents that a registry holds: as many as there are file ids.
pub const MAX_LIVE_FILES: usize = 0x1_0000;

/// A reference to a node of a document: the document, the index of the node,
/// and the generation that the document had when the pointer was made.
#[derive(Clone, Copy, Debug, PartialEq, Eq, Hash, Structural)]
pub struct LivePtr {
    pub file_id: LiveFileId,
    pub index: u32,
    pub generation: u64,
}

/// A document: the node stream of one module, and how often it was replaced.
pub struct LiveFile {
    pub module_id: LiveModuleId,
    pub generation: u64,
    pub nodes: Vec<LiveNode>,
}

/// Why a document was not registered.
#[derive(Clone, Copy, Debug, PartialEq, Eq, Structural)]
pub enum LiveRegistryError {
    /// The stream is no document: it is empty, does not start with an object,
    /// or the object does not end exactly where the stream ends.
    Malformed,
    /// Every file id is taken.
    TooManyFiles,
    /// The document's generation cannot be advanced any further.
    TooManyGenerations,
    /// The text spells no document.
    Unreadable,
}

pub struct LiveRegistry {
    pub live_files: Vec<LiveFile>,
    /// The document that is the root of the application, once one is chosen.
    pub main_module: Option<LiveFileId>,
}

/// The index of the first document, from `from` on, that holds `module_id`.
pub open spec fn file_of_module(files: Seq<LiveFile>, from: int, module_id: LiveModuleId) -> Option<
    int,
>
    decreases files.len() - from,
{
    if from < 0 || from >= files.len() {
        None
    } else if files[from].module_id == module_id {
        Some(from)
    } else {
        file_of_module(files, from + 1, module_id)
    }
}

proof fn lemma_file_of_module(files: Seq<LiveFile>, from: int, module_id: LiveModuleId)
    requires
        0 <= from,
    ensures
        match file_of_module(files, from, module_id) {
            Some(file) => from <= file < files.len() && files[file].module_id == module_id,
            None => forall|i: int| from <= i < files.len() ==> files[i].module_id != module_id,
        },
    decreases files.len() - from,
{
    if from < files.len() && files[from].module_id != module_id {
        lemma_file_of_module(files, from + 1, module_id);
    }
}

impl LiveRegistry {
    /// What every registry keeps: no more documents than file ids, every
    /// stream a document, no module twice, and a main module that exists.
    pub open spec fn wf(&self) -> bool {
        &&& self.live_files@.len() <= MAX_LIVE_FILES
        &&& forall|i: int|
            0 <= i < self.live_files@.len() ==> is_document(#[trigger] self.live_files@[i].nodes@)
        &&& forall|i: int, j: int|
            0 <= i < j < self.live_files@.len() ==> self.live_files@[i].module_id
                != self.live_files@[j].module_id
        &&& match self.main_module {
            Some(file_id) => file_id.to_index() < self.live_files@.len(),
            None => true,
        }
    }

    /// The document of a module, if the module is registered.
    pub open spec fn spec_module_id_to_file_id(&self, module_id: LiveModuleId) -> Option<int> {
        file_of_module(self.live_files@, 0, module_id)
    }

    /// A pointer is valid when its document exists and has the generation
    /// that the pointer was made with.
    pub open spec fn spec_generation_valid(&self, live_ptr: LivePtr) -> bool {
        &&& live_ptr.file_id.to_index() < self.live_files@.len()
        &&& self.live_files@[live_ptr.file_id.to_index() as int].generation == live_ptr.generation
    }

    /// The pointer to node `index` of a document, as made now.
    pub open spec fn spec_live_ptr(&self, file_id: LiveFileId, index: u32) -> LivePtr {
        LivePtr {
            file_id,
            index,
            generation: self.live_files@[file_id.to_index() as int].generation,
        }
    }

    /// `after` is this registry with the stream of document `file` replaced
    /// by `nodes` and its generation advanced by one.
    pub open spec fn replaced(&self, file: int, nodes: Vec<LiveNode>, after: &LiveRegistry) -> bool {
        &&& 0 <= file < self.live_files@.len()
        &&& after.live_files@ == self.live_files@.update(
            file,
            LiveFile {
                module_id: self.live_files@[file].module_id,
                generation: (self.live_files@[file].generation + 1) as u64,
                nodes,
            },
        )
        &&& self.live_files@[file].generation < u64::MAX
        &&& after.main_module == self.main_module
    }

    /// `after` is this registry with one more document, of generation 0.
    pub open spec fn added(
        &self,
        module_id: LiveModuleId,
        nodes: Vec<LiveNode>,
        after: &LiveRegistry,
    ) -> bool {
        &&& after.live_files@ == self.live_files@.push(LiveFile { module_id, generation: 0, nodes })
        &&& after.main_module == self.main_module
    }

    pub fn new() -> (r: LiveRegistry)
        ensures
            r.wf(),
            r.live_files@.len() == 0,
            r.main_module is None,
    {
        LiveRegistry { live_files: Vec::new(), main_module: None }
    }

    /// The document of a module, if the module is registered.
    pub fn module_id_to_file_id(&self, module_id: LiveModuleId) -> (r: Option<LiveFileId>)
        requires
            self.wf(),
        ensures
            match r {
                Some(file_id) => self.spec_module_id_to_file_id(module_id) == Some(
                    file_id.to_index() as int,
                ) && file_id.to_index() < self.live_files@.len()
                    && self.live_files@[file_id.to_index() as int].module_id == module_id,
                None => self.spec_module_id_to_file_id(module_id) is None,
            },
    {
        let mut i: usize = 0;
        while i < self.live_files.len()
            invariant
                i <= self.live_files@.len() <= MAX_LIVE_FILES,
                file_of_module(self.live_files@, i as int, module_id) == file_of_module(
                    self.live_files@,
                    0,
                    module_id,
                ),
            decreases self.live_files@.len() - i,
        {
            if self.live_files[i].module_id == module_id {
                return Some(LiveFileId::new(i));
            }
            i += 1;
        }
        None
    }

    /// The document with a file id.
    pub fn file_id_to_file(&self, file_id: LiveFileId) -> (r: &LiveFile)
        requires
            file_id.to_index() < self.live_files@.len(),
        ensures
            *r == self.live_files@[file_id.to_index() as int],
    {
        &self.live_files[file_id.to_index()]
    }

    /// Stores the stream `nodes` as the document of `module_id`. A module
    /// that is registered already keeps its file id: its stream is replaced
    /// and its generation advanced, so that the pointers made before are
    /// valid no longer, while the pointers into other documents stay as
    /// valid as they were. A new module gets the next file id and
    /// generation 0. A stream that is no document is refused, and nothing
    /// changes.
    pub fn register_nodes(&mut self, module_id: LiveModuleId, nodes: Vec<LiveNode>) -> (r: Result<
        LiveFileId,
        LiveRegistryError,
    >)
        requires
            old(self).wf(),
        ensures
            final(self).wf(),
            !is_document(nodes@) ==> r == Err::<LiveFileId, LiveRegistryError>(
                LiveRegistryError::Malformed,
            ),
            is_document(nodes@) ==> match old(self).spec_module_id_to_file_id(module_id) {
                Some(file) => if old(self).live_files@[file].generation == u64::MAX {
                    r == Err::<LiveFileId, LiveRegistryError>(LiveRegistryError::TooManyGenerations)
                } else {
                    r == Ok::<LiveFileId, LiveRegistryError>(LiveFileId(file as u16))
                },
                None => if old(self).live_files@.len() == MAX_LIVE_FILES {
                    r == Err::<LiveFileId, LiveRegistryError>(LiveRegistryError::TooManyFiles)
                } else {
                    r == Ok::<LiveFileId, LiveRegistryError>(
                        LiveFileId(old(self).live_files@.len() as u16),
                    )
                },
            },
            r is Err ==> *final(self) == *old(self),
            r matches Ok(file_id) ==> match old(self).spec_module_id_to_file_id(module_id) {
                Some(file) => old(self).replaced(file, nodes, final(self)),
                None => old(self).added(module_id, nodes, final(self)),
            },
            r matches Ok(file_id) ==> forall|live_ptr: LivePtr|
                old(self).generation_valid(live_ptr) ==> #[trigger] final(self).generation_valid(
                    live_ptr,
                ) == (live_ptr.file_id != file_id),
            r matches Ok(file_id) ==> forall|index: u32|
                final(self).generation_valid(#[trigger] final(self).spec_live_ptr(file_id, index)),
    {
        if !check_document(nodes.as_slice()) {
            return Err(LiveRegistryError::Malformed);
        }
        proof {
            lemma_file_of_module(self.live_files@, 0, module_id);
        }
        match self.module_id_to_file_id(module_id) {
            Some(file_id) => {
                let file: usize = file_id.to_index();
                let generation: u64 = self.live_files[file].generation;
                if generation == u64::MAX {
                    return Err(LiveRegistryError::TooManyGenerations);
                }
                self.live_files[file] = LiveFile { module_id, generation: generation + 1, nodes };
                Ok(file_id)
            },
            None => {
                let file: usize = self.live_files.len();
                if file == MAX_LIVE_FILES {
                    return Err(LiveRegistryError::TooManyFiles);
                }
                self.live_files.push(LiveFile { module_id, generation: 0, nodes });
                Ok(LiveFileId::new(file))
            },
        }
    }

    /// Whether a pointer still points into the document it was made for.
    #[verifier::when_used_as_spec(spec_generation_valid)]
    pub fn generation_valid(&self, live_ptr: LivePtr) -> (r: bool)
        ensures
            r == self.spec_generation_valid(live_ptr),
    {
        let file: usize = live_ptr.file_id.to_index();
        file < self.live_files.len() && self.live_files[file].generation == live_ptr.generation
    }

    /// The document that a valid pointer points into.
    pub fn ptr_to_doc(&self, live_ptr: LivePtr) -> (r: &LiveFile)
        requires
            self.generation_valid(live_ptr),
        ensures
            *r == self.live_files@[live_ptr.file_id.to_index() as int],
    {
        &self.live_files[live_ptr.file_id.to_index()]
    }

    /// A pointer to node `index` of a document, valid until the document is
    /// registered anew.
    pub fn file_id_index_to_live_ptr(&self, file_id: LiveFileId, index: usize) -> (r: LivePtr)
        requires
            file_id.to_index() < self.live_files@.len(),
            index <= u32::MAX,
        ensures
            r == self.spec_live_ptr(file_id, index as u32),
            self.generation_valid(r),
    {
        LivePtr {
            file_id,
            index: index as u32,
            generation: self.live_files[file_id.to_index()].generation,
        }
    }

    /// A pointer to the top-level object named `name` of the document of a
    /// module, if there is such a module and such an object, and the index
    /// of the object can be held in a pointer.
    pub fn module_id_and_name_to_ptr(&self, module_id: LiveModuleId, name: LiveId) -> (r: Option<
        LivePtr,
    >)
        requires
            self.wf(),
        ensures
            match self.spec_module_id_to_file_id(module_id) {
                Some(file) => match named_sibling(self.live_files@[file].nodes@, 1, name) {
                    Some(index) => if index <= u32::MAX {
                        r == Some(self.spec_live_ptr(LiveFileId(file as u16), index as u32))
                    } else {
                        r is None
                    },
                    None => r is None,
                },
                None => r is None,
            },
            r matches Some(live_ptr) ==> self.generation_valid(live_ptr) && node_end(
                self.live_files@[live_ptr.file_id.to_index() as int].nodes@,
                live_ptr.index as int,
            ) is Some,
    {
        match self.module_id_to_file_id(module_id) {
            Some(file_id) => {
                let file = self.file_id_to_file(file_id);
                match child_by_name(file.nodes.as_slice(), 0, name) {
                    Some(index) => {
                        if index <= u32::MAX as usize {
                            Some(self.file_id_index_to_live_ptr(file_id, index))
                        } else {
                            None
                        }
                    },
                    None => None,
                }
            },
            None => None,
        }
    }

    /// The stream of the document that a pointer points into, where the
    /// pointer is valid and a value starts at its index.
    pub fn ptr_to_nodes(&self, live_ptr: LivePtr) -> (r: Option<&[LiveNode]>)
        requires
            self.wf(),
        ensures
            match r {
                Some(nodes) => self.generation_valid(live_ptr) && nodes@
                    == self.live_files@[live_ptr.file_id.to_index() as int].nodes@ && node_end(
                    nodes@,
                    live_ptr.index as int,
                ) is Some,
                None => !self.generation_valid(live_ptr) || node_end(
                    self.live_files@[live_ptr.file_id.to_index() as int].nodes@,
                    live_ptr.index as int,
                ) is None,
            },
    {
        if !self.generation_valid(live_ptr) {
            return None;
        }
        let doc = self.ptr_to_doc(live_ptr);
        let nodes = doc.nodes.as_slice();
        match checked_skip_node(nodes, live_ptr.index as usize) {
            Some(_) => Some(nodes),
            None => None,
        }
    }

    /// Makes the document of a module the main module, if the module is
    /// registered; else the main module stays as it is.
    pub fn set_main_module(&mut self, module_id: LiveModuleId) -> (r: bool)
        requires
            old(self).wf(),
        ensures
            final(self).wf(),
            final(self).live_files == old(self).live_files,
            r == old(self).spec_module_id_to_file_id(module_id) is Some,
            match old(self).spec_module_id_to_file_id(module_id) {
                Some(file) => final(self).main_module == Some(LiveFileId(file as u16)),
                None => final(self).main_module == old(self).main_module,
            },
    {
        match self.module_id_to_file_id(module_id) {
            Some(file_id) => {
                self.main_module = Some(file_id);
                true
            },
            None => false,
        }
    }
}

/// Once a module is registered anew, no pointer that was valid for its
/// document before is valid any longer, and a pointer made afterwards is.
pub proof fn lemma_reregistered_pointers(
    before: LiveRegistry,
    after: LiveRegistry,
    file: int,
    nodes: Vec<LiveNode>,
    live_ptr: LivePtr,
    index: u32,
)
    requires
        before.replaced(file, nodes, &after),
        live_ptr.file_id.to_index() == file,
        before.generation_valid(live_ptr),
    ensures
        !after.generation_valid(live_ptr),
        after.generation_valid(after.spec_live_ptr(live_ptr.file_id, index)),
{
}

/// Registering one module leaves the pointers into the other documents as
/// valid as they were.
pub proof fn lemma_other_pointers_kept(
    before: LiveRegistry,
    after: LiveRegistry,
    file: int,
    nodes: Vec<LiveNode>,
    live_ptr: LivePtr,
)
    requires
        before.replaced(file, nodes, &after),
        live_ptr.file_id.to_index() != file,
    ensures
        after.generation_valid(live_ptr) == before.generation_valid(live_ptr),
{
}

/// Registering a module that was not registered before leaves every pointer
/// that was valid as valid as it was.
pub proof fn lemma_added_keeps_pointers(
    before: LiveRegistry,
    after: LiveRegistry,
    module_id: LiveModuleId,
    nodes: Vec<LiveNode>,
    live_ptr: LivePtr,
)
    requires
        before.added(module_id, nodes, &after),
        before.generation_valid(live_ptr),
    ensures
        after.generation_valid(live_ptr),
{
}

} // verus!
