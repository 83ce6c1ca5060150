//! The types that objects can be made of at run time: each type identifier
//! has a prototype, and a new object is a copy of the prototype of its type,
//! with the node applied that a pointer names.

use vstd::prelude::*;
use crate::cx::Cx;
use crate::live_data::{DataView, LiveData};
use crate::live_error::{extends, lemma_extends_refl};
use crate::live_id::LiveType;
use crate::live_registry::{LivePtr, LiveRegistry};
use crate::live_traits::{applied_from_ptr, from_ptr_impl};

verus! {

/// A type and what a new object of the type starts as.
pub struct LiveTypeEntry {
    pub live_type: LiveType,
    pub proto: LiveData,
}

pub struct LiveTypes {
    pub entries: Vec<LiveTypeEntry>,
}

/// The place of the first entry, from `from` on, for `live_type`.
pub open spec fn type_index(entries: Seq<LiveTypeEntry>, from: int, live_type: LiveType) -> Option<
    int,
>
    decreases entries.len() - from,
{
    if from < 0 || from >= entries.len() {
        None
    } else if entries[from].live_type == live_type {
        Some(from)
    } else {
        type_index(entries, from + 1, live_type)
    }
}

impl LiveTypes {
    pub fn new() -> (r: LiveTypes)
        ensures
            r.entries@.len() == 0,
    {
        LiveTypes { entries: Vec::new() }
    }

    /// What a new object of a type starts as, if the type is known.
    pub open spec fn spec_proto(&self, live_type: LiveType) -> Option<DataView> {
        match type_index(self.entries@, 0, live_type) {
            Some(i) => Some(self.entries@[i].proto@),
            None => None,
        }
    }

    fn find(&self, live_type: LiveType) -> (r: Option<usize>)
        ensures
            match r {
                Some(i) => i < self.entries@.len() && type_index(self.entries@, 0, live_type)
                    == Some(i as int) && self.entries@[i as int].live_type == live_type,
                None => type_index(self.entries@, 0, live_type) is None,
            },
    {
        let mut i: usize = 0;
        while i < self.entries.len()
            invariant
                i <= self.entries@.len(),
                type_index(self.entries@, i as int, live_type) == type_index(
                    self.entries@,
                    0,
                    live_type,
                ),
            decreases self.entries@.len() - i,
        {
            if self.entries[i].live_type == live_type {
                return Some(i);
            }
            i += 1;
        }
        None
    }

    /// Makes `proto` what a new object of `live_type` starts as, in place of
    /// what the type had before, if it had anything.
    pub fn register(&mut self, live_type: LiveType, proto: LiveData)
        ensures
            final(self).spec_proto(live_type) == Some(proto@),
            forall|other: LiveType|
                other != live_type ==> final(self).spec_proto(other) == old(self).spec_proto(other),
    {
        match self.find(live_type) {
            Some(i) => {
                self.entries[i].proto = proto;
                proof {
                    let before = old(self).entries@;
                    let after = self.entries@;
                    assert(after.len() == before.len());
                    assert forall|j: int| 0 <= j < before.len() implies (#[trigger] after[j]).live_type
                        == before[j].live_type by {}
                    assert forall|other: LiveType| other != live_type implies self.spec_proto(other)
                        == old(self).spec_proto(other) by {
                        lemma_type_index_update(before, after, 0, other);
                        match type_index(before, 0, other) {
                            Some(j) => {
                                assert(after[j] == before[j]);
                            },
                            None => {},
                        }
                    }
                    lemma_type_index_update(before, after, 0, live_type);
                }
            },
            None => {
                self.entries.push(LiveTypeEntry { live_type, proto });
                proof {
                    assert forall|other: LiveType| self.spec_proto(other) == if other == live_type {
                        Some(proto@)
                    } else {
                        old(self).spec_proto(other)
                    } by {
                        lemma_type_index_push(old(self).entries@, self.entries@.last(), 0, other);
                    }
                }
            },
        }
    }

    /// A new object of a type: a copy of the prototype of the type, or
    /// `None` where the type is not known.
    pub fn new_instance(&self, live_type: LiveType) -> (r: Option<LiveData>)
        ensures
            match r {
                Some(data) => self.spec_proto(live_type) == Some(data@),
                None => self.spec_proto(live_type) is None,
            },
    {
        match self.find(live_type) {
            Some(i) => Some(self.entries[i].proto.clone()),
            None => None,
        }
    }

    /// A new object of a type with the node applied that a pointer names,
    /// as new from the pointer's document. With no pointer, or one that
    /// cannot be followed, the object is the copy of the prototype as it
    /// stands. `None` where the type is not known, and then nothing
    /// happens.
    pub fn new_from_ptr(
        &self,
        cx: &mut Cx,
        registry: &LiveRegistry,
        live_type: LiveType,
        live_ptr: Option<LivePtr>,
    ) -> (r: Option<LiveData>)
        requires
            registry.wf(),
        ensures
            extends(final(cx).apply_errors@, old(cx).apply_errors@),
            match r {
                Some(data) => exists|fresh: LiveData|
                    {
                        &&& #[trigger] self.spec_proto(live_type) == Some(fresh@)
                        &&& match live_ptr {
                            Some(p) => applied_from_ptr(&fresh, old(cx), registry, p, &data, final(cx)),
                            None => data == fresh && *final(cx) == *old(cx),
                        }
                    },
                None => self.spec_proto(live_type) is None && *final(cx) == *old(cx),
            },
    {
        proof {
            lemma_extends_refl(cx.apply_errors@);
        }
        match self.new_instance(live_type) {
            Some(data) => {
                let mut data = data;
                let ghost fresh = data;
                if let Some(p) = live_ptr {
                    from_ptr_impl(&mut data, cx, registry, p);
                }
                proof {
                    assert(self.spec_proto(live_type) == Some(fresh@));
                }
                Some(data)
            },
            None => None,
        }
    }
}

proof fn lemma_type_index_update(
    before: Seq<LiveTypeEntry>,
    after: Seq<LiveTypeEntry>,
    from: int,
    live_type: LiveType,
)
    requires
        0 <= from,
        before.len() == after.len(),
        forall|i: int| 0 <= i < before.len() ==> (#[trigger] after[i]).live_type == before[i].live_type,
    ensures
        type_index(after, from, live_type) == type_index(before, from, live_type),
        type_index(before, from, live_type) matches Some(i) ==> from <= i < before.len()
            && before[i].live_type == live_type,
    decreases before.len() - from,
{
    if from < before.len() {
        assert(after[from].live_type == before[from].live_type);
        if before[from].live_type != live_type {
            lemma_type_index_update(before, after, from + 1, live_type);
        }
    }
}

proof fn lemma_type_index_push(
    entries: Seq<LiveTypeEntry>,
    entry: LiveTypeEntry,
    from: int,
    live_type: LiveType,
)
    requires
        0 <= from <= entries.len(),
    ensures
        type_index(entries.push(entry), from, live_type) == match type_index(
            entries,
            from,
            live_type,
        ) {
            Some(i) => Some(i),
            None => if entry.live_type == live_type {
                Some(entries.len() as int)
            } else {
                None
            },
        },
        type_index(entries, from, live_type) matches Some(i) ==> from <= i < entries.len(),
    decreases entries.len() - from,
{
    let pushed = entries.push(entry);
    if from < entries.len() {
        assert(pushed[from] == entries[from]);
        if entries[from].live_type != live_type {
            lemma_type_index_push(entries, entry, from + 1, live_type);
        }
    } else {
        assert(pushed[from] == entry);
        assert(type_index(pushed, from + 1, live_type) is None);
    }
}

} // verus!
