//! Identifiers: hashed names, file ids, module ids and type ids.

use vstd::prelude::*;
use vstd::string::StringSliceAdditionalSpecFns;

verus! {

/// The value a name hash starts from.
pub const LIVE_ID_SEED: u64 = 0xd6e8_feb8_6659_fd93;

/// The bit that marks an id made from a name with an upper-case first letter.
pub const LIVE_ID_CAPITALISED: u64 = 0x8000_0000_0000_0000;

/// A stable name, held as a 64-bit hash. The id 0 is the anonymous id.
#[derive(Clone, Copy, Debug, PartialEq, Eq, Hash, Structural)]
pub struct LiveId(pub u64);

/// One round of the name hash: mixes one byte into the running value.
pub open spec fn hash_step(x: u64, b: u8) -> u64 {
    let x1 = x.wrapping_add(b as u64);
    let x2 = x1 ^ (x1 >> 32);
    let x3 = x2.wrapping_mul(LIVE_ID_SEED);
    let x4 = x3 ^ (x3 >> 32);
    let x5 = x4.wrapping_mul(LIVE_ID_SEED);
    x5 ^ (x5 >> 32)
}

/// The running hash `x` after all of `bytes` were mixed in, first byte first.
pub open spec fn hash_fold(x: u64, bytes: Seq<u8>) -> u64
    decreases bytes.len(),
{
    if bytes.len() == 0 {
        x
    } else {
        hash_fold(hash_step(x, bytes[0]), bytes.drop_first())
    }
}

/// Whether a byte is an ASCII upper-case letter.
pub open spec fn is_upper(b: u8) -> bool {
    0x41 <= b <= 0x5a
}

/// The id of a name given by its bytes: 0 for the empty name, else the hash of
/// the bytes with the top bit set exactly for names that start upper-case.
pub open spec fn id_of_bytes(bytes: Seq<u8>) -> LiveId {
    if bytes.len() == 0 {
        LiveId(0)
    } else if is_upper(bytes[0]) {
        LiveId(hash_fold(LIVE_ID_SEED, bytes) | LIVE_ID_CAPITALISED)
    } else {
        LiveId(hash_fold(LIVE_ID_SEED, bytes) & !LIVE_ID_CAPITALISED)
    }
}

fn hash_round(x: u64, b: u8) -> (r: u64)
    ensures
        r == hash_step(x, b),
{
    let x1: u64 = x.wrapping_add(b as u64);
    let x2: u64 = x1 ^ (x1 >> 32);
    let x3: u64 = x2.wrapping_mul(LIVE_ID_SEED);
    let x4: u64 = x3 ^ (x3 >> 32);
    let x5: u64 = x4.wrapping_mul(LIVE_ID_SEED);
    x5 ^ (x5 >> 32)
}

impl LiveId {
    /// The anonymous id.
    pub fn empty() -> (r: LiveId)
        ensures
            r == LiveId(0),
    {
        LiveId(0)
    }

    pub open spec fn spec_is_empty(&self) -> bool {
        self.0 == 0
    }

    #[verifier::when_used_as_spec(spec_is_empty)]
    pub fn is_empty(&self) -> (r: bool)
        ensures
            r == self.spec_is_empty(),
    {
        self.0 == 0
    }

    pub open spec fn spec_is_capitalised(&self) -> bool {
        self.0 & LIVE_ID_CAPITALISED != 0
    }

    /// Whether the id was made from a name that starts with an upper-case
    /// letter: such names stand for class definitions.
    #[verifier::when_used_as_spec(spec_is_capitalised)]
    pub fn is_capitalised(&self) -> (r: bool)
        ensures
            r == self.spec_is_capitalised(),
    {
        self.0 & LIVE_ID_CAPITALISED != 0
    }

    /// The id of the name held in `bytes[start..end]`.
    pub fn from_bytes(bytes: &[u8], start: usize, end: usize) -> (r: LiveId)
        requires
            start <= end <= bytes@.len(),
        ensures
            r == id_of_bytes(bytes@.subrange(start as int, end as int)),
    {
        let ghost name = bytes@.subrange(start as int, end as int);
        if start == end {
            return LiveId(0);
        }
        let mut x: u64 = LIVE_ID_SEED;
        let mut i: usize = start;
        assert(name.skip(0) =~= name);
        while i < end
            invariant
                start <= i <= end <= bytes@.len(),
                name == bytes@.subrange(start as int, end as int),
                hash_fold(x, name.skip(i - start)) == hash_fold(LIVE_ID_SEED, name),
            decreases end - i,
        {
            proof {
                let rest = name.skip(i - start);
                assert(rest[0] == bytes@[i as int]);
                assert(rest.drop_first() =~= name.skip(i + 1 - start));
            }
            x = hash_round(x, bytes[i]);
            i += 1;
        }
        assert(name.skip(end - start).len() == 0);
        assert(name[0] == bytes@[start as int]);
        let first: u8 = bytes[start];
        if 0x41 <= first && first <= 0x5a {
            LiveId(x | LIVE_ID_CAPITALISED)
        } else {
            LiveId(x & !LIVE_ID_CAPITALISED)
        }
    }

    /// The id of a name.
    pub fn from_str(name: &str) -> (r: LiveId)
        ensures
            r == id_of_bytes(name.spec_bytes()),
    {
        let bytes = name.as_bytes();
        assert(bytes@.subrange(0, bytes@.len() as int) =~= bytes@);
        LiveId::from_bytes(bytes, 0, bytes.len())
    }
}

/// A name that starts upper-case gives a capitalised id, any other name does not.
pub proof fn lemma_capitalised_iff_upper_first(bytes: Seq<u8>)
    ensures
        id_of_bytes(bytes).is_capitalised() <==> (bytes.len() > 0 && is_upper(bytes[0])),
{
    let h = hash_fold(LIVE_ID_SEED, bytes);
    assert((h | 0x8000_0000_0000_0000u64) & 0x8000_0000_0000_0000u64 != 0) by (bit_vector);
    assert((h & !0x8000_0000_0000_0000u64) & 0x8000_0000_0000_0000u64 == 0) by (bit_vector);
    assert(0u64 & 0x8000_0000_0000_0000u64 == 0) by (bit_vector);
}

/// The number of a document in the registry.
#[derive(Clone, Copy, Debug, PartialEq, Eq, Hash, Structural)]
pub struct LiveFileId(pub u16);

impl LiveFileId {
    pub fn new(index: usize) -> (r: LiveFileId)
        requires
            index <= u16::MAX,
        ensures
            r.0 == index,
    {
        LiveFileId(index as u16)
    }

    pub open spec fn spec_to_index(&self) -> usize {
        self.0 as usize
    }

    #[verifier::when_used_as_spec(spec_to_index)]
    pub fn to_index(&self) -> (r: usize)
        ensures
            r == self.spec_to_index(),
    {
        self.0 as usize
    }
}

/// The name of a module: the id of its crate and the id of its path in the crate.
#[derive(Clone, Copy, Debug, PartialEq, Eq, Hash, Structural)]
pub struct LiveModuleId(pub LiveId, pub LiveId);

/// The position of the first `:` in `bytes` at or after `from`, or the length
/// of `bytes` where there is none.
pub open spec fn first_colon(bytes: Seq<u8>, from: int) -> int
    decreases bytes.len() - from,
{
    if from < 0 || from >= bytes.len() {
        bytes.len() as int
    } else if bytes[from] == 0x3a {
        from
    } else {
        first_colon(bytes, from + 1)
    }
}

/// The module id that a path such as `crate::module` names. A path without
/// `:` names a module of the anonymous crate.
pub open spec fn module_id_of_bytes(bytes: Seq<u8>) -> LiveModuleId {
    let colon = first_colon(bytes, 0);
    if colon >= bytes.len() {
        LiveModuleId(LiveId(0), id_of_bytes(bytes))
    } else if colon + 2 >= bytes.len() {
        LiveModuleId(id_of_bytes(bytes.subrange(0, colon)), LiveId(0))
    } else {
        LiveModuleId(
            id_of_bytes(bytes.subrange(0, colon)),
            id_of_bytes(bytes.subrange(colon + 2, bytes.len() as int)),
        )
    }
}

impl LiveModuleId {
    /// Reads a module path: what stands before the first `::` names the crate,
    /// what follows it names the module.
    pub fn from_str(path: &str) -> (r: LiveModuleId)
        ensures
            r == module_id_of_bytes(path.spec_bytes()),
    {
        let bytes = path.as_bytes();
        let len: usize = bytes.len();
        let mut i: usize = 0;
        while i < len && bytes[i] != 0x3a
            invariant
                0 <= i <= len == bytes@.len(),
                first_colon(bytes@, 0) == first_colon(bytes@, i as int),
            decreases len - i,
        {
            i += 1;
        }
        if i == len {
            assert(bytes@.subrange(0, len as int) =~= bytes@);
            return LiveModuleId(LiveId(0), LiveId::from_bytes(bytes, 0, len));
        }
        let crate_id = LiveId::from_bytes(bytes, 0, i);
        if len - i <= 2 {
            return LiveModuleId(crate_id, LiveId(0));
        }
        LiveModuleId(crate_id, LiveId::from_bytes(bytes, i + 2, len))
    }
}

/// An opaque identifier of a runtime type.
#[derive(Clone, Copy, Debug, PartialEq, Eq, Hash, Structural)]
pub struct LiveType(pub u64);

} // verus!
