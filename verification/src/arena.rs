//! The arena: the memory that the engine and its host share.
//!
//! A pointer is a handle: the index of a region in the arena. A region is
//! reserved with a size, written and read within that size, and released once
//! with the same size. Handles are never reused, so a pointer that was
//! released stays dead, and every use of one is reported.
//!
//! The model of an arena is the sequence of its regions in the order in which
//! they were reserved: `Some` of the bytes of a live region, `None` for one
//! that was released.
use vstd::prelude::*;
use vstd::slice::slice_subrange;
use crate::error::Error;

verus! {

/// The regions reserved so far, live or released.
pub struct Arena {
    regions: Vec<Option<Vec<u8>>>,
}

/// The bytes of a region, if it is live.
pub open spec fn region_view(region: Option<Vec<u8>>) -> Option<Seq<u8>> {
    match region {
        Some(bytes) => Some(bytes@),
        None => None,
    }
}

impl View for Arena {
    type V = Seq<Option<Seq<u8>>>;

    closed spec fn view(&self) -> Seq<Option<Seq<u8>>> {
        Seq::new(self.regions@.len(), |i: int| region_view(self.regions@[i]))
    }
}

/// `ptr` names a region that was reserved and not yet released.
pub open spec fn is_live(memory: Seq<Option<Seq<u8>>>, ptr: int) -> bool {
    0 <= ptr < memory.len() && memory[ptr] is Some
}

/// The `len` bytes from `offset` on lie inside the live region `ptr`.
pub open spec fn in_bounds(memory: Seq<Option<Seq<u8>>>, ptr: int, offset: int, len: int) -> bool {
    &&& is_live(memory, ptr)
    &&& 0 <= offset
    &&& 0 <= len
    &&& offset + len <= memory[ptr]->0.len()
}

/// `ptr` may be released with size `len`: it is live and was reserved with
/// exactly that size.
pub open spec fn can_release(memory: Seq<Option<Seq<u8>>>, ptr: int, len: int) -> bool {
    is_live(memory, ptr) && memory[ptr]->0.len() == len
}

/// The content of a region that was just reserved.
pub open spec fn fresh_region(size: int) -> Seq<u8> {
    Seq::new(size as nat, |i: int| 0u8)
}

/// The arena after a region of `size` bytes was reserved: the new region comes
/// last, so its pointer is the number of regions before.
pub open spec fn after_alloc(memory: Seq<Option<Seq<u8>>>, size: int) -> Seq<Option<Seq<u8>>> {
    memory.push(Some(fresh_region(size)))
}

/// The arena after `ptr` was released.
pub open spec fn after_dealloc(memory: Seq<Option<Seq<u8>>>, ptr: int) -> Seq<Option<Seq<u8>>> {
    memory.update(ptr, None)
}

/// A region with `data` laid over it from `offset` on.
pub open spec fn overlaid(region: Seq<u8>, offset: int, data: Seq<u8>) -> Seq<u8> {
    Seq::new(
        region.len(),
        |i: int|
            if offset <= i < offset + data.len() {
                data[i - offset]
            } else {
                region[i]
            },
    )
}

/// The arena after `data` was written into region `ptr` from `offset` on.
pub open spec fn after_write(
    memory: Seq<Option<Seq<u8>>>,
    ptr: int,
    offset: int,
    data: Seq<u8>,
) -> Seq<Option<Seq<u8>>> {
    memory.update(ptr, Some(overlaid(memory[ptr]->0, offset, data)))
}

/// The round trip of a region: reserved with a size and written in full, it
/// holds what was written and is released with that size, and with no other.
/// Afterwards the arena is as before, but for the dead pointer.
pub proof fn lemma_alloc_round_trip(memory: Seq<Option<Seq<u8>>>, size: int, data: Seq<u8>)
    requires
        0 <= size,
        data.len() == size,
    ensures
        ({
            let ptr = memory.len() as int;
            let reserved = after_alloc(memory, size);
            let written = after_write(reserved, ptr, 0, data);
            &&& in_bounds(reserved, ptr, 0, size)
            &&& written == memory.push(Some(data))
            &&& can_release(written, ptr, size)
            &&& forall|other: int| other != size ==> !can_release(written, ptr, other)
            &&& after_dealloc(written, ptr) == memory.push(None)
        }),
{
    let ptr = memory.len() as int;
    let reserved = after_alloc(memory, size);
    let written = after_write(reserved, ptr, 0, data);
    assert(overlaid(fresh_region(size), 0, data) =~= data);
    assert(written =~= memory.push(Some(data)));
    assert(after_dealloc(written, ptr) =~= memory.push(None));
}

/// A released pointer is dead for good: it cannot be released again, read or
/// written, and no later reservation brings it back.
pub proof fn lemma_release_is_final(memory: Seq<Option<Seq<u8>>>, ptr: int, size: int)
    requires
        is_live(memory, ptr),
    ensures
        ({
            let released = after_dealloc(memory, ptr);
            &&& !is_live(released, ptr)
            &&& forall|len: int| !can_release(released, ptr, len)
            &&& forall|offset: int, len: int| !in_bounds(released, ptr, offset, len)
            &&& !is_live(after_alloc(released, size), ptr)
        }),
{
}

/// Reserving, writing and releasing touch one region: every other pointer
/// names what it named before.
pub proof fn lemma_other_regions_untouched(
    memory: Seq<Option<Seq<u8>>>,
    ptr: int,
    other: int,
    size: int,
    offset: int,
    data: Seq<u8>,
)
    requires
        is_live(memory, ptr),
        0 <= other < memory.len(),
        other != ptr,
    ensures
        after_alloc(memory, size)[other] == memory[other],
        after_write(memory, ptr, offset, data)[other] == memory[other],
        after_dealloc(memory, ptr)[other] == memory[other],
{
}

impl Arena {
    /// An arena in which nothing was reserved yet.
    pub fn new() -> (arena: Arena)
        ensures
            arena@ == Seq::<Option<Seq<u8>>>::empty(),
    {
        let arena = Arena { regions: Vec::new() };
        assert(arena@ =~= Seq::<Option<Seq<u8>>>::empty());
        arena
    }

    /// Reserves a region that holds exactly `bytes`.
    pub fn store(&mut self, bytes: Vec<u8>) -> (ptr: usize)
        ensures
            ptr == old(self)@.len(),
            final(self)@ == old(self)@.push(Some(bytes@)),
    {
        let ptr = self.regions.len();
        self.regions.push(Some(bytes));
        assert(self@ =~= old(self)@.push(Some(bytes@)));
        ptr
    }

    /// Writes `data` into region `ptr`, from `offset` on. Refused, with
    /// nothing written, unless the whole range lies inside the live region.
    pub fn write(&mut self, ptr: usize, offset: usize, data: &[u8]) -> (r: Result<(), Error>)
        ensures
            in_bounds(old(self)@, ptr as int, offset as int, data@.len() as int) ==> r is Ok
                && final(self)@ == after_write(old(self)@, ptr as int, offset as int, data@),
            !in_bounds(old(self)@, ptr as int, offset as int, data@.len() as int) ==> r == Err::<
                (),
                Error,
            >(Error::MemoryMisuse) && final(self)@ == old(self)@,
    {
        if ptr >= self.regions.len() {
            return Err(Error::MemoryMisuse);
        }
        let ghost before = self.regions@;
        match &mut self.regions[ptr] {
            Some(bytes) => {
                if offset > bytes.len() || data.len() > bytes.len() - offset {
                    return Err(Error::MemoryMisuse);
                }
                let ghost region = bytes@;
                let mut i: usize = 0;
                while i < data.len()
                    invariant
                        i <= data@.len(),
                        offset + data@.len() <= region.len() <= usize::MAX,
                        bytes@ == overlaid(region, offset as int, data@.take(i as int)),
                    decreases data@.len() - i,
                {
                    bytes[offset + i] = data[i];
                    assert(bytes@ =~= overlaid(region, offset as int, data@.take(i + 1)));
                    i += 1;
                }
                assert(data@.take(i as int) =~= data@);
            },
            None => {
                return Err(Error::MemoryMisuse);
            },
        }
        assert(self@ =~= after_write(old(self)@, ptr as int, offset as int, data@));
        Ok(())
    }

    /// The `len` bytes of region `ptr` from `offset` on. Refused unless the
    /// whole range lies inside the live region.
    pub fn read(&self, ptr: usize, offset: usize, len: usize) -> (r: Result<&[u8], Error>)
        ensures
            in_bounds(self@, ptr as int, offset as int, len as int) ==> r is Ok && r->Ok_0@
                == self@[ptr as int]->0.subrange(offset as int, offset + len),
            !in_bounds(self@, ptr as int, offset as int, len as int) ==> r == Err::<&[u8], Error>(
                Error::MemoryMisuse,
            ),
    {
        if ptr >= self.regions.len() {
            return Err(Error::MemoryMisuse);
        }
        match &self.regions[ptr] {
            Some(bytes) => {
                if offset > bytes.len() || len > bytes.len() - offset {
                    return Err(Error::MemoryMisuse);
                }
                Ok(slice_subrange(bytes.as_slice(), offset, offset + len))
            },
            None => Err(Error::MemoryMisuse),
        }
    }
}

/// Reserves `byte_size` bytes and returns the pointer to them. The region is
/// the caller's until it is released with `dealloc` and the same size. Refused
/// for a negative size.
pub fn allocate(arena: &mut Arena, byte_size: i32) -> (r: Result<usize, Error>)
    ensures
        byte_size >= 0 ==> r is Ok && r->Ok_0 == old(arena)@.len() && final(arena)@
            == after_alloc(old(arena)@, byte_size as int),
        byte_size < 0 ==> r == Err::<usize, Error>(Error::InvalidInput) && final(arena)@ == old(
            arena,
        )@,
{
    if byte_size < 0 {
        return Err(Error::InvalidInput);
    }
    let region = vec![0u8; byte_size as usize];
    assert(region@ =~= fresh_region(byte_size as int));
    Ok(arena.store(region))
}

/// Releases the region `ptr`, which must be live and have been reserved with
/// exactly `len` bytes. Any other call is reported and releases nothing.
pub fn dealloc(arena: &mut Arena, ptr: usize, len: i32) -> (r: Result<(), Error>)
    ensures
        can_release(old(arena)@, ptr as int, len as int) ==> r is Ok && final(arena)@
            == after_dealloc(old(arena)@, ptr as int),
        !can_release(old(arena)@, ptr as int, len as int) ==> r == Err::<(), Error>(
            Error::MemoryMisuse,
        ) && final(arena)@ == old(arena)@,
{
    if len < 0 || ptr >= arena.regions.len() {
        return Err(Error::MemoryMisuse);
    }
    let fits = match &arena.regions[ptr] {
        Some(bytes) => bytes.len() == len as usize,
        None => false,
    };
    if !fits {
        return Err(Error::MemoryMisuse);
    }
    arena.regions[ptr] = None;
    assert(arena@ =~= after_dealloc(old(arena)@, ptr as int));
    Ok(())
}

} // verus!
