//! Scratch memory for one call, and the memory that a decoder reads.
use crate::layout::{align_up, lemma_align_up, round_up_to, valid_align, MAX_LAYOUT_SIZE};
use vstd::prelude::*;

verus! {

/// `count` zero bytes.
pub open spec fn zeros(count: int) -> Seq<u8> {
    Seq::new(count as nat, |i: int| 0u8)
}

/// `image` with the bytes from `offset` on replaced by `part`.
pub open spec fn place(image: Seq<u8>, offset: int, part: Seq<u8>) -> Seq<u8> {
    image.subrange(0, offset) + part + image.subrange(offset + part.len(), image.len() as int)
}

/// The contents of an [`Arena`]: where it lies, how far it may grow, and what
/// has been stored in it.
pub struct ScratchView {
    /// Address of the first byte.
    pub base: u64,
    /// Number of bytes that the arena may hold.
    pub capacity: u64,
    /// The bytes stored so far.
    pub bytes: Seq<u8>,
}

impl ScratchView {
    /// Offset at which a block of the given alignment would be stored.
    pub open spec fn store_offset(self, align: u64) -> int {
        align_up(self.bytes.len() as int, align as int)
    }

    /// Whether a block of `len` bytes and the given alignment still fits.
    pub open spec fn can_store(self, align: u64, len: int) -> bool {
        self.store_offset(align) + len <= self.capacity
    }

    /// Address at which a block of the given alignment would be stored.
    pub open spec fn store_address(self, align: u64) -> u64 {
        (self.base + self.store_offset(align)) as u64
    }

    /// The arena after `data` has been stored with the given alignment: the
    /// bytes so far, zero padding up to the alignment, then `data`.
    pub open spec fn store(self, align: u64, data: Seq<u8>) -> ScratchView {
        ScratchView {
            base: self.base,
            capacity: self.capacity,
            bytes: self.bytes + zeros(self.store_offset(align) - self.bytes.len()) + data,
        }
    }

    /// What was stored before `store` is still there afterwards.
    pub proof fn lemma_store_keeps(self, align: u64, data: Seq<u8>)
        requires
            valid_align(align),
        ensures
            self.store(align, data).bytes.len() == self.store_offset(align) + data.len(),
            self.store(align, data).bytes.subrange(0, self.bytes.len() as int) == self.bytes,
            self.store(align, data).bytes.subrange(
                self.store_offset(align),
                self.store_offset(align) + data.len(),
            ) == data,
    {
        lemma_align_up(self.bytes.len() as int, align as int);
        let after = self.store(align, data).bytes;
        assert(after.subrange(0, self.bytes.len() as int) =~= self.bytes);
        assert(after.subrange(self.store_offset(align), self.store_offset(align) + data.len())
            =~= data);
    }
}

/// Scratch memory for one call: a range of addresses that the caller has set
/// aside, filled from its start.
///
/// Blocks are only ever appended, so what has been stored stays where it is
/// until the arena is dropped.
#[derive(Debug)]
pub struct Arena {
    /// Address of the first byte.
    pub base: u64,
    /// Number of bytes set aside.
    pub capacity: u64,
    /// The bytes stored so far.
    pub bytes: Vec<u8>,
}

impl View for Arena {
    type V = ScratchView;

    open spec fn view(&self) -> ScratchView {
        ScratchView { base: self.base, capacity: self.capacity, bytes: self.bytes@ }
    }
}

impl Arena {
    /// The range is 16-byte aligned, does not start at the null address, ends
    /// within the address space, and holds what has been stored.
    pub open spec fn wf(&self) -> bool {
        &&& self.base % 16 == 0
        &&& self.base > 0
        &&& self.capacity <= MAX_LAYOUT_SIZE
        &&& self.base + self.capacity <= u64::MAX
        &&& self.bytes@.len() <= self.capacity
    }

    /// An empty arena over `capacity` bytes at `base`, if that is a valid range.
    pub fn new(base: u64, capacity: u64) -> (arena: Option<Arena>)
        ensures
            match arena {
                Some(arena) => arena.wf() && arena@ == (ScratchView {
                    base,
                    capacity,
                    bytes: Seq::empty(),
                }),
                None => !(base % 16 == 0 && base > 0 && capacity <= MAX_LAYOUT_SIZE && base
                    + capacity <= u64::MAX),
            },
    {
        if base % 16 != 0 || base == 0 || capacity > MAX_LAYOUT_SIZE || capacity > u64::MAX
            - base {
            return None;
        }
        Some(Arena { base, capacity, bytes: Vec::new() })
    }

    /// Whether the arena is a valid range that holds what has been stored: what
    /// the functions of this crate ask of an arena.
    pub fn is_wf(&self) -> (valid: bool)
        ensures
            valid == self.wf(),
    {
        self.base % 16 == 0 && self.base > 0 && self.capacity <= MAX_LAYOUT_SIZE
            && self.capacity <= u64::MAX - self.base && self.bytes.len() as u64 <= self.capacity
    }

    /// Number of bytes stored so far.
    pub fn len(&self) -> (len: usize)
        ensures
            len == self@.bytes.len(),
    {
        self.bytes.len()
    }

    /// Stores `data` at the next address that is a multiple of `align` and
    /// returns that address, or `None`, leaving the arena as it was, when the
    /// block does not fit.
    pub fn store(&mut self, align: u64, data: &Vec<u8>) -> (address: Option<u64>)
        requires
            old(self).wf(),
            valid_align(align),
        ensures
            final(self).wf(),
            match address {
                Some(address) => {
                    &&& old(self)@.can_store(align, data@.len() as int)
                    &&& final(self)@ == old(self)@.store(align, data@)
                    &&& address == old(self)@.store_address(align)
                    &&& address % align == 0
                    &&& address >= old(self).base
                    &&& address + data@.len() <= old(self).base + old(self).capacity
                },
                None => {
                    &&& !old(self)@.can_store(align, data@.len() as int)
                    &&& final(self)@ == old(self)@
                },
            },
    {
        let len: u64 = self.bytes.len() as u64;
        let offset: u64 = round_up_to(len, align);
        if offset > self.capacity || data.len() as u64 > self.capacity - offset {
            return None;
        }
        let mut cursor: u64 = len;
        while cursor < offset
            invariant
                len <= cursor <= offset <= self.capacity,
                self.base == old(self).base,
                self.capacity == old(self).capacity,
                self.bytes@ == old(self).bytes@ + zeros(cursor - len),
            decreases offset - cursor,
        {
            self.bytes.push(0);
            cursor = cursor + 1;
            assert(self.bytes@ =~= old(self).bytes@ + zeros(cursor - len));
        }
        self.bytes.extend_from_slice(data.as_slice());
        proof {
            assert(self.bytes@ =~= old(self)@.store(align, data@).bytes);
            lemma_multiple_sum(self.base as int, offset as int, align as int);
        }
        Some(self.base + offset)
    }
}

impl Arena {
    /// Stores `size` zero bytes at the next address that is a multiple of
    /// `align` and returns that address, or `None`, leaving the arena as it
    /// was, when the block does not fit.
    pub fn reserve(&mut self, align: u64, size: u64) -> (address: Option<u64>)
        requires
            old(self).wf(),
            valid_align(align),
        ensures
            final(self).wf(),
            match address {
                Some(address) => {
                    &&& old(self)@.can_store(align, size as int)
                    &&& final(self)@ == old(self)@.store(align, zeros(size as int))
                    &&& address == old(self)@.store_address(align)
                    &&& address % align == 0
                },
                None => {
                    &&& !old(self)@.can_store(align, size as int)
                    &&& final(self)@ == old(self)@
                },
            },
    {
        let len: u64 = self.bytes.len() as u64;
        let offset: u64 = round_up_to(len, align);
        if offset > self.capacity || size > self.capacity - offset {
            return None;
        }
        let end: u64 = offset + size;
        let mut cursor: u64 = len;
        while cursor < end
            invariant
                len <= cursor <= end <= self.capacity,
                self.base == old(self).base,
                self.capacity == old(self).capacity,
                self.bytes@ == old(self).bytes@ + zeros(cursor - len),
            decreases end - cursor,
        {
            self.bytes.push(0);
            cursor = cursor + 1;
            assert(self.bytes@ =~= old(self).bytes@ + zeros(cursor - len));
        }
        proof {
            assert(self.bytes@ =~= old(self)@.store(align, zeros(size as int)).bytes);
            lemma_multiple_sum(self.base as int, offset as int, align as int);
        }
        Some(self.base + offset)
    }
}

/// The sum of a multiple of 16 and a multiple of a valid alignment is a
/// multiple of that alignment.
pub proof fn lemma_multiple_sum(base: int, offset: int, align: int)
    requires
        align == 1 || align == 2 || align == 4 || align == 8 || align == 16,
        base % 16 == 0,
        offset % align == 0,
        0 <= base,
        0 <= offset,
    ensures
        (base + offset) % align == 0,
{
}

/// A run of bytes at a known address.
#[derive(Debug)]
pub struct Region {
    /// Address of the first byte.
    pub base: u64,
    /// The bytes.
    pub bytes: Vec<u8>,
}

impl Region {
    /// Whether the region holds the `len` bytes at `address`.
    pub open spec fn holds(&self, address: int, len: int) -> bool {
        self.base <= address && address + len <= self.base + self.bytes@.len()
    }
}

/// The part of memory that a decoder may read: what the caller has copied out
/// of the address space of the callee.
#[derive(Debug)]
pub struct Memory {
    /// The mapped regions, searched in order.
    pub regions: Vec<Region>,
}

/// Index of the first region from `from` on that holds the `len` bytes at
/// `address`.
pub open spec fn find_region(regions: Seq<Region>, address: int, len: int, from: int) -> Option<
    int,
>
    decreases regions.len() - from,
{
    if from < 0 || from >= regions.len() {
        None
    } else if regions[from].holds(address, len) {
        Some(from)
    } else {
        find_region(regions, address, len, from + 1)
    }
}

impl Memory {
    /// The `len` bytes at `address`, if one region holds them all.
    pub open spec fn read_spec(&self, address: int, len: int) -> Option<Seq<u8>> {
        if len == 0 {
            Some(Seq::empty())
        } else {
            self.read_mapped(address, len)
        }
    }

    /// The `len` bytes at `address` from the first region that holds them all.
    pub open spec fn read_mapped(&self, address: int, len: int) -> Option<Seq<u8>> {
        match find_region(self.regions@, address, len, 0) {
            Some(index) => Some(
                self.regions@[index].bytes@.subrange(
                    address - self.regions@[index].base,
                    address - self.regions@[index].base + len,
                ),
            ),
            None => None,
        }
    }

    /// A memory without regions.
    pub fn new() -> (memory: Memory)
        ensures
            memory.regions@.len() == 0,
    {
        Memory { regions: Vec::new() }
    }

    /// Maps a region behind those mapped so far.
    pub fn map(&mut self, region: Region)
        ensures
            final(self).regions@ == old(self).regions@.push(region),
    {
        self.regions.push(region);
    }

    /// The `len` bytes at `address`, if one region holds them all. No bytes
    /// are read from anywhere.
    pub fn read(&self, address: u64, len: u64) -> (bytes: Option<Vec<u8>>)
        ensures
            match bytes {
                Some(bytes) => self.read_spec(address as int, len as int) == Some(bytes@)
                    && bytes@.len() == len,
                None => self.read_spec(address as int, len as int) is None,
            },
    {
        if len == 0 {
            return Some(Vec::new());
        }
        let mut index: usize = 0;
        while index < self.regions.len()
            invariant
                0 <= index <= self.regions@.len(),
                find_region(self.regions@, address as int, len as int, 0) == find_region(
                    self.regions@,
                    address as int,
                    len as int,
                    index as int,
                ),
            decreases self.regions@.len() - index,
        {
            let region = &self.regions[index];
            let size: u64 = region.bytes.len() as u64;
            if region.base <= address && address - region.base <= size && len <= size - (address
                - region.base) {
                let start: usize = (address - region.base) as usize;
                let end: usize = start + len as usize;
                let part = vstd::slice::slice_subrange(region.bytes.as_slice(), start, end);
                let bytes = vstd::slice::slice_to_vec(part);
                return Some(bytes);
            }
            index = index + 1;
        }
        None
    }
}

} // verus!
