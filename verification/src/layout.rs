//! Size and alignment of values in memory.
use crate::arch::Arch;
use vstd::prelude::*;

verus! {

/// Largest size a layout may have, the largest offset a 64-bit target can address
/// with a signed pointer offset.
pub const MAX_LAYOUT_SIZE: u64 = 0x7fff_ffff_ffff_ffff;

/// Whether `align` is one of the alignments the calling conventions know.
pub open spec fn valid_align(align: u64) -> bool {
    align == 1 || align == 2 || align == 4 || align == 8 || align == 16
}

/// `offset` rounded up to the next multiple of `align`.
pub open spec fn align_up(offset: int, align: int) -> int {
    if offset % align == 0 {
        offset
    } else {
        offset + align - offset % align
    }
}

/// `align_up` yields the least multiple of `align` that is not below `offset`.
pub proof fn lemma_align_up(offset: int, align: int)
    requires
        0 <= offset,
        align == 1 || align == 2 || align == 4 || align == 8 || align == 16,
    ensures
        offset <= align_up(offset, align) < offset + align,
        align_up(offset, align) % align == 0,
        offset % align == 0 ==> align_up(offset, align) == offset,
{
}

/// Size and alignment of a value, as `std::alloc::Layout` describes them.
#[derive(Clone, Copy, Debug, PartialEq, Eq, Structural)]
pub struct Layout {
    /// Size in bytes.
    pub size: u64,
    /// Alignment in bytes.
    pub align: u64,
}

impl Layout {
    /// The alignment is a power of two up to 16 and the size is addressable.
    pub open spec fn wf(self) -> bool {
        valid_align(self.align) && self.size <= MAX_LAYOUT_SIZE
    }

    /// The layout of `next` placed after `self`, and the offset of `next` in it.
    pub open spec fn extend_spec(self, next: Layout) -> (Layout, u64) {
        let offset = align_up(self.size as int, next.align as int);
        (
            Layout {
                size: (offset + next.size) as u64,
                align: if self.align >= next.align {
                    self.align
                } else {
                    next.align
                },
            },
            offset as u64,
        )
    }

    /// Whether `next` can follow `self` without leaving the addressable range.
    pub open spec fn can_extend(self, next: Layout) -> bool {
        align_up(self.size as int, next.align as int) + next.size <= MAX_LAYOUT_SIZE
    }

    /// `self` with its size rounded up to its alignment.
    pub open spec fn pad_to_align_spec(self) -> Layout {
        Layout { size: align_up(self.size as int, self.align as int) as u64, align: self.align }
    }

    /// A layout of the given size and alignment, if they form one.
    pub fn from_size_align(size: u64, align: u64) -> (layout: Option<Layout>)
        ensures
            layout == if valid_align(align) && size <= MAX_LAYOUT_SIZE {
                Some(Layout { size, align })
            } else {
                None
            },
    {
        if (align == 1 || align == 2 || align == 4 || align == 8 || align == 16) && size
            <= MAX_LAYOUT_SIZE {
            Some(Layout { size, align })
        } else {
            None
        }
    }

    /// The layout of a value without a representation.
    pub fn empty() -> (layout: Layout)
        ensures
            layout == (Layout { size: 0, align: 1 }),
            layout.wf(),
    {
        Layout { size: 0, align: 1 }
    }

    /// Places `next` after `self`, padded to the alignment of `next`.
    ///
    /// Returns the combined layout and the offset of `next` within it, or `None`
    /// when the combined size is not addressable.
    pub fn extend(&self, next: Layout) -> (result: Option<(Layout, u64)>)
        requires
            self.wf(),
            next.wf(),
        ensures
            result == if self.can_extend(next) {
                Some(self.extend_spec(next))
            } else {
                None
            },
            result matches Some(placed) ==> placed.0.wf(),
    {
        let offset: u64 = round_up_to(self.size, next.align);
        if offset > MAX_LAYOUT_SIZE || next.size > MAX_LAYOUT_SIZE - offset {
            return None;
        }
        let align: u64 = if self.align >= next.align {
            self.align
        } else {
            next.align
        };
        Some((Layout { size: offset + next.size, align }, offset))
    }

    /// Rounds the size up to the alignment.
    pub fn pad_to_align(&self) -> (padded: Layout)
        requires
            self.wf(),
        ensures
            padded == self.pad_to_align_spec(),
            padded.align == self.align,
            self.size <= padded.size < self.size + self.align,
            padded.size % padded.align == 0,
    {
        Layout { size: round_up_to(self.size, self.align), align: self.align }
    }
}

/// Rounds `offset` up to the next multiple of `align`.
pub fn round_up_to(offset: u64, align: u64) -> (rounded: u64)
    requires
        valid_align(align),
        offset <= MAX_LAYOUT_SIZE,
    ensures
        rounded == align_up(offset as int, align as int),
        offset <= rounded < offset + align,
        rounded % align == 0,
{
    let rest: u64 = offset % align;
    if rest == 0 {
        offset
    } else {
        offset + (align - rest)
    }
}

/// Size in bytes of an integer of `width` bits.
pub open spec fn integer_size(width: u32) -> u64 {
    if width == 0 {
        0
    } else if width <= 8 {
        1
    } else if width <= 16 {
        2
    } else if width <= 32 {
        4
    } else if width <= 64 {
        8
    } else if width <= 128 {
        16
    } else {
        (8 * ((width + 63) / 64)) as u64
    }
}

/// Layout of an integer of `width` bits on `arch`.
///
/// An integer up to 128 bits wide occupies the next power-of-two number of bytes
/// and is aligned to its size; a wider one occupies whole 64-bit limbs and asks
/// for 16 bytes. Either alignment is capped at what the architecture honours.
pub open spec fn integer_layout(width: u32, arch: Arch) -> Layout {
    let size = integer_size(width);
    let natural: u64 = if width == 0 {
        1
    } else if width <= 128 {
        size
    } else {
        16
    };
    Layout {
        size,
        align: if natural <= arch.max_align_spec() {
            natural
        } else {
            arch.max_align_spec()
        },
    }
}

/// Layout of an integer of `width` bits on `arch`.
pub fn get_integer_layout(width: u32, arch: Arch) -> (layout: Layout)
    ensures
        layout == integer_layout(width, arch),
        layout.wf(),
        layout.align <= arch.max_align_spec(),
{
    let size: u64 = if width == 0 {
        0
    } else if width <= 8 {
        1
    } else if width <= 16 {
        2
    } else if width <= 32 {
        4
    } else if width <= 64 {
        8
    } else if width <= 128 {
        16
    } else {
        8 * ((width as u64 + 63) / 64)
    };
    let natural: u64 = if width == 0 {
        1
    } else if width <= 128 {
        size
    } else {
        16
    };
    let cap: u64 = arch.max_align();
    Layout {
        size,
        align: if natural <= cap {
            natural
        } else {
            cap
        },
    }
}

} // verus!
