//! The allocation adapter: the four allocator operations a managed runtime
//! expects — allocate, allocate-and-zero, deallocate, resize — translated
//! into calls on the host primitives of [`crate::host::HostMem`].
//!
//! `allocate` raises the requested alignment to at least the pointer width
//! before asking the host; `allocate_zeroed` zeroes the block itself, since
//! the host gives no aligned zero-fill primitive; `resize` uses the host's
//! in-place resize only when the old alignment is within the platform's
//! minimum guarantee and no larger than the new size, and otherwise falls
//! back to allocate-copy-free, leaving the old block untouched when the new
//! allocation fails.

use crate::align::align_up;
use crate::align::copy_len;
use crate::align::direct_resize_ok;
use crate::align::eff_align;
use crate::align::effective_align;
use crate::align::is_pow2;
use crate::align::lemma_eff_align_divides;
use crate::align::lemma_pow2_pos;
use crate::align::min_size;
use crate::align::use_direct_resize;
use crate::host::step_keeps_dead;
use crate::host::HostMem;
use vstd::prelude::*;

verus! {

/// The allocator adapter.  It holds no state of its own: every operation is
/// a single translation to host primitives, and all bookkeeping lives in
/// the host.
pub struct LibcAlloc;

impl LibcAlloc {
    /// Allocates `size` bytes whose address is a multiple of
    /// `max(align, pointer width)` — and so of `align` itself.  Returns the
    /// fresh handle, or nothing when the host refuses.
    pub fn allocate(&self, host: &mut HostMem, size: usize, align: usize) -> (r: Option<usize>)
        requires
            old(host).wf(),
            is_pow2(align as nat),
        ensures
            final(host).wf(),
            final(host).same_config(*old(host)),
            final(host).allocs() == old(host).allocs() + 1,
            final(host).resizes() == old(host).resizes(),
            final(host).frees() == old(host).frees(),
            forall|i: int|
                0 <= i < old(host).n_blocks() ==> final(host).blocks@[i] == old(host).blocks@[i],
            step_keeps_dead(*old(host), *final(host)),
            match r {
                Some(h) => {
                    &&& h == old(host).n_blocks()
                    &&& final(host).n_blocks() == old(host).n_blocks() + 1
                    &&& final(host).live(h as int)
                    &&& final(host).data(h as int).len() == size
                    &&& final(host).addr(h as int) % (eff_align(
                        align as nat,
                        old(host).word_size as nat,
                    ) as int) == 0
                    &&& final(host).addr(h as int) % (align as int) == 0
                    &&& final(host).addr(h as int) % (old(host).word_size as int) == 0
                    &&& final(host).addr(h as int) >= 1
                    &&& final(host).next_addr == align_up(
                        old(host).next_addr as int,
                        eff_align(align as nat, old(host).word_size as nat) as int,
                    ) + size
                },
                None => {
                    &&& final(host).blocks@ == old(host).blocks@
                    &&& final(host).next_addr == old(host).next_addr
                },
            },
            (r is Some) <==> (!old(host).fail_allocs && align_up(
                old(host).next_addr as int,
                eff_align(align as nat, old(host).word_size as nat) as int,
            ) + size <= usize::MAX),
    {
        let ea = effective_align(align, host.word_size);
        let r = host.aligned_alloc(ea, size);
        match r {
            Some(h) => {
                proof {
                    lemma_eff_align_divides(
                        host.addr(h as int),
                        align as nat,
                        host.word_size as nat,
                    );
                }
                Some(h)
            },
            None => None,
        }
    }

    /// Allocates as [`Self::allocate`] does, then overwrites every byte of the
    /// block with zero.  The zeroing is explicit: the host's own zero-fill
    /// allocation gives no alignment guarantee, so it is not used.
    pub fn alloc_zeroed(&self, host: &mut HostMem, size: usize, align: usize) -> (r: Option<
        usize,
    >)
        requires
            old(host).wf(),
            is_pow2(align as nat),
        ensures
            final(host).wf(),
            final(host).same_config(*old(host)),
            final(host).allocs() == old(host).allocs() + 1,
            final(host).resizes() == old(host).resizes(),
            final(host).frees() == old(host).frees(),
            forall|i: int|
                0 <= i < old(host).n_blocks() ==> final(host).blocks@[i] == old(host).blocks@[i],
            step_keeps_dead(*old(host), *final(host)),
            match r {
                Some(h) => {
                    &&& h == old(host).n_blocks()
                    &&& final(host).n_blocks() == old(host).n_blocks() + 1
                    &&& final(host).live(h as int)
                    &&& final(host).data(h as int).len() == size
                    &&& forall|i: int| 0 <= i < size ==> final(host).data(h as int)[i] == 0
                    &&& final(host).addr(h as int) % (eff_align(
                        align as nat,
                        old(host).word_size as nat,
                    ) as int) == 0
                    &&& final(host).addr(h as int) % (align as int) == 0
                    &&& final(host).addr(h as int) % (old(host).word_size as int) == 0
                    &&& final(host).addr(h as int) >= 1
                    &&& final(host).next_addr == align_up(
                        old(host).next_addr as int,
                        eff_align(align as nat, old(host).word_size as nat) as int,
                    ) + size
                },
                None => {
                    &&& final(host).blocks@ == old(host).blocks@
                    &&& final(host).next_addr == old(host).next_addr
                },
            },
            (r is Some) <==> (!old(host).fail_allocs && align_up(
                old(host).next_addr as int,
                eff_align(align as nat, old(host).word_size as nat) as int,
            ) + size <= usize::MAX),
    {
        let r = self.allocate(host, size, align);
        match r {
            Some(h) => {
                host.fill(h, 0);
                Some(h)
            },
            None => None,
        }
    }

    /// Releases a block.  The size and alignment of the original request
    /// are part of the general deallocation contract but are not needed by
    /// the host's free primitive, and are ignored.
    pub fn dealloc(&self, host: &mut HostMem, h: usize, _size: usize, _align: usize)
        requires
            old(host).wf(),
            old(host).live(h as int),
        ensures
            final(host).wf(),
            final(host).same_config(*old(host)),
            final(host).allocs() == old(host).allocs(),
            final(host).resizes() == old(host).resizes(),
            final(host).frees() == old(host).frees() + 1,
            final(host).next_addr == old(host).next_addr,
            final(host).n_blocks() == old(host).n_blocks(),
            !final(host).live(h as int),
            final(host).addr(h as int) == old(host).addr(h as int),
            final(host).data(h as int) == old(host).data(h as int),
            forall|i: int|
                0 <= i < old(host).n_blocks() && i != h ==> final(host).blocks@[i] == old(
                    host,
                ).blocks@[i],
            step_keeps_dead(*old(host), *final(host)),
    {
        host.free(h);
    }

    /// Resizes the block behind `h` from `old_size` to `new_size` bytes,
    /// keeping its original alignment requirement `old_align`.  Uses the
    /// host's in-place resize when that alignment is within the platform
    /// guarantee and no larger than the new size; otherwise allocates anew,
    /// copies the surviving bytes and frees the old block.  On failure the
    /// old block is left entirely untouched.
    pub fn realloc(
        &self,
        host: &mut HostMem,
        h: usize,
        old_size: usize,
        old_align: usize,
        new_size: usize,
    ) -> (r: Option<usize>)
        requires
            old(host).wf(),
            old(host).live(h as int),
            old(host).data(h as int).len() == old_size,
            is_pow2(old_align as nat),
        ensures
            final(host).wf(),
            final(host).same_config(*old(host)),
            direct_resize_ok(old_align as nat, old(host).min_align as nat, new_size as nat)
                ==> {
                &&& final(host).resizes() == old(host).resizes() + 1
                &&& final(host).allocs() == old(host).allocs()
                &&& final(host).frees() == old(host).frees()
            },
            !direct_resize_ok(old_align as nat, old(host).min_align as nat, new_size as nat)
                ==> {
                &&& final(host).resizes() == old(host).resizes()
                &&& final(host).allocs() == old(host).allocs() + 1
                &&& final(host).frees() == if r is Some {
                    old(host).frees() + 1
                } else {
                    old(host).frees()
                }
            },
            match r {
                Some(hn) => {
                    &&& hn == old(host).n_blocks()
                    &&& final(host).n_blocks() == old(host).n_blocks() + 1
                    &&& final(host).live(hn as int)
                    &&& !final(host).live(h as int)
                    &&& final(host).data(hn as int).len() == new_size
                    &&& forall|i: int|
                        0 <= i < min_size(old_size as nat, new_size as nat) ==> final(host).data(
                            hn as int,
                        )[i] == old(host).data(h as int)[i]
                    &&& final(host).addr(hn as int) % (old_align as int) == 0
                    &&& final(host).addr(hn as int) >= 1
                    &&& final(host).next_addr <= old(host).next_addr + eff_align(
                        old_align as nat,
                        old(host).word_size as nat,
                    ) + old(host).min_align + new_size
                    &&& final(host).addr(h as int) == old(host).addr(h as int)
                    &&& final(host).data(h as int) == old(host).data(h as int)
                    &&& forall|i: int|
                        0 <= i < old(host).n_blocks() && i != h ==> final(host).blocks@[i] == old(
                            host,
                        ).blocks@[i]
                },
                None => {
                    &&& final(host).blocks@ == old(host).blocks@
                    &&& final(host).next_addr == old(host).next_addr
                },
            },
            old(host).fail_allocs ==> r is None,
            (!old(host).fail_allocs && old(host).next_addr + eff_align(
                old_align as nat,
                old(host).word_size as nat,
            ) + old(host).min_align + new_size <= usize::MAX) ==> r is Some,
            step_keeps_dead(*old(host), *final(host)),
    {
        if use_direct_resize(old_align, host.min_align, new_size) {
            proof {
                lemma_pow2_pos(old_align as nat);
            }
            host.host_resize(h, new_size)
        } else {
            realloc_fallback(self, host, h, old_size, old_align, new_size)
        }
    }
}

/// The resize fallback: a fresh block of `new_size` bytes at the original
/// alignment, the surviving `min(old_size, new_size)` bytes copied over,
/// and the old block freed — but only once the new block exists.  When the
/// host refuses the new allocation, nothing is copied, nothing is freed,
/// and the old block is returned to the caller untouched behind its
/// original handle.
pub fn realloc_fallback(
    adapter: &LibcAlloc,
    host: &mut HostMem,
    h: usize,
    old_size: usize,
    old_align: usize,
    new_size: usize,
) -> (r: Option<usize>)
    requires
        old(host).wf(),
        old(host).live(h as int),
        old(host).data(h as int).len() == old_size,
        is_pow2(old_align as nat),
    ensures
        final(host).wf(),
        final(host).same_config(*old(host)),
        final(host).resizes() == old(host).resizes(),
        final(host).allocs() == old(host).allocs() + 1,
        final(host).frees() == if r is Some {
            old(host).frees() + 1
        } else {
            old(host).frees()
        },
        match r {
            Some(hn) => {
                &&& hn == old(host).n_blocks()
                &&& final(host).n_blocks() == old(host).n_blocks() + 1
                &&& final(host).live(hn as int)
                &&& !final(host).live(h as int)
                &&& final(host).data(hn as int).len() == new_size
                &&& forall|i: int|
                    0 <= i < min_size(old_size as nat, new_size as nat) ==> final(host).data(
                        hn as int,
                    )[i] == old(host).data(h as int)[i]
                &&& final(host).addr(hn as int) % (old_align as int) == 0
                &&& final(host).addr(hn as int) >= 1
                &&& final(host).next_addr <= old(host).next_addr + eff_align(
                    old_align as nat,
                    old(host).word_size as nat,
                ) + old(host).min_align + new_size
                &&& final(host).addr(h as int) == old(host).addr(h as int)
                &&& final(host).data(h as int) == old(host).data(h as int)
                &&& forall|i: int|
                    0 <= i < old(host).n_blocks() && i != h ==> final(host).blocks@[i] == old(
                        host,
                    ).blocks@[i]
            },
            None => {
                &&& final(host).blocks@ == old(host).blocks@
                &&& final(host).next_addr == old(host).next_addr
            },
        },
        (r is Some) <==> (!old(host).fail_allocs && align_up(
            old(host).next_addr as int,
            eff_align(old_align as nat, old(host).word_size as nat) as int,
        ) + new_size <= usize::MAX),
        step_keeps_dead(*old(host), *final(host)),
{
    let nh = adapter.allocate(host, new_size, old_align);
    match nh {
        None => None,
        Some(hn) => {
            let cl = copy_len(old_size, new_size);
            host.copy_prefix(h, hn, cl);
            host.free(h);
            Some(hn)
        },
    }
}

} // verus!
