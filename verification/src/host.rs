//! A model of the host's allocation facility.
//!
//! The host hands out integer handles to blocks of bytes.  Each block has an
//! address (on which the alignment guarantees are stated), contents, and a
//! liveness flag; the model also records how often each of the three
//! accounted primitives — aligned allocation, in-place resize, free — has
//! been called, and can be told to refuse further allocations, so that
//! failure paths can be exercised.
//!
//! The primitives mirror a C-style allocator: `aligned_alloc` returns a
//! fresh block on a requested power-of-two boundary with unspecified
//! contents, `host_resize` moves a block to a new size while promising an
//! address on no better a boundary than the platform's minimum guarantee,
//! `free` retires a handle, and `fill` and `copy_prefix` stand for the
//! byte-set and byte-copy operations.

use crate::align::align_up;
use crate::align::is_pow2;
use crate::align::lemma_align_up;
use crate::align::lemma_divides_trans;
use crate::align::lemma_pow2_divides;
use crate::align::lemma_pow2_gap;
use crate::align::lemma_pow2_pos;
use crate::align::pow2_at_most;
use vstd::arithmetic::div_mod::lemma_mod_bound;
use vstd::prelude::*;
use vstd::seq_lib::lemma_update_is_remove_insert;

verus! {

/// One block handed out by the host: its start address, its bytes, and
/// whether the handle is still live.
pub struct Block {
    pub addr: usize,
    pub data: Vec<u8>,
    pub live: bool,
}

/// How often each accounted host primitive has been called.
pub struct HostCalls {
    pub allocs: nat,
    pub resizes: nat,
    pub frees: nat,
}

/// The host's allocation facility: platform constants, the blocks handed
/// out so far (indexed by handle), and the call accounting.
pub struct HostMem {
    /// The alignment every default host allocation is known to satisfy.
    pub min_align: usize,
    /// The pointer width in bytes.
    pub word_size: usize,
    /// The next raw address the host will carve blocks from.
    pub next_addr: usize,
    /// When set, every allocation request is refused.
    pub fail_allocs: bool,
    /// All blocks ever handed out, live or freed.
    pub blocks: Vec<Block>,
    /// Call accounting for the three accounted primitives.
    pub calls: Ghost<HostCalls>,
}

impl HostMem {
    /// Platform constants are powers of two and addresses start past null.
    pub open spec fn wf(&self) -> bool {
        &&& is_pow2(self.min_align as nat)
        &&& is_pow2(self.word_size as nat)
        &&& self.next_addr >= 1
    }

    /// How many handles have ever been handed out.
    pub open spec fn n_blocks(&self) -> int {
        self.blocks@.len() as int
    }

    /// `h` is a handle the host has handed out.
    pub open spec fn is_handle(&self, h: int) -> bool {
        0 <= h < self.n_blocks()
    }

    /// `h` is a handle that has not been retired.
    pub open spec fn live(&self, h: int) -> bool {
        self.is_handle(h) && self.blocks@[h].live
    }

    /// The bytes of block `h`.
    pub open spec fn data(&self, h: int) -> Seq<u8> {
        self.blocks@[h].data@
    }

    /// The start address of block `h`.
    pub open spec fn addr(&self, h: int) -> int {
        self.blocks@[h].addr as int
    }

    /// How often the aligned-allocation primitive has been called.
    pub open spec fn allocs(&self) -> nat {
        self.calls@.allocs
    }

    /// How often the in-place resize primitive has been called.
    pub open spec fn resizes(&self) -> nat {
        self.calls@.resizes
    }

    /// How often the free primitive has been called.
    pub open spec fn frees(&self) -> nat {
        self.calls@.frees
    }

    /// The platform constants and the failure switch are unchanged.
    pub open spec fn same_config(&self, pre: Self) -> bool {
        &&& self.min_align == pre.min_align
        &&& self.word_size == pre.word_size
        &&& self.fail_allocs == pre.fail_allocs
    }

    /// A fresh host for a platform with the given minimum guaranteed
    /// alignment and pointer width.
    pub fn new(min_align: usize, word_size: usize) -> (host: HostMem)
        requires
            is_pow2(min_align as nat),
            is_pow2(word_size as nat),
        ensures
            host.wf(),
            host.min_align == min_align,
            host.word_size == word_size,
            !host.fail_allocs,
            host.next_addr == 1,
            host.n_blocks() == 0,
            host.allocs() == 0,
            host.resizes() == 0,
            host.frees() == 0,
    {
        proof {
            lemma_pow2_pos(min_align as nat);
        }
        HostMem {
            min_align,
            word_size,
            next_addr: 1,
            fail_allocs: false,
            blocks: Vec::new(),
            calls: Ghost(HostCalls { allocs: 0, resizes: 0, frees: 0 }),
        }
    }

    /// Switches the host between serving and refusing allocation requests.
    pub fn set_fail_allocs(&mut self, fail: bool)
        ensures
            final(self).min_align == old(self).min_align,
            final(self).word_size == old(self).word_size,
            final(self).next_addr == old(self).next_addr,
            final(self).blocks@ == old(self).blocks@,
            final(self).calls == old(self).calls,
            final(self).fail_allocs == fail,
            step_keeps_dead(*old(self), *final(self)),
    {
        self.fail_allocs = fail;
    }

    /// Carves out a fresh block without touching the call accounting.
    fn raw_alloc(&mut self, align: usize, size: usize) -> (r: Option<usize>)
        requires
            old(self).wf(),
            is_pow2(align as nat),
        ensures
            final(self).wf(),
            final(self).same_config(*old(self)),
            final(self).calls == old(self).calls,
            match r {
                Some(h) => {
                    &&& h == old(self).n_blocks()
                    &&& final(self).n_blocks() == old(self).n_blocks() + 1
                    &&& forall|i: int|
                        0 <= i < old(self).n_blocks() ==> final(self).blocks@[i]
                            == old(self).blocks@[i]
                    &&& final(self).live(h as int)
                    &&& final(self).data(h as int).len() == size
                    &&& final(self).addr(h as int) % (align as int) == 0
                    &&& final(self).addr(h as int) >= 1
                    &&& final(self).next_addr == align_up(old(self).next_addr as int, align as int)
                        + size
                },
                None => {
                    &&& final(self).blocks@ == old(self).blocks@
                    &&& final(self).next_addr == old(self).next_addr
                },
            },
            (r is Some) <==> (!old(self).fail_allocs && align_up(
                old(self).next_addr as int,
                align as int,
            ) + size <= usize::MAX),
    {
        proof {
            lemma_pow2_pos(align as nat);
            lemma_align_up(self.next_addr as int, align as int);
        }
        if self.fail_allocs {
            return None;
        }
        let next = self.next_addr;
        proof {
            lemma_mod_bound(next as int, align as int);
        }
        let rem: usize = next % align;
        let pad: usize = (align - rem) % align;
        if pad > usize::MAX - next {
            return None;
        }
        let addr: usize = next + pad;
        if size > usize::MAX - addr {
            return None;
        }
        let data = bytes_filled(size, 0xA5);
        let h = self.blocks.len();
        self.blocks.push(Block { addr, data, live: true });
        self.next_addr = addr + size;
        Some(h)
    }

    /// The host's aligned-allocation primitive: a fresh block of `size`
    /// bytes, unspecified contents, whose address is a multiple of `align`.
    pub fn aligned_alloc(&mut self, align: usize, size: usize) -> (r: Option<usize>)
        requires
            old(self).wf(),
            is_pow2(align as nat),
        ensures
            final(self).wf(),
            final(self).same_config(*old(self)),
            final(self).allocs() == old(self).allocs() + 1,
            final(self).resizes() == old(self).resizes(),
            final(self).frees() == old(self).frees(),
            match r {
                Some(h) => {
                    &&& h == old(self).n_blocks()
                    &&& final(self).n_blocks() == old(self).n_blocks() + 1
                    &&& forall|i: int|
                        0 <= i < old(self).n_blocks() ==> final(self).blocks@[i]
                            == old(self).blocks@[i]
                    &&& final(self).live(h as int)
                    &&& final(self).data(h as int).len() == size
                    &&& final(self).addr(h as int) % (align as int) == 0
                    &&& final(self).addr(h as int) >= 1
                    &&& final(self).next_addr == align_up(old(self).next_addr as int, align as int)
                        + size
                },
                None => {
                    &&& final(self).blocks@ == old(self).blocks@
                    &&& final(self).next_addr == old(self).next_addr
                },
            },
            (r is Some) <==> (!old(self).fail_allocs && align_up(
                old(self).next_addr as int,
                align as int,
            ) + size <= usize::MAX),
            step_keeps_dead(*old(self), *final(self)),
    {
        let ghost c = self.calls@;
        self.calls = Ghost(HostCalls { allocs: c.allocs + 1, ..c });
        self.raw_alloc(align, size)
    }

    /// The host's free primitive: retires a live handle.  The block's bytes
    /// and address are left in place so that the model can still speak of
    /// them, but the handle is dead and stays dead.
    pub fn free(&mut self, h: usize)
        requires
            old(self).wf(),
            old(self).live(h as int),
        ensures
            final(self).wf(),
            final(self).same_config(*old(self)),
            final(self).next_addr == old(self).next_addr,
            final(self).allocs() == old(self).allocs(),
            final(self).resizes() == old(self).resizes(),
            final(self).frees() == old(self).frees() + 1,
            final(self).n_blocks() == old(self).n_blocks(),
            !final(self).live(h as int),
            final(self).addr(h as int) == old(self).addr(h as int),
            final(self).data(h as int) == old(self).data(h as int),
            forall|i: int|
                0 <= i < old(self).n_blocks() && i != h ==> final(self).blocks@[i] == old(self).blocks@[i],
            step_keeps_dead(*old(self), *final(self)),
    {
        let ghost c = self.calls@;
        self.calls = Ghost(HostCalls { frees: c.frees + 1, ..c });
        self.mark_dead(h);
    }

    /// Retires a handle without touching the call accounting.
    fn mark_dead(&mut self, h: usize)
        requires
            old(self).live(h as int),
        ensures
            final(self).min_align == old(self).min_align,
            final(self).word_size == old(self).word_size,
            final(self).next_addr == old(self).next_addr,
            final(self).fail_allocs == old(self).fail_allocs,
            final(self).calls == old(self).calls,
            final(self).n_blocks() == old(self).n_blocks(),
            !final(self).live(h as int),
            final(self).addr(h as int) == old(self).addr(h as int),
            final(self).data(h as int) == old(self).data(h as int),
            forall|i: int|
                0 <= i < old(self).n_blocks() && i != h ==> final(self).blocks@[i] == old(self).blocks@[i],
    {
        let b = self.blocks.remove(h);
        let b2 = Block { addr: b.addr, data: b.data, live: false };
        self.blocks.insert(h, b2);
        proof {
            lemma_update_is_remove_insert(old(self).blocks@, h as int, self.blocks@[h as int]);
        }
    }

    /// The host's byte-fill primitive: overwrites every byte of a live
    /// block with `val`.
    pub fn fill(&mut self, h: usize, val: u8)
        requires
            old(self).wf(),
            old(self).live(h as int),
        ensures
            final(self).wf(),
            final(self).same_config(*old(self)),
            final(self).next_addr == old(self).next_addr,
            final(self).calls == old(self).calls,
            final(self).n_blocks() == old(self).n_blocks(),
            final(self).live(h as int),
            final(self).addr(h as int) == old(self).addr(h as int),
            final(self).data(h as int).len() == old(self).data(h as int).len(),
            forall|i: int|
                0 <= i < old(self).data(h as int).len() ==> final(self).data(h as int)[i] == val,
            forall|i: int|
                0 <= i < old(self).n_blocks() && i != h ==> final(self).blocks@[i] == old(self).blocks@[i],
            step_keeps_dead(*old(self), *final(self)),
    {
        let len = self.blocks[h].data.len();
        let nd = bytes_filled(len, val);
        let b = self.blocks.remove(h);
        let b2 = Block { addr: b.addr, data: nd, live: b.live };
        self.blocks.insert(h, b2);
        proof {
            lemma_update_is_remove_insert(old(self).blocks@, h as int, self.blocks@[h as int]);
        }
    }

    /// The host's byte-copy primitive: copies the first `n` bytes of block
    /// `src` over the first `n` bytes of block `dst`.
    pub fn copy_prefix(&mut self, src: usize, dst: usize, n: usize)
        requires
            old(self).wf(),
            old(self).live(src as int),
            old(self).live(dst as int),
            src != dst,
            n <= old(self).data(src as int).len(),
            n <= old(self).data(dst as int).len(),
        ensures
            final(self).wf(),
            final(self).same_config(*old(self)),
            final(self).next_addr == old(self).next_addr,
            final(self).calls == old(self).calls,
            final(self).n_blocks() == old(self).n_blocks(),
            final(self).live(dst as int),
            final(self).addr(dst as int) == old(self).addr(dst as int),
            final(self).data(dst as int).len() == old(self).data(dst as int).len(),
            forall|i: int| 0 <= i < n ==> final(self).data(dst as int)[i] == old(self).data(
                src as int,
            )[i],
            forall|i: int|
                n <= i < old(self).data(dst as int).len() ==> final(self).data(dst as int)[i]
                    == old(self).data(dst as int)[i],
            forall|i: int|
                0 <= i < old(self).n_blocks() && i != dst ==> final(self).blocks@[i] == old(self).blocks@[i],
            step_keeps_dead(*old(self), *final(self)),
    {
        let dst_len = self.blocks[dst].data.len();
        let mut nd: Vec<u8> = Vec::new();
        let mut k: usize = 0;
        while k < n
            invariant
                *self == *old(self),
                k <= n,
                n <= self.data(src as int).len(),
                n <= dst_len,
                dst_len == self.data(dst as int).len(),
                self.live(src as int),
                self.live(dst as int),
                nd@.len() == k,
                forall|i: int| 0 <= i < k ==> nd@[i] == self.data(src as int)[i],
            decreases n - k,
        {
            let byte = self.blocks[src].data[k];
            nd.push(byte);
            k = k + 1;
        }
        while k < dst_len
            invariant
                *self == *old(self),
                n <= k <= dst_len,
                n <= self.data(src as int).len(),
                dst_len == self.data(dst as int).len(),
                self.live(src as int),
                self.live(dst as int),
                nd@.len() == k,
                forall|i: int| 0 <= i < n ==> nd@[i] == self.data(src as int)[i],
                forall|i: int| n <= i < k ==> nd@[i] == self.data(dst as int)[i],
            decreases dst_len - k,
        {
            let byte = self.blocks[dst].data[k];
            nd.push(byte);
            k = k + 1;
        }
        let b = self.blocks.remove(dst);
        let b2 = Block { addr: b.addr, data: nd, live: b.live };
        self.blocks.insert(dst, b2);
        proof {
            lemma_update_is_remove_insert(old(self).blocks@, dst as int, self.blocks@[dst as int]);
        }
    }

    /// The host's in-place resize primitive.  The block may move: the
    /// handle is consumed and a fresh one returned.  The new address is
    /// promised to lie only on the boundary the platform guarantees by
    /// default, capped by the new size — not on the block's original
    /// alignment.
    pub fn host_resize(&mut self, h: usize, new_size: usize) -> (r: Option<usize>)
        requires
            old(self).wf(),
            old(self).live(h as int),
            new_size >= 1,
        ensures
            final(self).wf(),
            final(self).same_config(*old(self)),
            final(self).allocs() == old(self).allocs(),
            final(self).resizes() == old(self).resizes() + 1,
            final(self).frees() == old(self).frees(),
            match r {
                Some(hn) => {
                    &&& hn == old(self).n_blocks()
                    &&& final(self).n_blocks() == old(self).n_blocks() + 1
                    &&& final(self).live(hn as int)
                    &&& !final(self).live(h as int)
                    &&& final(self).data(hn as int).len() == new_size
                    &&& forall|i: int|
                        0 <= i < old(self).data(h as int).len() && i < new_size ==> final(self).data(hn as int)[i] == old(self).data(h as int)[i]
                    &&& forall|a: nat|
                        #![trigger is_pow2(a)]
                        is_pow2(a) && a <= old(self).min_align && a <= new_size ==> final(self).addr(hn as int) % (a as int) == 0
                    &&& final(self).addr(hn as int) >= 1
                    &&& final(self).next_addr <= old(self).next_addr + old(self).min_align
                        + new_size
                    &&& final(self).addr(h as int) == old(self).addr(h as int)
                    &&& final(self).data(h as int) == old(self).data(h as int)
                    &&& forall|i: int|
                        0 <= i < old(self).n_blocks() && i != h ==> final(self).blocks@[i]
                            == old(self).blocks@[i]
                },
                None => {
                    &&& final(self).blocks@ == old(self).blocks@
                    &&& final(self).next_addr == old(self).next_addr
                },
            },
            old(self).fail_allocs ==> r is None,
            (!old(self).fail_allocs && old(self).next_addr + old(self).min_align + new_size
                <= usize::MAX) ==> r is Some,
            step_keeps_dead(*old(self), *final(self)),
    {
        let ghost c = self.calls@;
        self.calls = Ghost(HostCalls { resizes: c.resizes + 1, ..c });
        let g: usize = if new_size >= self.min_align {
            self.min_align
        } else {
            pow2_at_most(new_size)
        };
        proof {
            lemma_pow2_pos(g as nat);
            lemma_align_up(self.next_addr as int, g as int);
        }
        let r = self.raw_alloc(g, new_size);
        match r {
            None => None,
            Some(hn) => {
                let old_len = self.blocks[h].data.len();
                let cn = if old_len <= new_size {
                    old_len
                } else {
                    new_size
                };
                self.copy_prefix(h, hn, cn);
                self.mark_dead(h);
                proof {
                    let pre = *old(self);
                    let a0 = self.addr(hn as int);
                    assert forall|a: nat|
                        #![trigger is_pow2(a)]
                        is_pow2(a) && a <= pre.min_align && a <= new_size implies a0 % (a as int)
                        == 0 by {
                        if a > g as nat {
                            lemma_pow2_gap(g as nat, a);
                        }
                        lemma_pow2_divides(a, g as nat);
                        lemma_pow2_pos(a);
                        lemma_divides_trans(a0, g as int, a as int);
                    }
                }
                Some(hn)
            },
        }
    }

    /// Whether handle `h` is still live.
    pub fn is_live(&self, h: usize) -> (r: bool)
        requires
            self.is_handle(h as int),
        ensures
            r == self.live(h as int),
    {
        self.blocks[h].live
    }

    /// The start address of block `h`.
    pub fn addr_of(&self, h: usize) -> (r: usize)
        requires
            self.is_handle(h as int),
        ensures
            r as int == self.addr(h as int),
    {
        self.blocks[h].addr
    }

    /// The length in bytes of block `h`.
    pub fn block_len(&self, h: usize) -> (r: usize)
        requires
            self.is_handle(h as int),
        ensures
            r as int == self.data(h as int).len(),
    {
        self.blocks[h].data.len()
    }

    /// The byte at offset `i` of block `h`.
    pub fn read_byte(&self, h: usize, i: usize) -> (r: u8)
        requires
            self.is_handle(h as int),
            i < self.data(h as int).len(),
        ensures
            r == self.data(h as int)[i as int],
    {
        self.blocks[h].data[i]
    }

    /// How many handles have ever been handed out.
    pub fn block_count(&self) -> (r: usize)
        ensures
            r as int == self.n_blocks(),
    {
        self.blocks.len()
    }
}

/// What every host and adapter operation guarantees about handles across a
/// call: no handle is ever forgotten, and a retired handle is never
/// revived.
pub open spec fn step_keeps_dead(pre: HostMem, post: HostMem) -> bool {
    &&& pre.n_blocks() <= post.n_blocks()
    &&& forall|i: int| pre.is_handle(i) && !pre.live(i) ==> !post.live(i)
}

/// A handle freed once can never be freed again: along any sequence of
/// host states in which each step keeps dead handles dead — as every
/// operation of this library ensures — a handle that is dead at the start
/// never again satisfies `live`, the precondition of every freeing
/// operation.
pub proof fn lemma_freed_stays_freed(states: Seq<HostMem>, h: int)
    requires
        states.len() >= 1,
        states[0].is_handle(h),
        !states[0].live(h),
        forall|k: int|
            0 <= k < states.len() - 1 ==> step_keeps_dead(#[trigger] states[k], states[k + 1]),
    ensures
        !states.last().live(h),
    decreases states.len(),
{
    if states.len() > 1 {
        assert(step_keeps_dead(states[0], states[1]));
        let rest = states.drop_first();
        assert forall|k: int|
            0 <= k < rest.len() - 1 implies step_keeps_dead(#[trigger] rest[k], rest[k + 1]) by {
            assert(step_keeps_dead(states[k + 1], states[k + 2]));
        }
        lemma_freed_stays_freed(rest, h);
        assert(rest.last() == states.last());
    }
}

/// A vector of `n` bytes, all equal to `val`.
fn bytes_filled(n: usize, val: u8) -> (v: Vec<u8>)
    ensures
        v@.len() == n,
        forall|i: int| 0 <= i < n ==> v@[i] == val,
{
    let mut v: Vec<u8> = Vec::new();
    let mut k: usize = 0;
    while k < n
        invariant
            v@.len() == k,
            k <= n,
            forall|i: int| 0 <= i < k ==> v@[i] == val,
        decreases n - k,
    {
        v.push(val);
        k = k + 1;
    }
    v
}

} // verus!
