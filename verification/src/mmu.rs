//! The guest memory unit: linear guest memory with a parallel permission
//! byte per guest byte, a dirty-block log with a mirror bitmap for O(1)
//! deduplication, a bump allocator, and snapshot reset that restores only
//! the blocks named in the dirty log.

use vstd::prelude::*;
use std::collections::BTreeMap;
use crate::emulator::VmExit;

verus! {

broadcast use vstd::laws_cmp::group_laws_cmp;

/// Permission bit: byte may be read.
pub const PERM_READ: u8 = 1;

/// Permission bit: byte may be written.
pub const PERM_WRITE: u8 = 2;

/// Permission bit: byte may be executed.
pub const PERM_EXEC: u8 = 4;

/// Permission bit: byte is writable, and becomes readable on first write
/// (read-after-write tracking for uninitialized memory).
pub const PERM_RAW: u8 = 8;

/// Size in bytes of one dirty block; resets restore whole blocks.
pub const DIRTY_BLOCK_SIZE: usize = 4096;

/// First guest address the bump allocator will hand out, leaving a
/// null guard region at the bottom of the address space.
pub const ALLOC_BASE: usize = 0x10000;

/// A guest virtual address.
#[derive(Clone, Copy, Debug, PartialEq, Eq, PartialOrd, Ord, Hash, Structural)]
pub struct VirtAddr(pub usize);

/// A permission byte, a combination of the `PERM_*` bits.
#[derive(Clone, Copy, Debug, PartialEq, Eq, Structural)]
pub struct Perm(pub u8);

/// One loadable region of a guest image.
#[derive(Clone, Copy, Debug)]
pub struct Section {
    pub file_off: usize,
    pub virt_addr: VirtAddr,
    pub file_size: usize,
    pub mem_size: usize,
    pub permissions: Perm,
}

/// Whether permission byte `p` carries every bit of `req`.
pub open spec fn has_perm(p: u8, req: u8) -> bool {
    p & req == req
}

/// The permission byte after a successful write to a byte holding `p`:
/// bytes marked read-after-write additionally become readable.
pub open spec fn promote(p: u8) -> u8 {
    p | ((p & PERM_RAW) >> 3)
}

/// 256 to the power `n`: the number of values a little-endian word of
/// `n` bytes can take.
pub open spec fn pow256(n: int) -> int
    decreases n,
{
    if n <= 0 {
        1
    } else {
        256 * pow256(n - 1)
    }
}

/// The value of the little-endian word held by the byte sequence `s`.
pub open spec fn word_of(s: Seq<u8>) -> int
    decreases s.len(),
{
    if s.len() <= 0 {
        0
    } else {
        s[0] + 256 * word_of(s.subrange(1, s.len() as int))
    }
}

/// The `n` little-endian bytes of the value `v`.
pub open spec fn le_bytes(v: int, n: int) -> Seq<u8>
    decreases n,
{
    if n <= 0 {
        Seq::empty()
    } else {
        seq![(v % 256) as u8] + le_bytes(v / 256, n - 1)
    }
}

/// The guest memory unit.
pub struct Mmu {
    /// Guest memory, addressed linearly from zero.
    memory: Vec<u8>,
    /// One permission byte per guest byte.
    permissions: Vec<u8>,
    /// Indices of blocks modified since the last reset, each exactly once.
    dirty: Vec<usize>,
    /// One bit per block, mirroring membership of `dirty`.
    dirty_bitmap: Vec<u64>,
    /// Next-fit bump pointer for the guest heap, always block-aligned.
    cur_alc: usize,
    /// Base address to size of every live allocation.
    allocations: BTreeMap<usize, usize>,
    /// The memory contents of the snapshot this unit diffs against.
    snap_memory: Ghost<Seq<u8>>,
    /// The permission contents of the snapshot this unit diffs against.
    snap_permissions: Ghost<Seq<u8>>,
}

impl Mmu {
    /// Number of guest bytes.
    pub open spec fn size(&self) -> int {
        self.mem().len() as int
    }

    /// The guest memory contents.
    pub closed spec fn mem(&self) -> Seq<u8> {
        self.memory@
    }

    /// The permission bytes.
    pub closed spec fn perms(&self) -> Seq<u8> {
        self.permissions@
    }

    /// The dirty log, in insertion order.
    pub closed spec fn dirty_log(&self) -> Seq<usize> {
        self.dirty@
    }

    /// The allocator bump pointer.
    pub closed spec fn alloc_cursor(&self) -> int {
        self.cur_alc as int
    }

    /// The live allocations, base address to size.
    pub closed spec fn allocs(&self) -> Map<usize, usize> {
        self.allocations@
    }

    /// Memory contents of the snapshot this unit was forked from.
    pub closed spec fn snap_mem(&self) -> Seq<u8> {
        self.snap_memory@
    }

    /// Permission contents of the snapshot this unit was forked from.
    pub closed spec fn snap_perms(&self) -> Seq<u8> {
        self.snap_permissions@
    }

    /// The words of the dirty bitmap.
    pub closed spec fn bitmap_words(&self) -> Seq<u64> {
        self.dirty_bitmap@
    }

    /// Number of block indices tracked by the dirty machinery; one more
    /// than strictly needed so that every byte's block is always in range.
    pub open spec fn num_blocks(&self) -> int {
        self.size() / (DIRTY_BLOCK_SIZE as int) + 1
    }

    /// The block index holding byte address `a`.
    pub open spec fn block_of(a: int) -> int {
        a / (DIRTY_BLOCK_SIZE as int)
    }

    /// Whether block `b` appears in the dirty log.
    pub open spec fn dirty_has(&self, b: int) -> bool {
        exists|i: int| 0 <= i < self.dirty_log().len() && self.dirty_log()[i] as int == b
    }

    /// Whether the bitmap bit for block `b` is set.
    pub open spec fn bitmap_bit(&self, b: int) -> bool {
        (self.bitmap_words()[b / 64] >> ((b % 64) as u64)) & 1u64 == 1u64
    }

    /// Every byte in `[addr, addr + len)` carries every bit of `req`.
    pub open spec fn range_has(&self, addr: int, len: int, req: u8) -> bool {
        forall|a: int| addr <= a < addr + len ==> has_perm(#[trigger] self.perms()[a], req)
    }

    /// The least offset in `[0, len)` whose byte lacks a bit of `req`
    /// (meaningful only when one exists).
    pub open spec fn first_lacking(perms: Seq<u8>, addr: int, len: int, req: u8) -> int
        decreases len,
    {
        if len <= 0 {
            0
        } else if !has_perm(perms[addr], req) {
            0
        } else {
            1 + Self::first_lacking(perms, addr + 1, len - 1, req)
        }
    }

    /// Well-formedness: the parallel arrays agree in length, the dirty log
    /// and its bitmap mirror each other exactly, every byte outside a dirty
    /// block still holds its snapshot value, and the allocator state is
    /// consistent.
    pub open spec fn wf(&self) -> bool {
        &&& self.mem().len() <= usize::MAX
        &&& self.mem().len() <= 0x1000_0000_0000
        &&& self.perms().len() == self.mem().len()
        &&& self.snap_mem().len() == self.mem().len()
        &&& self.snap_perms().len() == self.mem().len()
        &&& self.bitmap_words().len() == self.num_blocks() / 64 + 1
        &&& forall|i: int|
            0 <= i < self.dirty_log().len() ==> (#[trigger] self.dirty_log()[i])
                < self.num_blocks()
        &&& forall|i: int, j: int|
            0 <= i < j < self.dirty_log().len() ==> self.dirty_log()[i] != self.dirty_log()[j]
        &&& forall|b: int|
            0 <= b < self.num_blocks() ==> ((#[trigger] self.bitmap_bit(b)) <==> self.dirty_has(b))
        &&& forall|a: int|
            0 <= a < self.size() && !self.dirty_has(Self::block_of(a)) ==> (#[trigger] self.mem()[
                a
            ]) == self.snap_mem()[a] && self.perms()[a] == self.snap_perms()[a]
        &&& 0 <= self.alloc_cursor() <= usize::MAX
        &&& self.alloc_cursor() % (DIRTY_BLOCK_SIZE as int) == 0
        &&& forall|k: usize|
            #[trigger] self.allocs().contains_key(k) ==> k + self.allocs()[k]
                <= self.alloc_cursor() && k + self.allocs()[k] <= self.size() && 1 <= self.allocs()[
                k
            ]
    }

    /// Create a new memory space of `size` bytes, with no permissions
    /// anywhere, an empty dirty log, and the allocator placed past the
    /// null guard region.
    pub fn new(size: usize) -> (r: Mmu)
        requires
            size <= 0x1000_0000_0000,
        ensures
            r.wf(),
            r.size() == size,
            r.mem() == Seq::new(size as nat, |i: int| 0u8),
            r.perms() == Seq::new(size as nat, |i: int| 0u8),
            r.dirty_log().len() == 0,
            r.alloc_cursor() == ALLOC_BASE,
            r.allocs() == Map::<usize, usize>::empty(),
            r.snap_mem() == r.mem(),
            r.snap_perms() == r.perms(),
    {
        let nb = size / DIRTY_BLOCK_SIZE + 1;
        let bm_len = nb / 64 + 1;
        let r = Mmu {
            memory: vec![0u8; size],
            permissions: vec![0u8; size],
            dirty: Vec::new(),
            dirty_bitmap: vec![0u64; bm_len],
            cur_alc: ALLOC_BASE,
            allocations: BTreeMap::new(),
            snap_memory: Ghost(Seq::new(size as nat, |i: int| 0u8)),
            snap_permissions: Ghost(Seq::new(size as nat, |i: int| 0u8)),
        };
        proof {
            assert forall|b: int| 0 <= b < r.num_blocks() implies !r.bitmap_bit(b) by {
                vstd::arithmetic::div_mod::lemma_div_is_ordered(b, r.num_blocks() - 1, 64);
                vstd::arithmetic::div_mod::lemma_div_is_ordered(
                    r.num_blocks() - 1,
                    r.num_blocks(),
                    64,
                );
                lemma_u64_bit_of_zero((b % 64) as u64);
            }
        }
        r
    }

    /// Number of guest bytes.
    pub fn len(&self) -> (r: usize)
        ensures
            r == self.size(),
    {
        self.memory.len()
    }

    /// Number of entries in the dirty log.
    pub fn dirty_len(&self) -> (r: usize)
        ensures
            r == self.dirty_log().len(),
    {
        self.dirty.len()
    }

    /// Fork into an independent copy whose snapshot is the current
    /// contents of `self`, with an empty dirty log.
    pub fn fork(&self) -> (r: Mmu)
        requires
            self.wf(),
        ensures
            r.wf(),
            r.size() == self.size(),
            r.mem() == self.mem(),
            r.perms() == self.perms(),
            r.dirty_log().len() == 0,
            r.alloc_cursor() == self.alloc_cursor(),
            r.allocs() == self.allocs(),
            r.snap_mem() == self.mem(),
            r.snap_perms() == self.perms(),
    {
        let r = Mmu {
            memory: self.memory.clone(),
            permissions: self.permissions.clone(),
            dirty: Vec::new(),
            dirty_bitmap: vec![0u64; self.dirty_bitmap.len()],
            cur_alc: self.cur_alc,
            allocations: self.allocations.clone(),
            snap_memory: Ghost(self.memory@),
            snap_permissions: Ghost(self.permissions@),
        };
        proof {
            assert(r.memory@ =~= self.memory@);
            assert(r.permissions@ =~= self.permissions@);
            assert forall|b: int| 0 <= b < r.num_blocks() implies !r.bitmap_bit(b) by {
                vstd::arithmetic::div_mod::lemma_div_is_ordered(b, r.num_blocks() - 1, 64);
                vstd::arithmetic::div_mod::lemma_div_is_ordered(
                    r.num_blocks() - 1,
                    r.num_blocks(),
                    64,
                );
                lemma_u64_bit_of_zero((b % 64) as u64);
            }
            assert forall|k: usize| #[trigger] r.allocs().contains_key(k) implies k + r.allocs()[k]
                <= r.alloc_cursor() && k + r.allocs()[k] <= r.size() && 1 <= r.allocs()[k] by {
                assert(self.allocs().contains_key(k));
                assert(self.allocs()[k] == r.allocs()[k]);
            }
        }
        r
    }

    /// Record block `block` in the dirty log, if it is not there already.
    fn mark_dirty(&mut self, block: usize)
        requires
            old(self).wf(),
            block < old(self).num_blocks(),
        ensures
            final(self).wf(),
            final(self).mem() == old(self).mem(),
            final(self).perms() == old(self).perms(),
            final(self).size() == old(self).size(),
            final(self).alloc_cursor() == old(self).alloc_cursor(),
            final(self).allocs() == old(self).allocs(),
            final(self).snap_mem() == old(self).snap_mem(),
            final(self).snap_perms() == old(self).snap_perms(),
            forall|b: int| final(self).dirty_has(b) <==> (old(self).dirty_has(b) || b == block),
    {
        let ghost pre = *old(self);
        let idx = block / 64;
        let sh = (block % 64) as u64;
        proof {
            vstd::arithmetic::div_mod::lemma_div_is_ordered(block as int, pre.num_blocks() - 1, 64);
            vstd::arithmetic::div_mod::lemma_div_is_ordered(
                pre.num_blocks() - 1,
                pre.num_blocks(),
                64,
            );
            assert(0 <= block / 64 < pre.bitmap_words().len());
            lemma_u64_test_bit(pre.bitmap_words()[idx as int], sh);
        }
        if self.dirty_bitmap[idx] & (1u64 << sh) == 0 {
            proof {
                assert(!pre.bitmap_bit(block as int));
                assert(!pre.dirty_has(block as int));
            }
            self.dirty.push(block);
            let w = self.dirty_bitmap[idx];
            self.dirty_bitmap[idx] = w | (1u64 << sh);
            proof {
                let n = pre.dirty_log().len() as int;
                assert(self.dirty_log() == pre.dirty_log().push(block));
                assert(self.bitmap_words() == pre.bitmap_words().update(
                    idx as int,
                    w | (1u64 << sh),
                ));
                assert forall|b: int|
                    final(self).dirty_has(b) <==> (pre.dirty_has(b) || b == block) by {
                    if pre.dirty_has(b) {
                        let i = choose|i: int|
                            0 <= i < pre.dirty_log().len() && pre.dirty_log()[i] as int == b;
                        assert(self.dirty_log()[i] as int == b);
                        assert(self.dirty_has(b));
                    }
                    if b == block {
                        assert(self.dirty_log()[n] as int == b);
                        assert(self.dirty_has(b));
                    }
                    if self.dirty_has(b) {
                        let i = choose|i: int|
                            0 <= i < self.dirty_log().len() && self.dirty_log()[i] as int == b;
                        if i < n {
                            assert(pre.dirty_log()[i] as int == b);
                            assert(pre.dirty_has(b));
                        } else {
                            assert(b == block);
                        }
                    }
                }
                assert forall|i: int, j: int|
                    0 <= i < j < self.dirty_log().len() implies self.dirty_log()[i]
                    != self.dirty_log()[j] by {
                    if j == n && self.dirty_log()[i] == block {
                        assert(pre.dirty_log()[i] as int == block as int);
                        assert(pre.dirty_has(block as int));
                    }
                }
                assert forall|b: int|
                    0 <= b < self.num_blocks() implies ((#[trigger] self.bitmap_bit(b))
                    <==> self.dirty_has(b)) by {
                    vstd::arithmetic::div_mod::lemma_div_is_ordered(b, self.num_blocks() - 1, 64);
                    vstd::arithmetic::div_mod::lemma_div_is_ordered(
                        self.num_blocks() - 1,
                        self.num_blocks(),
                        64,
                    );
                    lemma_u64_set_bit(pre.bitmap_words()[b / 64], sh, (b % 64) as u64);
                    if b == block as int {
                        assert(b / 64 == idx as int);
                        assert((b % 64) as u64 == sh);
                        assert(self.bitmap_bit(b));
                    } else {
                        if b / 64 == idx as int {
                            assert((b % 64) as u64 != sh) by {
                                vstd::arithmetic::div_mod::lemma_fundamental_div_mod(b, 64);
                                vstd::arithmetic::div_mod::lemma_fundamental_div_mod(
                                    block as int,
                                    64,
                                );
                            }
                        }
                        assert(self.bitmap_bit(b) <==> pre.bitmap_bit(b));
                    }
                }
            }
        } else {
            proof {
                assert(pre.bitmap_bit(block as int));
                assert(pre.dirty_has(block as int));
            }
        }
        proof {
            assert forall|k: usize| #[trigger] self.allocs().contains_key(k) implies k
                + self.allocs()[k] <= self.alloc_cursor() && k + self.allocs()[k]
                <= self.size() && 1 <= self.allocs()[k] by {
                assert(pre.allocs().contains_key(k));
            }
        }
    }

    /// What a read of `len` bytes at `addr` requiring permission bits `req`
    /// returns: the bytes on success, and otherwise the exact fault, at the
    /// first offending byte.
    pub open spec fn spec_peek(&self, addr: VirtAddr, len: usize, req: u8) -> Result<
        Seq<u8>,
        VmExit,
    > {
        if addr.0 + len > usize::MAX {
            Err(VmExit::AddressIntegerOverflow)
        } else if addr.0 + len > self.size() {
            Err(VmExit::AddressMiss(addr, len))
        } else if self.range_has(addr.0 as int, len as int, req) {
            Ok(self.mem().subrange(addr.0 as int, addr.0 + len))
        } else {
            let bad = addr.0 + Self::first_lacking(self.perms(), addr.0 as int, len as int, req);
            if req & PERM_READ == PERM_READ && self.perms()[bad] & PERM_RAW == PERM_RAW {
                Err(VmExit::UninitFault(VirtAddr(bad as usize)))
            } else {
                Err(VmExit::ReadFault(VirtAddr(bad as usize)))
            }
        }
    }

    /// What a read of `len` bytes at `addr` returns; reads require
    /// `PERM_READ` on every byte, and a byte still marked read-after-write
    /// faults as uninitialized.
    pub open spec fn spec_read(&self, addr: VirtAddr, len: usize) -> Result<Seq<u8>, VmExit> {
        self.spec_peek(addr, len, PERM_READ)
    }

    /// Whether a write of `len` bytes at `addr` succeeds: it must stay in
    /// bounds and every byte must carry `PERM_WRITE`.
    pub open spec fn spec_write_ok(&self, addr: VirtAddr, len: int) -> bool {
        &&& addr.0 + len <= usize::MAX
        &&& addr.0 + len <= self.size()
        &&& self.range_has(addr.0 as int, len, PERM_WRITE)
    }

    /// The exact fault a failing write of `len` bytes at `addr` raises.
    pub open spec fn spec_write_err(&self, addr: VirtAddr, len: usize) -> VmExit {
        if addr.0 + len > usize::MAX {
            VmExit::AddressIntegerOverflow
        } else if addr.0 + len > self.size() {
            VmExit::AddressMiss(addr, len)
        } else {
            VmExit::WriteFault(
                VirtAddr(
                    (addr.0 + Self::first_lacking(
                        self.perms(),
                        addr.0 as int,
                        len as int,
                        PERM_WRITE,
                    )) as usize,
                ),
            )
        }
    }

    /// `mem` with `data` written at `addr`.
    pub open spec fn splice(mem: Seq<u8>, addr: int, data: Seq<u8>) -> Seq<u8> {
        Seq::new(
            mem.len(),
            |i: int|
                if addr <= i < addr + data.len() {
                    data[i - addr]
                } else {
                    mem[i]
                },
        )
    }

    /// `perms` after a write of `len` bytes at `addr`: each written byte is
    /// promoted, every other byte keeps its permission.
    pub open spec fn promote_seq(perms: Seq<u8>, addr: int, len: int) -> Seq<u8> {
        Seq::new(
            perms.len(),
            |i: int|
                if addr <= i < addr + len {
                    promote(perms[i])
                } else {
                    perms[i]
                },
        )
    }

    /// The blocks of the byte range `[addr, addr + len)` were added to the
    /// dirty log, and nothing else.
    pub open spec fn dirty_extended(pre: &Mmu, post: &Mmu, addr: int, len: int) -> bool {
        forall|b: int|
            #[trigger] post.dirty_has(b) <==> pre.dirty_has(b) || (exists|a: int|
                addr <= a < addr + len && Self::block_of(a) == b)
    }

    /// Write one byte, promoting its permission and marking its block dirty.
    fn write_byte_dirty(&mut self, a: usize, val: u8)
        requires
            old(self).wf(),
            (a as int) < old(self).size(),
        ensures
            final(self).wf(),
            final(self).mem() == old(self).mem().update(a as int, val),
            final(self).perms() == old(self).perms().update(
                a as int,
                promote(old(self).perms()[a as int]),
            ),
            final(self).size() == old(self).size(),
            final(self).alloc_cursor() == old(self).alloc_cursor(),
            final(self).allocs() == old(self).allocs(),
            final(self).snap_mem() == old(self).snap_mem(),
            final(self).snap_perms() == old(self).snap_perms(),
            forall|b: int|
                final(self).dirty_has(b) <==> old(self).dirty_has(b) || b == Self::block_of(
                    a as int,
                ),
    {
        let block = a / DIRTY_BLOCK_SIZE;
        proof {
            vstd::arithmetic::div_mod::lemma_div_is_ordered(
                a as int,
                old(self).size() - 1,
                DIRTY_BLOCK_SIZE as int,
            );
            vstd::arithmetic::div_mod::lemma_div_is_ordered(
                old(self).size() - 1,
                old(self).size(),
                DIRTY_BLOCK_SIZE as int,
            );
        }
        self.mark_dirty(block);
        let ghost mid = *self;
        self.memory[a] = val;
        let p = self.permissions[a];
        self.permissions[a] = p | ((p & PERM_RAW) >> 3);
        proof {
            assert(self.mem() =~= old(self).mem().update(a as int, val));
            assert(self.perms() =~= old(self).perms().update(
                a as int,
                promote(old(self).perms()[a as int]),
            ));
            assert(self.dirty_log() == mid.dirty_log());
            assert(self.bitmap_words() == mid.bitmap_words());
            assert forall|b: int|
                0 <= b < self.num_blocks() implies ((#[trigger] self.bitmap_bit(b))
                <==> self.dirty_has(b)) by {
                assert(self.bitmap_bit(b) == mid.bitmap_bit(b));
                assert(self.dirty_has(b) == mid.dirty_has(b));
            }
            assert forall|x: int|
                0 <= x < self.size() && !self.dirty_has(Self::block_of(x)) implies (
            #[trigger] self.mem()[x]) == self.snap_mem()[x] && self.perms()[x]
                == self.snap_perms()[x] by {
                assert(mid.dirty_has(Self::block_of(a as int)));
                assert(self.dirty_has(Self::block_of(a as int)));
                assert(x != a);
                assert(!mid.dirty_has(Self::block_of(x)));
                assert(mid.mem()[x] == mid.snap_mem()[x]);
                assert(mid.perms()[x] == mid.snap_perms()[x]);
            }
            assert forall|k: usize| #[trigger] self.allocs().contains_key(k) implies k
                + self.allocs()[k] <= self.alloc_cursor() && k + self.allocs()[k]
                <= self.size() && 1 <= self.allocs()[k] by {
                assert(mid.allocs().contains_key(k));
            }
        }
    }

    /// Borrow a perm-checked copy of `len` guest bytes at `addr`, requiring
    /// the permission bits `expected_perm` on every byte.
    pub fn peek(&self, addr: VirtAddr, len: usize, expected_perm: Perm) -> (r: Result<
        Vec<u8>,
        VmExit,
    >)
        requires
            self.wf(),
        ensures
            match r {
                Ok(v) => self.spec_peek(addr, len, expected_perm.0) == Ok::<Seq<u8>, VmExit>(v@),
                Err(e) => self.spec_peek(addr, len, expected_perm.0) == Err::<Seq<u8>, VmExit>(e),
            },
            r.is_ok() <==> (addr.0 + len <= usize::MAX && addr.0 + len <= self.size()
                && self.range_has(addr.0 as int, len as int, expected_perm.0)),
    {
        let req = expected_perm.0;
        let end = match addr.0.checked_add(len) {
            Some(e) => e,
            None => {
                return Err(VmExit::AddressIntegerOverflow);
            },
        };
        if end > self.memory.len() {
            return Err(VmExit::AddressMiss(addr, len));
        }
        let mut i: usize = 0;
        while i < len
            invariant
                self.wf(),
                req == expected_perm.0,
                addr.0 + len <= usize::MAX,
                addr.0 + len <= self.size(),
                i <= len,
                forall|a2: int|
                    addr.0 <= a2 < addr.0 + i ==> has_perm(#[trigger] self.perms()[a2], req),
            decreases len - i,
        {
            let p = self.permissions[addr.0 + i];
            if p & req != req {
                proof {
                    lemma_first_lacking_at(
                        self.perms(),
                        addr.0 as int,
                        len as int,
                        req,
                        i as int,
                    );
                    assert(!self.range_has(addr.0 as int, len as int, req));
                }
                if req & PERM_READ == PERM_READ && p & PERM_RAW == PERM_RAW {
                    return Err(VmExit::UninitFault(VirtAddr(addr.0 + i)));
                } else {
                    return Err(VmExit::ReadFault(VirtAddr(addr.0 + i)));
                }
            }
            i += 1;
        }
        let mut v: Vec<u8> = Vec::new();
        let mut j: usize = 0;
        while j < len
            invariant
                self.wf(),
                addr.0 + len <= usize::MAX,
                addr.0 + len <= self.size(),
                j <= len,
                v@.len() == j,
                forall|x: int| 0 <= x < j ==> v@[x] == self.mem()[addr.0 + x],
            decreases len - j,
        {
            v.push(self.memory[addr.0 + j]);
            j += 1;
        }
        proof {
            assert(v@ =~= self.mem().subrange(addr.0 as int, addr.0 + len));
        }
        Ok(v)
    }

    /// Read `len` guest bytes at `addr` into a fresh buffer; every byte must
    /// be readable.
    pub fn read_into(&self, addr: VirtAddr, len: usize) -> (r: Result<Vec<u8>, VmExit>)
        requires
            self.wf(),
        ensures
            match r {
                Ok(v) => self.spec_read(addr, len) == Ok::<Seq<u8>, VmExit>(v@),
                Err(e) => self.spec_read(addr, len) == Err::<Seq<u8>, VmExit>(e),
            },
            r.is_ok() <==> (addr.0 + len <= usize::MAX && addr.0 + len <= self.size()
                && self.range_has(addr.0 as int, len as int, PERM_READ)),
    {
        self.peek(addr, len, Perm(PERM_READ))
    }

    /// Write the bytes of `buf` at `addr`. Every byte must be writable;
    /// written bytes marked read-after-write become readable, and every
    /// touched block is recorded in the dirty log.
    pub fn write_from(&mut self, addr: VirtAddr, buf: &[u8]) -> (r: Result<(), VmExit>)
        requires
            old(self).wf(),
        ensures
            final(self).wf(),
            final(self).size() == old(self).size(),
            final(self).alloc_cursor() == old(self).alloc_cursor(),
            final(self).allocs() == old(self).allocs(),
            final(self).snap_mem() == old(self).snap_mem(),
            final(self).snap_perms() == old(self).snap_perms(),
            r.is_ok() <==> old(self).spec_write_ok(addr, buf@.len() as int),
            r.is_ok() ==> final(self).mem() == Self::splice(old(self).mem(), addr.0 as int, buf@)
                && final(self).perms() == Self::promote_seq(
                old(self).perms(),
                addr.0 as int,
                buf@.len() as int,
            ) && Self::dirty_extended(old(self), final(self), addr.0 as int, buf@.len() as int),
            r.is_err() ==> r == Err::<(), VmExit>(
                old(self).spec_write_err(addr, buf@.len() as usize),
            ) && final(self).mem() == old(self).mem() && final(self).perms() == old(self).perms()
                && final(self).dirty_log() == old(self).dirty_log(),
    {
        let len = buf.len();
        let end = match addr.0.checked_add(len) {
            Some(e) => e,
            None => {
                return Err(VmExit::AddressIntegerOverflow);
            },
        };
        if end > self.memory.len() {
            return Err(VmExit::AddressMiss(addr, len));
        }
        let mut i: usize = 0;
        while i < len
            invariant
                self.wf(),
                self == old(self),
                buf@.len() == len,
                addr.0 + len <= usize::MAX,
                addr.0 + len <= self.size(),
                i <= len,
                forall|a2: int|
                    addr.0 <= a2 < addr.0 + i ==> has_perm(
                        #[trigger] self.perms()[a2],
                        PERM_WRITE,
                    ),
            decreases len - i,
        {
            if self.permissions[addr.0 + i] & PERM_WRITE != PERM_WRITE {
                proof {
                    lemma_first_lacking_at(
                        self.perms(),
                        addr.0 as int,
                        len as int,
                        PERM_WRITE,
                        i as int,
                    );
                    assert(!self.range_has(addr.0 as int, len as int, PERM_WRITE));
                }
                return Err(VmExit::WriteFault(VirtAddr(addr.0 + i)));
            }
            i += 1;
        }
        let mut j: usize = 0;
        while j < len
            invariant
                self.wf(),
                buf@.len() == len,
                addr.0 + len <= usize::MAX,
                self.size() == old(self).size(),
                self.alloc_cursor() == old(self).alloc_cursor(),
                self.allocs() == old(self).allocs(),
                self.snap_mem() == old(self).snap_mem(),
                self.snap_perms() == old(self).snap_perms(),
                addr.0 + len <= self.size(),
                j <= len,
                forall|x: int|
                    0 <= x < self.size() ==> (#[trigger] self.mem()[x]) == (if addr.0 <= x
                        < addr.0 + j {
                        buf@[x - addr.0]
                    } else {
                        old(self).mem()[x]
                    }),
                forall|x: int|
                    0 <= x < self.size() ==> (#[trigger] self.perms()[x]) == (if addr.0 <= x
                        < addr.0 + j {
                        promote(old(self).perms()[x])
                    } else {
                        old(self).perms()[x]
                    }),
                Self::dirty_extended(old(self), self, addr.0 as int, j as int),
            decreases len - j,
        {
            self.write_byte_dirty(addr.0 + j, buf[j]);
            proof {
                assert forall|b: int| #[trigger] self.dirty_has(b) implies old(self).dirty_has(b)
                    || (exists|a: int|
                    addr.0 <= a < addr.0 + (j + 1) && Self::block_of(a) == b) by {
                    if !old(self).dirty_has(b) {
                        if b == Self::block_of(addr.0 + j as int) {
                            assert(Self::block_of(addr.0 + j as int) == b);
                        }
                    }
                }
            }
            j += 1;
        }
        proof {
            assert(self.mem() =~= Self::splice(old(self).mem(), addr.0 as int, buf@));
            assert(self.perms() =~= Self::promote_seq(
                old(self).perms(),
                addr.0 as int,
                buf@.len() as int,
            ));
        }
        Ok(())
    }

    /// `perms` with the bytes of `[addr, addr + len)` replaced by `p`.
    pub open spec fn set_seq(perms: Seq<u8>, addr: int, len: int, p: u8) -> Seq<u8> {
        Seq::new(
            perms.len(),
            |i: int|
                if addr <= i < addr + len {
                    p
                } else {
                    perms[i]
                },
        )
    }

    /// `perms` with the bytes of `[addr, addr + len)` masked by `mask`.
    pub open spec fn mask_seq(perms: Seq<u8>, addr: int, len: int, mask: u8) -> Seq<u8> {
        Seq::new(
            perms.len(),
            |i: int|
                if addr <= i < addr + len {
                    perms[i] & mask
                } else {
                    perms[i]
                },
        )
    }

    /// The requested allocation size rounded up to whole dirty blocks.
    pub open spec fn align_up(size: int) -> int {
        ((size + DIRTY_BLOCK_SIZE - 1) / (DIRTY_BLOCK_SIZE as int)) * (DIRTY_BLOCK_SIZE as int)
    }

    /// Whether an allocation of `size` bytes succeeds: the rounded size must
    /// fit below the end of guest memory, starting at the bump cursor.
    pub open spec fn spec_alloc_ok(&self, size: usize) -> bool {
        &&& size > 0
        &&& size + DIRTY_BLOCK_SIZE - 1 <= usize::MAX
        &&& self.alloc_cursor() + Self::align_up(size as int) <= self.size()
    }

    /// Set one permission byte, marking its block dirty.
    fn set_perm_byte_dirty(&mut self, a: usize, p: u8)
        requires
            old(self).wf(),
            (a as int) < old(self).size(),
        ensures
            final(self).wf(),
            final(self).mem() == old(self).mem(),
            final(self).perms() == old(self).perms().update(a as int, p),
            final(self).size() == old(self).size(),
            final(self).alloc_cursor() == old(self).alloc_cursor(),
            final(self).allocs() == old(self).allocs(),
            final(self).snap_mem() == old(self).snap_mem(),
            final(self).snap_perms() == old(self).snap_perms(),
            forall|b: int|
                final(self).dirty_has(b) <==> old(self).dirty_has(b) || b == Self::block_of(
                    a as int,
                ),
    {
        let block = a / DIRTY_BLOCK_SIZE;
        proof {
            vstd::arithmetic::div_mod::lemma_div_is_ordered(
                a as int,
                old(self).size() - 1,
                DIRTY_BLOCK_SIZE as int,
            );
            vstd::arithmetic::div_mod::lemma_div_is_ordered(
                old(self).size() - 1,
                old(self).size(),
                DIRTY_BLOCK_SIZE as int,
            );
        }
        self.mark_dirty(block);
        let ghost mid = *self;
        self.permissions[a] = p;
        proof {
            assert(self.perms() =~= old(self).perms().update(a as int, p));
            assert(self.dirty_log() == mid.dirty_log());
            assert(self.bitmap_words() == mid.bitmap_words());
            assert forall|b: int|
                0 <= b < self.num_blocks() implies ((#[trigger] self.bitmap_bit(b))
                <==> self.dirty_has(b)) by {
                assert(self.bitmap_bit(b) == mid.bitmap_bit(b));
                assert(self.dirty_has(b) == mid.dirty_has(b));
            }
            assert forall|x: int|
                0 <= x < self.size() && !self.dirty_has(Self::block_of(x)) implies (
            #[trigger] self.mem()[x]) == self.snap_mem()[x] && self.perms()[x]
                == self.snap_perms()[x] by {
                assert(mid.dirty_has(Self::block_of(a as int)));
                assert(self.dirty_has(Self::block_of(a as int)));
                assert(x != a);
                assert(!mid.dirty_has(Self::block_of(x)));
                assert(mid.mem()[x] == mid.snap_mem()[x]);
                assert(mid.perms()[x] == mid.snap_perms()[x]);
            }
            assert forall|k: usize| #[trigger] self.allocs().contains_key(k) implies k
                + self.allocs()[k] <= self.alloc_cursor() && k + self.allocs()[k]
                <= self.size() && 1 <= self.allocs()[k] by {
                assert(mid.allocs().contains_key(k));
            }
        }
    }

    /// Copy one byte of memory and permissions from `other`, valid only
    /// while the byte's block is in the dirty log.
    fn copy_byte_from(&mut self, other: &Mmu, a: usize)
        requires
            old(self).wf(),
            other.wf(),
            old(self).size() == other.size(),
            (a as int) < old(self).size(),
            old(self).dirty_has(Self::block_of(a as int)),
        ensures
            final(self).wf(),
            final(self).mem() == old(self).mem().update(a as int, other.mem()[a as int]),
            final(self).perms() == old(self).perms().update(a as int, other.perms()[a as int]),
            final(self).size() == old(self).size(),
            final(self).dirty_log() == old(self).dirty_log(),
            final(self).bitmap_words() == old(self).bitmap_words(),
            final(self).alloc_cursor() == old(self).alloc_cursor(),
            final(self).allocs() == old(self).allocs(),
            final(self).snap_mem() == old(self).snap_mem(),
            final(self).snap_perms() == old(self).snap_perms(),
    {
        let ghost pre = *old(self);
        self.memory[a] = other.memory[a];
        self.permissions[a] = other.permissions[a];
        proof {
            assert(self.dirty_log() == pre.dirty_log());
            assert(self.bitmap_words() == pre.bitmap_words());
            assert(self.mem() =~= pre.mem().update(a as int, other.mem()[a as int]));
            assert(self.perms() =~= pre.perms().update(a as int, other.perms()[a as int]));
            assert forall|b: int|
                0 <= b < self.num_blocks() implies ((#[trigger] self.bitmap_bit(b))
                <==> self.dirty_has(b)) by {
                assert(self.bitmap_bit(b) == pre.bitmap_bit(b));
                assert(self.dirty_has(b) == pre.dirty_has(b));
            }
            assert forall|x: int|
                0 <= x < self.size() && !self.dirty_has(Self::block_of(x)) implies (
            #[trigger] self.mem()[x]) == self.snap_mem()[x] && self.perms()[x]
                == self.snap_perms()[x] by {
                assert(pre.dirty_has(Self::block_of(a as int)));
                assert(self.dirty_has(Self::block_of(a as int)));
                assert(x != a);
                assert(!pre.dirty_has(Self::block_of(x)));
                assert(pre.mem()[x] == pre.snap_mem()[x]);
                assert(pre.perms()[x] == pre.snap_perms()[x]);
            }
            assert forall|k: usize| #[trigger] self.allocs().contains_key(k) implies k
                + self.allocs()[k] <= self.alloc_cursor() && k + self.allocs()[k]
                <= self.size() && 1 <= self.allocs()[k] by {
                assert(pre.allocs().contains_key(k));
            }
        }
    }

    /// Restore this unit to the snapshot it was forked from, held by
    /// `other`: every block in the dirty log is copied back from `other`,
    /// the log and bitmap are emptied, and the allocator state is restored.
    /// Valid only when `self` was forked off `other` (or reset against it),
    /// so that everything outside the dirty log already agrees.
    pub fn reset(&mut self, other: &Mmu)
        requires
            old(self).wf(),
            other.wf(),
            old(self).size() == other.size(),
            old(self).snap_mem() == other.mem(),
            old(self).snap_perms() == other.perms(),
        ensures
            final(self).wf(),
            final(self).size() == other.size(),
            final(self).mem() == other.mem(),
            final(self).perms() == other.perms(),
            final(self).dirty_log().len() == 0,
            final(self).alloc_cursor() == other.alloc_cursor(),
            final(self).allocs() == other.allocs(),
            final(self).snap_mem() == old(self).snap_mem(),
            final(self).snap_perms() == old(self).snap_perms(),
    {
        while self.dirty.len() > 0
            invariant
                self.wf(),
                other.wf(),
                self.size() == other.size(),
                self.snap_mem() == other.mem(),
                self.snap_perms() == other.perms(),
            decreases self.dirty_log().len(),
        {
            let n = self.dirty.len();
            let block = self.dirty[n - 1];
            let memlen = self.memory.len();
            proof {
                assert(self.dirty_has(block as int));
                assert((block as int) * (DIRTY_BLOCK_SIZE as int) <= self.size()) by {
                    assert(block as int <= self.size() / (DIRTY_BLOCK_SIZE as int));
                    vstd::arithmetic::div_mod::lemma_fundamental_div_mod(
                        self.size(),
                        DIRTY_BLOCK_SIZE as int,
                    );
                    vstd::arithmetic::mul::lemma_mul_inequality(
                        block as int,
                        self.size() / (DIRTY_BLOCK_SIZE as int),
                        DIRTY_BLOCK_SIZE as int,
                    );
                    vstd::arithmetic::mul::lemma_mul_is_commutative(
                        self.size() / (DIRTY_BLOCK_SIZE as int),
                        DIRTY_BLOCK_SIZE as int,
                    );
                }
            }
            let start = block * DIRTY_BLOCK_SIZE;
            let end = if memlen - start < DIRTY_BLOCK_SIZE {
                memlen
            } else {
                start + DIRTY_BLOCK_SIZE
            };
            let ghost iter0 = *self;
            let mut a = start;
            while a < end
                invariant
                    self.wf(),
                    other.wf(),
                    self.size() == other.size(),
                    self.snap_mem() == other.mem(),
                    self.snap_perms() == other.perms(),
                    start <= a <= end,
                    end <= self.size(),
                    start == block * DIRTY_BLOCK_SIZE,
                    end <= start + DIRTY_BLOCK_SIZE,
                    self.dirty_has(block as int),
                    self.dirty_log() == iter0.dirty_log(),
                    self.dirty_log().len() == n,
                    self.dirty_log()[n - 1] == block,
                    1 <= n,
                    forall|x: int|
                        start <= x < a ==> (#[trigger] self.mem()[x]) == other.mem()[x]
                            && self.perms()[x] == other.perms()[x],
                decreases end - a,
            {
                proof {
                    assert(Self::block_of(a as int) == block as int) by {
                        vstd::arithmetic::div_mod::lemma_fundamental_div_mod_converse_div(
                            a as int,
                            DIRTY_BLOCK_SIZE as int,
                            block as int,
                            a - block * DIRTY_BLOCK_SIZE,
                        );
                    }
                }
                self.copy_byte_from(other, a);
                a += 1;
            }
            let ghost mid = *self;
            self.dirty.pop();
            let idx = block / 64;
            let sh = (block % 64) as u64;
            proof {
                vstd::arithmetic::div_mod::lemma_div_is_ordered(
                    block as int,
                    mid.num_blocks() - 1,
                    64,
                );
                vstd::arithmetic::div_mod::lemma_div_is_ordered(
                    mid.num_blocks() - 1,
                    mid.num_blocks(),
                    64,
                );
            }
            let w = self.dirty_bitmap[idx];
            self.dirty_bitmap[idx] = w & !(1u64 << sh);
            proof {
                let nn = mid.dirty_log().len() as int;
                assert(self.dirty_log() =~= mid.dirty_log().subrange(0, nn - 1));
                assert(self.bitmap_words() == mid.bitmap_words().update(
                    idx as int,
                    w & !(1u64 << sh),
                ));
                assert forall|b: int|
                    self.dirty_has(b) <==> (mid.dirty_has(b) && b != block) by {
                    if self.dirty_has(b) {
                        let i = choose|i: int|
                            0 <= i < self.dirty_log().len() && self.dirty_log()[i] as int == b;
                        assert(mid.dirty_log()[i] as int == b);
                        assert(mid.dirty_has(b));
                        if b == block {
                            assert(mid.dirty_log()[i] == mid.dirty_log()[nn - 1]);
                            assert(false);
                        }
                    }
                    if mid.dirty_has(b) && b != block {
                        let i = choose|i: int|
                            0 <= i < mid.dirty_log().len() && mid.dirty_log()[i] as int == b;
                        assert(i != nn - 1);
                        assert(self.dirty_log()[i] as int == b);
                        assert(self.dirty_has(b));
                    }
                }
                assert forall|b: int|
                    0 <= b < self.num_blocks() implies ((#[trigger] self.bitmap_bit(b))
                    <==> self.dirty_has(b)) by {
                    vstd::arithmetic::div_mod::lemma_div_is_ordered(b, self.num_blocks() - 1, 64);
                    vstd::arithmetic::div_mod::lemma_div_is_ordered(
                        self.num_blocks() - 1,
                        self.num_blocks(),
                        64,
                    );
                    lemma_u64_clear_bit(mid.bitmap_words()[b / 64], sh, (b % 64) as u64);
                    if b == block as int {
                        assert(!self.bitmap_bit(b));
                        assert(!self.dirty_has(b));
                    } else {
                        if b / 64 == idx as int {
                            assert((b % 64) as u64 != sh) by {
                                vstd::arithmetic::div_mod::lemma_fundamental_div_mod(b, 64);
                                vstd::arithmetic::div_mod::lemma_fundamental_div_mod(
                                    block as int,
                                    64,
                                );
                            }
                        }
                        assert(self.bitmap_bit(b) <==> mid.bitmap_bit(b));
                        assert(mid.bitmap_bit(b) <==> mid.dirty_has(b));
                    }
                }
                assert forall|x: int|
                    0 <= x < self.size() && !self.dirty_has(Self::block_of(x)) implies (
                #[trigger] self.mem()[x]) == self.snap_mem()[x] && self.perms()[x]
                    == self.snap_perms()[x] by {
                    if Self::block_of(x) == block as int {
                        assert(start <= x < end) by {
                            vstd::arithmetic::div_mod::lemma_fundamental_div_mod(
                                x,
                                DIRTY_BLOCK_SIZE as int,
                            );
                            if x >= start + DIRTY_BLOCK_SIZE {
                                vstd::arithmetic::div_mod::lemma_div_is_ordered(
                                    start + DIRTY_BLOCK_SIZE,
                                    x,
                                    DIRTY_BLOCK_SIZE as int,
                                );
                                vstd::arithmetic::div_mod::lemma_div_multiples_vanish(
                                    block as int,
                                    DIRTY_BLOCK_SIZE as int,
                                );
                                vstd::arithmetic::div_mod::lemma_fundamental_div_mod_converse_div(
                                    start + DIRTY_BLOCK_SIZE,
                                    DIRTY_BLOCK_SIZE as int,
                                    block as int + 1,
                                    0,
                                );
                            }
                        }
                        assert(self.mem()[x] == other.mem()[x]);
                    } else {
                        assert(!mid.dirty_has(Self::block_of(x)));
                        assert(mid.mem()[x] == mid.snap_mem()[x]);
                        assert(mid.perms()[x] == mid.snap_perms()[x]);
                    }
                }
                assert forall|k: usize| #[trigger] self.allocs().contains_key(k) implies k
                    + self.allocs()[k] <= self.alloc_cursor() && k + self.allocs()[k]
                    <= self.size() && 1 <= self.allocs()[k] by {
                    assert(mid.allocs().contains_key(k));
                }
            }
        }
        let ghost done = *self;
        self.cur_alc = other.cur_alc;
        self.allocations = other.allocations.clone();
        proof {
            assert(self.bitmap_words() == done.bitmap_words());
            assert(self.dirty_log() == done.dirty_log());
            assert forall|b: int|
                0 <= b < self.num_blocks() implies ((#[trigger] self.bitmap_bit(b))
                <==> self.dirty_has(b)) by {
                assert(self.bitmap_bit(b) == done.bitmap_bit(b));
                assert(!done.dirty_has(b));
                assert(!self.dirty_has(b));
            }
            assert forall|x: int| 0 <= x < self.size() implies (#[trigger] self.mem()[x])
                == other.mem()[x] by {
                assert(!self.dirty_has(Self::block_of(x)));
                assert(self.mem()[x] == self.snap_mem()[x]);
            }
            assert forall|x: int| 0 <= x < self.size() implies (#[trigger] self.perms()[x])
                == other.perms()[x] by {
                assert(!self.dirty_has(Self::block_of(x)));
                assert(self.mem()[x] == self.snap_mem()[x]);
                assert(self.perms()[x] == self.snap_perms()[x]);
            }
            assert(self.mem() =~= other.mem());
            assert(self.perms() =~= other.perms());
            assert forall|k: usize| #[trigger] self.allocs().contains_key(k) implies k
                + self.allocs()[k] <= self.alloc_cursor() && k + self.allocs()[k]
                <= self.size() && 1 <= self.allocs()[k] by {
                assert(other.allocs().contains_key(k));
            }
        }
    }

    /// Set one memory byte and its permission byte, marking the block dirty.
    fn load_byte_dirty(&mut self, a: usize, val: u8, p: u8)
        requires
            old(self).wf(),
            (a as int) < old(self).size(),
        ensures
            final(self).wf(),
            final(self).mem() == old(self).mem().update(a as int, val),
            final(self).perms() == old(self).perms().update(a as int, p),
            final(self).size() == old(self).size(),
            final(self).alloc_cursor() == old(self).alloc_cursor(),
            final(self).allocs() == old(self).allocs(),
            final(self).snap_mem() == old(self).snap_mem(),
            final(self).snap_perms() == old(self).snap_perms(),
            forall|b: int|
                final(self).dirty_has(b) <==> old(self).dirty_has(b) || b == Self::block_of(
                    a as int,
                ),
    {
        let block = a / DIRTY_BLOCK_SIZE;
        proof {
            vstd::arithmetic::div_mod::lemma_div_is_ordered(
                a as int,
                old(self).size() - 1,
                DIRTY_BLOCK_SIZE as int,
            );
            vstd::arithmetic::div_mod::lemma_div_is_ordered(
                old(self).size() - 1,
                old(self).size(),
                DIRTY_BLOCK_SIZE as int,
            );
        }
        self.mark_dirty(block);
        let ghost mid = *self;
        self.memory[a] = val;
        self.permissions[a] = p;
        proof {
            assert(self.dirty_log() == mid.dirty_log());
            assert(self.bitmap_words() == mid.bitmap_words());
            assert(self.mem() =~= old(self).mem().update(a as int, val));
            assert(self.perms() =~= old(self).perms().update(a as int, p));
            assert forall|b: int|
                0 <= b < self.num_blocks() implies ((#[trigger] self.bitmap_bit(b))
                <==> self.dirty_has(b)) by {
                assert(self.bitmap_bit(b) == mid.bitmap_bit(b));
                assert(self.dirty_has(b) == mid.dirty_has(b));
            }
            assert forall|x: int|
                0 <= x < self.size() && !self.dirty_has(Self::block_of(x)) implies (
            #[trigger] self.mem()[x]) == self.snap_mem()[x] && self.perms()[x]
                == self.snap_perms()[x] by {
                assert(mid.dirty_has(Self::block_of(a as int)));
                assert(self.dirty_has(Self::block_of(a as int)));
                assert(x != a);
                assert(!mid.dirty_has(Self::block_of(x)));
                assert(mid.mem()[x] == mid.snap_mem()[x]);
                assert(mid.perms()[x] == mid.snap_perms()[x]);
            }
            assert forall|k: usize| #[trigger] self.allocs().contains_key(k) implies k
                + self.allocs()[k] <= self.alloc_cursor() && k + self.allocs()[k]
                <= self.size() && 1 <= self.allocs()[k] by {
                assert(mid.allocs().contains_key(k));
            }
        }
    }

    /// Replace the permission bytes of `[addr, addr + size)` with `perm`,
    /// marking every touched block dirty; fails when the range is out of
    /// bounds.
    pub fn set_permissions(&mut self, addr: VirtAddr, size: usize, perm: Perm) -> (r: Option<()>)
        requires
            old(self).wf(),
        ensures
            final(self).wf(),
            final(self).size() == old(self).size(),
            final(self).mem() == old(self).mem(),
            final(self).alloc_cursor() == old(self).alloc_cursor(),
            final(self).allocs() == old(self).allocs(),
            final(self).snap_mem() == old(self).snap_mem(),
            final(self).snap_perms() == old(self).snap_perms(),
            r.is_some() <==> addr.0 + size <= old(self).size(),
            r.is_none() ==> final(self).perms() == old(self).perms() && final(self).dirty_log()
                == old(self).dirty_log(),
            r.is_some() ==> final(self).perms() == Self::set_seq(
                old(self).perms(),
                addr.0 as int,
                size as int,
                perm.0,
            ) && Self::dirty_extended(old(self), final(self), addr.0 as int, size as int),
    {
        let end = match addr.0.checked_add(size) {
            Some(e) => e,
            None => {
                return None;
            },
        };
        if end > self.memory.len() {
            return None;
        }
        let mut i: usize = 0;
        while i < size
            invariant
                self.wf(),
                addr.0 + size <= self.size(),
                i <= size,
                self.size() == old(self).size(),
                self.mem() == old(self).mem(),
                self.alloc_cursor() == old(self).alloc_cursor(),
                self.allocs() == old(self).allocs(),
                self.snap_mem() == old(self).snap_mem(),
                self.snap_perms() == old(self).snap_perms(),
                forall|x: int|
                    0 <= x < self.size() ==> (#[trigger] self.perms()[x]) == (if addr.0 <= x
                        < addr.0 + i {
                        perm.0
                    } else {
                        old(self).perms()[x]
                    }),
                Self::dirty_extended(old(self), self, addr.0 as int, i as int),
            decreases size - i,
        {
            self.set_perm_byte_dirty(addr.0 + i, perm.0);
            proof {
                assert forall|b: int| #[trigger] self.dirty_has(b) implies old(self).dirty_has(b)
                    || (exists|a: int|
                    addr.0 <= a < addr.0 + (i + 1) && Self::block_of(a) == b) by {
                    if !old(self).dirty_has(b) {
                        if b == Self::block_of(addr.0 + i as int) {
                            assert(Self::block_of(addr.0 + i as int) == b);
                        }
                    }
                }
            }
            i += 1;
        }
        proof {
            assert(self.perms() =~= Self::set_seq(
                old(self).perms(),
                addr.0 as int,
                size as int,
                perm.0,
            ));
        }
        Some(())
    }

    /// Allocate `size` bytes from the guest heap: the result is block
    /// aligned, disjoint from every prior allocation, granted write and
    /// read-after-write permissions, and recorded for a later `free`.
    pub fn allocate(&mut self, size: usize) -> (r: Option<VirtAddr>)
        requires
            old(self).wf(),
        ensures
            final(self).wf(),
            final(self).size() == old(self).size(),
            final(self).mem() == old(self).mem(),
            final(self).snap_mem() == old(self).snap_mem(),
            final(self).snap_perms() == old(self).snap_perms(),
            r.is_some() <==> old(self).spec_alloc_ok(size),
            r.is_none() ==> final(self).perms() == old(self).perms() && final(self).dirty_log()
                == old(self).dirty_log() && final(self).alloc_cursor() == old(self).alloc_cursor() && final(self).allocs() == old(self).allocs(),
            r.is_some() ==> r == Some(VirtAddr(old(self).alloc_cursor() as usize)) && final(self).alloc_cursor() == old(self).alloc_cursor() + Self::align_up(size as int) && final(self).allocs() == old(self).allocs().insert(old(self).alloc_cursor() as usize, size)
                && final(self).perms() == Self::set_seq(
                old(self).perms(),
                old(self).alloc_cursor(),
                size as int,
                PERM_WRITE | PERM_RAW,
            ) && Self::dirty_extended(
                old(self),
                final(self),
                old(self).alloc_cursor(),
                size as int,
            ),
    {
        if size == 0 {
            return None;
        }
        let plus = match size.checked_add(DIRTY_BLOCK_SIZE - 1) {
            Some(p) => p,
            None => {
                return None;
            },
        };
        let align = plus / DIRTY_BLOCK_SIZE * DIRTY_BLOCK_SIZE;
        let base = self.cur_alc;
        let newcur = match base.checked_add(align) {
            Some(x) => x,
            None => {
                proof {
                    assert(Self::align_up(size as int) == align) by {
                        vstd::arithmetic::mul::lemma_mul_is_commutative(
                            plus as int / (DIRTY_BLOCK_SIZE as int),
                            DIRTY_BLOCK_SIZE as int,
                        );
                    }
                }
                return None;
            },
        };
        if newcur > self.memory.len() {
            proof {
                assert(Self::align_up(size as int) == align) by {
                    vstd::arithmetic::mul::lemma_mul_is_commutative(
                        plus as int / (DIRTY_BLOCK_SIZE as int),
                        DIRTY_BLOCK_SIZE as int,
                    );
                }
            }
            return None;
        }
        proof {
            assert(Self::align_up(size as int) == align) by {
                vstd::arithmetic::mul::lemma_mul_is_commutative(
                    plus as int / (DIRTY_BLOCK_SIZE as int),
                    DIRTY_BLOCK_SIZE as int,
                );
            }
            assert(size <= align) by {
                vstd::arithmetic::div_mod::lemma_fundamental_div_mod(
                    plus as int,
                    DIRTY_BLOCK_SIZE as int,
                );
                vstd::arithmetic::div_mod::lemma_mod_division_less_than_divisor(
                    plus as int,
                    DIRTY_BLOCK_SIZE as int,
                );
                vstd::arithmetic::mul::lemma_mul_is_commutative(
                    plus as int / (DIRTY_BLOCK_SIZE as int),
                    DIRTY_BLOCK_SIZE as int,
                );
            }
            assert(align as int % (DIRTY_BLOCK_SIZE as int) == 0) by {
                vstd::arithmetic::div_mod::lemma_mod_multiples_basic(
                    plus as int / (DIRTY_BLOCK_SIZE as int),
                    DIRTY_BLOCK_SIZE as int,
                );
                vstd::arithmetic::mul::lemma_mul_is_commutative(
                    plus as int / (DIRTY_BLOCK_SIZE as int),
                    DIRTY_BLOCK_SIZE as int,
                );
            }
            assert(newcur as int % (DIRTY_BLOCK_SIZE as int) == 0) by {
                vstd::arithmetic::div_mod::lemma_add_mod_noop(
                    base as int,
                    align as int,
                    DIRTY_BLOCK_SIZE as int,
                );
            }
            assert(old(self).spec_alloc_ok(size));
        }
        let mut i: usize = 0;
        while i < size
            invariant
                self.wf(),
                base == old(self).alloc_cursor(),
                base + size <= newcur <= self.size(),
                i <= size,
                self.size() == old(self).size(),
                self.mem() == old(self).mem(),
                self.alloc_cursor() == old(self).alloc_cursor(),
                self.allocs() == old(self).allocs(),
                self.snap_mem() == old(self).snap_mem(),
                self.snap_perms() == old(self).snap_perms(),
                forall|x: int|
                    0 <= x < self.size() ==> (#[trigger] self.perms()[x]) == (if base <= x < base
                        + i {
                        PERM_WRITE | PERM_RAW
                    } else {
                        old(self).perms()[x]
                    }),
                Self::dirty_extended(old(self), self, base as int, i as int),
            decreases size - i,
        {
            self.set_perm_byte_dirty(base + i, PERM_WRITE | PERM_RAW);
            proof {
                assert forall|b: int| #[trigger] self.dirty_has(b) implies old(self).dirty_has(b)
                    || (exists|a: int|
                    base <= a < base + (i + 1) && Self::block_of(a) == b) by {
                    if !old(self).dirty_has(b) {
                        if b == Self::block_of(base + i as int) {
                            assert(Self::block_of(base + i as int) == b);
                        }
                    }
                }
            }
            i += 1;
        }
        let ghost done = *self;
        self.cur_alc = newcur;
        self.allocations.insert(base, size);
        proof {
            assert(self.bitmap_words() == done.bitmap_words());
            assert(self.dirty_log() == done.dirty_log());
            assert(self.mem() == done.mem());
            assert(self.perms() == done.perms());
            assert forall|b: int|
                0 <= b < self.num_blocks() implies ((#[trigger] self.bitmap_bit(b))
                <==> self.dirty_has(b)) by {
                assert(self.bitmap_bit(b) == done.bitmap_bit(b));
                assert(self.dirty_has(b) == done.dirty_has(b));
            }
            assert forall|x: int|
                0 <= x < self.size() && !self.dirty_has(Self::block_of(x)) implies (
            #[trigger] self.mem()[x]) == self.snap_mem()[x] && self.perms()[x]
                == self.snap_perms()[x] by {
                assert(!done.dirty_has(Self::block_of(x)));
                assert(done.mem()[x] == done.snap_mem()[x]);
                assert(done.perms()[x] == done.snap_perms()[x]);
            }
            assert(self.allocs() == done.allocs().insert(base, size));
            assert forall|k: usize| #[trigger] self.allocs().contains_key(k) implies k
                + self.allocs()[k] <= self.alloc_cursor() && k + self.allocs()[k]
                <= self.size() && 1 <= self.allocs()[k] by {
                if k == base {
                    assert(self.allocs()[k] == size);
                } else {
                    assert(done.allocs().contains_key(k));
                }
            }
            assert(self.perms() =~= Self::set_seq(
                old(self).perms(),
                old(self).alloc_cursor(),
                size as int,
                PERM_WRITE | PERM_RAW,
            ));
            assert forall|b: int| #[trigger] self.dirty_has(b) <==> (old(self).dirty_has(b)
                || (exists|aa: int| (base as int) <= aa < (base as int) + (size as int) && Self::block_of(aa) == b)) by {
                assert(self.dirty_log() == done.dirty_log());
                assert(self.dirty_has(b) == done.dirty_has(b));
                assert(done.dirty_has(b) <==> (old(self).dirty_has(b) || (exists|aa: int|
                    (base as int) <= aa < (base as int) + (size as int) && Self::block_of(aa) == b)));
            }
        }
        Some(VirtAddr(base))
    }

    /// The size of the live allocation based at `addr`, if there is one.
    pub fn get_alc(&self, addr: VirtAddr) -> (r: Option<usize>)
        requires
            self.wf(),
        ensures
            r == if self.allocs().contains_key(addr.0) {
                Some(self.allocs()[addr.0])
            } else {
                None::<usize>
            },
    {
        match self.allocations.get(&addr.0) {
            Some(s) => Some(*s),
            None => None,
        }
    }

    /// Release the allocation based exactly at `base`: its bytes lose their
    /// read and write permissions (execute is untouched), and the entry is
    /// removed. Freeing any other address is an invalid free.
    pub fn free(&mut self, base: VirtAddr) -> (r: Result<(), VmExit>)
        requires
            old(self).wf(),
        ensures
            final(self).wf(),
            final(self).size() == old(self).size(),
            final(self).mem() == old(self).mem(),
            final(self).alloc_cursor() == old(self).alloc_cursor(),
            final(self).snap_mem() == old(self).snap_mem(),
            final(self).snap_perms() == old(self).snap_perms(),
            r.is_ok() <==> old(self).allocs().contains_key(base.0),
            r.is_err() ==> r == Err::<(), VmExit>(VmExit::InvalidFree(base)) && final(self).perms()
                == old(self).perms() && final(self).dirty_log() == old(self).dirty_log() && final(self).allocs() == old(self).allocs(),
            r.is_ok() ==> final(self).allocs() == old(self).allocs().remove(base.0) && final(self).perms() == Self::mask_seq(
                old(self).perms(),
                base.0 as int,
                old(self).allocs()[base.0] as int,
                !(PERM_READ | PERM_WRITE),
            ) && Self::dirty_extended(
                old(self),
                final(self),
                base.0 as int,
                old(self).allocs()[base.0] as int,
            ),
    {
        let sz = match self.allocations.get(&base.0) {
            Some(s) => *s,
            None => {
                return Err(VmExit::InvalidFree(base));
            },
        };
        proof {
            assert(old(self).allocs().contains_key(base.0));
            assert(base.0 + sz <= old(self).size());
        }
        let mut i: usize = 0;
        while i < sz
            invariant
                self.wf(),
                base.0 + sz <= self.size(),
                i <= sz,
                self.size() == old(self).size(),
                self.mem() == old(self).mem(),
                self.alloc_cursor() == old(self).alloc_cursor(),
                self.allocs() == old(self).allocs(),
                self.snap_mem() == old(self).snap_mem(),
                self.snap_perms() == old(self).snap_perms(),
                forall|x: int|
                    0 <= x < self.size() ==> (#[trigger] self.perms()[x]) == (if base.0 <= x
                        < base.0 + i {
                        old(self).perms()[x] & !(PERM_READ | PERM_WRITE)
                    } else {
                        old(self).perms()[x]
                    }),
                Self::dirty_extended(old(self), self, base.0 as int, i as int),
            decreases sz - i,
        {
            let a = base.0 + i;
            let p = self.permissions[a];
            self.set_perm_byte_dirty(a, p & !(PERM_READ | PERM_WRITE));
            proof {
                assert forall|b: int| #[trigger] self.dirty_has(b) implies old(self).dirty_has(b)
                    || (exists|aa: int|
                    base.0 <= aa < base.0 + (i + 1) && Self::block_of(aa) == b) by {
                    if !old(self).dirty_has(b) {
                        if b == Self::block_of(base.0 + i as int) {
                            assert(Self::block_of(base.0 + i as int) == b);
                        }
                    }
                }
            }
            i += 1;
        }
        let ghost done = *self;
        self.allocations.remove(&base.0);
        proof {
            assert(self.bitmap_words() == done.bitmap_words());
            assert(self.dirty_log() == done.dirty_log());
            assert(self.mem() == done.mem());
            assert(self.perms() == done.perms());
            assert forall|b: int|
                0 <= b < self.num_blocks() implies ((#[trigger] self.bitmap_bit(b))
                <==> self.dirty_has(b)) by {
                assert(self.bitmap_bit(b) == done.bitmap_bit(b));
                assert(self.dirty_has(b) == done.dirty_has(b));
            }
            assert forall|x: int|
                0 <= x < self.size() && !self.dirty_has(Self::block_of(x)) implies (
            #[trigger] self.mem()[x]) == self.snap_mem()[x] && self.perms()[x]
                == self.snap_perms()[x] by {
                assert(!done.dirty_has(Self::block_of(x)));
                assert(done.mem()[x] == done.snap_mem()[x]);
                assert(done.perms()[x] == done.snap_perms()[x]);
            }
            assert forall|k: usize| #[trigger] self.allocs().contains_key(k) implies k
                + self.allocs()[k] <= self.alloc_cursor() && k + self.allocs()[k]
                <= self.size() && 1 <= self.allocs()[k] by {
                assert(done.allocs().contains_key(k));
            }
            assert(self.perms() =~= Self::mask_seq(
                old(self).perms(),
                base.0 as int,
                sz as int,
                !(PERM_READ | PERM_WRITE),
            ));
            assert forall|b: int| #[trigger] self.dirty_has(b) <==> (old(self).dirty_has(b)
                || (exists|aa: int| (base.0 as int) <= aa < (base.0 as int) + (sz as int) && Self::block_of(aa) == b)) by {
                assert(self.dirty_log() == done.dirty_log());
                assert(self.dirty_has(b) == done.dirty_has(b));
                assert(done.dirty_has(b) <==> (old(self).dirty_has(b) || (exists|aa: int|
                    (base.0 as int) <= aa < (base.0 as int) + (sz as int) && Self::block_of(aa) == b)));
            }
        }
        Ok(())
    }

    /// The memory contents after loading one image section: the file bytes
    /// at the section base, zero padding up to the section's memory size,
    /// and everything else untouched.
    pub open spec fn loaded_mem(mem: Seq<u8>, vaddr: int, data: Seq<u8>, mem_size: int) -> Seq<
        u8,
    > {
        Seq::new(
            mem.len(),
            |x: int|
                if vaddr <= x < vaddr + data.len() {
                    data[x - vaddr]
                } else if vaddr + data.len() <= x < vaddr + mem_size {
                    0u8
                } else {
                    mem[x]
                },
        )
    }

    /// Load one section of a guest image: writes the file bytes, zero-fills
    /// the remainder of the section, sets the section's permissions on the
    /// whole range, and moves the allocator cursor past the section.
    pub fn load_section(&mut self, data: &[u8], sec: &Section) -> (r: Option<()>)
        requires
            old(self).wf(),
            data@.len() == sec.file_size,
            sec.file_size <= sec.mem_size,
        ensures
            final(self).wf(),
            final(self).size() == old(self).size(),
            final(self).snap_mem() == old(self).snap_mem(),
            final(self).snap_perms() == old(self).snap_perms(),
            final(self).allocs() == old(self).allocs(),
            r.is_some() <==> (sec.virt_addr.0 + sec.mem_size <= old(self).size()
                && sec.virt_addr.0 + sec.mem_size + DIRTY_BLOCK_SIZE - 1 <= usize::MAX),
            r.is_none() ==> final(self).mem() == old(self).mem() && final(self).perms() == old(self).perms() && final(self).dirty_log() == old(self).dirty_log() && final(self).alloc_cursor() == old(self).alloc_cursor(),
            r.is_some() ==> final(self).mem() == Self::loaded_mem(
                old(self).mem(),
                sec.virt_addr.0 as int,
                data@,
                sec.mem_size as int,
            ) && final(self).perms() == Self::set_seq(
                old(self).perms(),
                sec.virt_addr.0 as int,
                sec.mem_size as int,
                sec.permissions.0,
            ) && Self::dirty_extended(
                old(self),
                final(self),
                sec.virt_addr.0 as int,
                sec.mem_size as int,
            ) && final(self).alloc_cursor() == (if Self::align_up(
                sec.virt_addr.0 + sec.mem_size as int,
            ) > old(self).alloc_cursor() {
                Self::align_up(sec.virt_addr.0 + sec.mem_size as int)
            } else {
                old(self).alloc_cursor()
            }),
    {
        let vaddr = sec.virt_addr.0;
        let end = match vaddr.checked_add(sec.mem_size) {
            Some(e) => e,
            None => {
                return None;
            },
        };
        if end > self.memory.len() {
            return None;
        }
        let plus = match end.checked_add(DIRTY_BLOCK_SIZE - 1) {
            Some(p) => p,
            None => {
                return None;
            },
        };
        let newcur = plus / DIRTY_BLOCK_SIZE * DIRTY_BLOCK_SIZE;
        proof {
            assert(Self::align_up(end as int) == newcur) by {
                vstd::arithmetic::mul::lemma_mul_is_commutative(
                    plus as int / (DIRTY_BLOCK_SIZE as int),
                    DIRTY_BLOCK_SIZE as int,
                );
            }
            assert(newcur as int % (DIRTY_BLOCK_SIZE as int) == 0) by {
                vstd::arithmetic::div_mod::lemma_mod_multiples_basic(
                    plus as int / (DIRTY_BLOCK_SIZE as int),
                    DIRTY_BLOCK_SIZE as int,
                );
                vstd::arithmetic::mul::lemma_mul_is_commutative(
                    plus as int / (DIRTY_BLOCK_SIZE as int),
                    DIRTY_BLOCK_SIZE as int,
                );
            }
            assert(end <= newcur) by {
                vstd::arithmetic::div_mod::lemma_fundamental_div_mod(
                    plus as int,
                    DIRTY_BLOCK_SIZE as int,
                );
                vstd::arithmetic::div_mod::lemma_mod_division_less_than_divisor(
                    plus as int,
                    DIRTY_BLOCK_SIZE as int,
                );
                vstd::arithmetic::mul::lemma_mul_is_commutative(
                    plus as int / (DIRTY_BLOCK_SIZE as int),
                    DIRTY_BLOCK_SIZE as int,
                );
            }
        }
        let mut i: usize = 0;
        while i < sec.mem_size
            invariant
                self.wf(),
                vaddr == sec.virt_addr.0,
                data@.len() == sec.file_size,
                sec.file_size <= sec.mem_size,
                vaddr + sec.mem_size <= self.size(),
                i <= sec.mem_size,
                self.size() == old(self).size(),
                self.alloc_cursor() == old(self).alloc_cursor(),
                self.allocs() == old(self).allocs(),
                self.snap_mem() == old(self).snap_mem(),
                self.snap_perms() == old(self).snap_perms(),
                forall|x: int|
                    0 <= x < self.size() ==> (#[trigger] self.mem()[x]) == (if vaddr <= x < vaddr
                        + i {
                        if x < vaddr + sec.file_size {
                            data@[x - vaddr]
                        } else {
                            0u8
                        }
                    } else {
                        old(self).mem()[x]
                    }),
                forall|x: int|
                    0 <= x < self.size() ==> (#[trigger] self.perms()[x]) == (if vaddr <= x < vaddr
                        + i {
                        sec.permissions.0
                    } else {
                        old(self).perms()[x]
                    }),
                Self::dirty_extended(old(self), self, vaddr as int, i as int),
            decreases sec.mem_size - i,
        {
            let val = if i < sec.file_size {
                data[i]
            } else {
                0u8
            };
            self.load_byte_dirty(vaddr + i, val, sec.permissions.0);
            proof {
                assert forall|b: int| #[trigger] self.dirty_has(b) implies old(self).dirty_has(b)
                    || (exists|aa: int|
                    vaddr <= aa < vaddr + (i + 1) && Self::block_of(aa) == b) by {
                    if !old(self).dirty_has(b) {
                        if b == Self::block_of(vaddr + i as int) {
                            assert(Self::block_of(vaddr + i as int) == b);
                        }
                    }
                }
            }
            i += 1;
        }
        let ghost done = *self;
        if newcur > self.cur_alc {
            self.cur_alc = newcur;
        }
        proof {
            assert(self.bitmap_words() == done.bitmap_words());
            assert(self.dirty_log() == done.dirty_log());
            assert(self.mem() == done.mem());
            assert(self.perms() == done.perms());
            assert(self.allocs() == done.allocs());
            assert forall|b: int|
                0 <= b < self.num_blocks() implies ((#[trigger] self.bitmap_bit(b))
                <==> self.dirty_has(b)) by {
                assert(self.bitmap_bit(b) == done.bitmap_bit(b));
                assert(self.dirty_has(b) == done.dirty_has(b));
            }
            assert forall|x: int|
                0 <= x < self.size() && !self.dirty_has(Self::block_of(x)) implies (
            #[trigger] self.mem()[x]) == self.snap_mem()[x] && self.perms()[x]
                == self.snap_perms()[x] by {
                assert(!done.dirty_has(Self::block_of(x)));
                assert(done.mem()[x] == done.snap_mem()[x]);
                assert(done.perms()[x] == done.snap_perms()[x]);
            }
            assert forall|k: usize| #[trigger] self.allocs().contains_key(k) implies k
                + self.allocs()[k] <= self.alloc_cursor() && k + self.allocs()[k]
                <= self.size() && 1 <= self.allocs()[k] by {
                assert(done.allocs().contains_key(k));
            }
            assert(self.mem() =~= Self::loaded_mem(
                old(self).mem(),
                vaddr as int,
                data@,
                sec.mem_size as int,
            ));
            assert(self.perms() =~= Self::set_seq(
                old(self).perms(),
                vaddr as int,
                sec.mem_size as int,
                sec.permissions.0,
            ));
            assert forall|b: int| #[trigger] self.dirty_has(b) <==> (old(self).dirty_has(b)
                || (exists|aa: int| (vaddr as int) <= aa < (vaddr as int) + (sec.mem_size as int) && Self::block_of(aa) == b)) by {
                assert(self.dirty_log() == done.dirty_log());
                assert(self.dirty_has(b) == done.dirty_has(b));
                assert(done.dirty_has(b) <==> (old(self).dirty_has(b) || (exists|aa: int|
                    (vaddr as int) <= aa < (vaddr as int) + (sec.mem_size as int) && Self::block_of(aa) == b)));
            }
        }
        Some(())
    }

    /// Read the `n`-byte little-endian word at `addr`, requiring the
    /// permission bits `req` on every byte.
    pub fn read_word_perms(&self, addr: VirtAddr, n: usize, req: Perm) -> (r: Result<u64, VmExit>)
        requires
            self.wf(),
            1 <= n <= 8,
        ensures
            match r {
                Ok(v) => self.spec_peek(addr, n, req.0) == Ok::<Seq<u8>, VmExit>(
                    self.mem().subrange(addr.0 as int, addr.0 + n),
                ) && v as int == word_of(self.mem().subrange(addr.0 as int, addr.0 + n)),
                Err(e) => self.spec_peek(addr, n, req.0) == Err::<Seq<u8>, VmExit>(e),
            },
            r.is_ok() <==> (addr.0 + n <= usize::MAX && addr.0 + n <= self.size()
                && self.range_has(addr.0 as int, n as int, req.0)),
    {
        let bytes = match self.peek(addr, n, req) {
            Ok(v) => v,
            Err(e) => {
                return Err(e);
            },
        };
        let ghost s = self.mem().subrange(addr.0 as int, addr.0 + n);
        let mut val: u64 = 0;
        let mut k = n;
        proof {
            assert(s.subrange(n as int, n as int) =~= Seq::<u8>::empty());
        }
        while k > 0
            invariant
                bytes@ == s,
                s.len() == n <= 8,
                k <= n,
                val as int == word_of(s.subrange(k as int, n as int)),
            decreases k,
        {
            k = k - 1;
            proof {
                lemma_word_of_bound(s.subrange(k + 1, n as int));
                lemma_pow256_values();
                lemma_pow256_monotone((n - k - 1) as int, 7);
            }
            val = val * 256 + (bytes[k] as u64);
            proof {
                let t = s.subrange(k as int, n as int);
                assert(t[0] == s[k as int]);
                assert(t.subrange(1, t.len() as int) =~= s.subrange(k + 1, n as int));
            }
        }
        proof {
            assert(s.subrange(0, n as int) =~= s);
        }
        Ok(val)
    }

    /// Read the `n`-byte little-endian word at `addr`; every byte must be
    /// readable.
    pub fn read_word(&self, addr: VirtAddr, n: usize) -> (r: Result<u64, VmExit>)
        requires
            self.wf(),
            1 <= n <= 8,
        ensures
            match r {
                Ok(v) => self.spec_read(addr, n) == Ok::<Seq<u8>, VmExit>(
                    self.mem().subrange(addr.0 as int, addr.0 + n),
                ) && v as int == word_of(self.mem().subrange(addr.0 as int, addr.0 + n)),
                Err(e) => self.spec_read(addr, n) == Err::<Seq<u8>, VmExit>(e),
            },
            r.is_ok() <==> (addr.0 + n <= usize::MAX && addr.0 + n <= self.size()
                && self.range_has(addr.0 as int, n as int, PERM_READ)),
    {
        self.read_word_perms(addr, n, Perm(PERM_READ))
    }

    /// Write `val` as an `n`-byte little-endian word at `addr`; every byte
    /// must be writable.
    pub fn write_word(&mut self, addr: VirtAddr, val: u64, n: usize) -> (r: Result<(), VmExit>)
        requires
            old(self).wf(),
            1 <= n <= 8,
            (val as int) < pow256(n as int),
        ensures
            final(self).wf(),
            final(self).size() == old(self).size(),
            final(self).alloc_cursor() == old(self).alloc_cursor(),
            final(self).allocs() == old(self).allocs(),
            final(self).snap_mem() == old(self).snap_mem(),
            final(self).snap_perms() == old(self).snap_perms(),
            r.is_ok() <==> old(self).spec_write_ok(addr, n as int),
            r.is_ok() ==> final(self).mem() == Self::splice(
                old(self).mem(),
                addr.0 as int,
                le_bytes(val as int, n as int),
            ) && final(self).perms() == Self::promote_seq(
                old(self).perms(),
                addr.0 as int,
                n as int,
            ) && Self::dirty_extended(old(self), final(self), addr.0 as int, n as int)
                && word_of(final(self).mem().subrange(addr.0 as int, addr.0 + n)) == val as int,
            r.is_err() ==> r == Err::<(), VmExit>(old(self).spec_write_err(addr, n as usize))
                && final(self).mem() == old(self).mem() && final(self).perms() == old(self).perms()
                && final(self).dirty_log() == old(self).dirty_log(),
    {
        let mut bytes: Vec<u8> = Vec::new();
        let mut cur = val;
        let mut i: usize = 0;
        proof {
            lemma_pow256_values();
            assert(bytes@ =~= le_bytes(val as int, 0));
        }
        while i < n
            invariant
                n <= 8,
                (val as int) < pow256(n as int),
                i <= n,
                bytes@ == le_bytes(val as int, i as int),
                bytes@.len() == i,
                cur as int == (val as int) / pow256(i as int),
            decreases n - i,
        {
            bytes.push((cur & 0xff) as u8);
            proof {
                lemma_u64_low_byte(cur);
                lemma_le_bytes_len(val as int, i as int);
                lemma_le_bytes_extend(val as int, i as int);
                lemma_pow256_pos(i as int);
                vstd::arithmetic::div_mod::lemma_div_denominator(
                    val as int,
                    pow256(i as int),
                    256,
                );
            }
            cur = cur >> 8;
            i = i + 1;
        }
        proof {
            lemma_le_bytes_len(val as int, n as int);
        }
        let r = self.write_from(addr, bytes.as_slice());
        proof {
            if r.is_ok() {
                lemma_word_le_round_trip(val as int, n as int);
                assert(final(self).mem().subrange(addr.0 as int, addr.0 + n) =~= le_bytes(
                    val as int,
                    n as int,
                ));
            }
        }
        r
    }
}

/// The value of a little-endian word is nonnegative and below 256 to its
/// length.
pub proof fn lemma_word_of_bound(s: Seq<u8>)
    ensures
        0 <= word_of(s) < pow256(s.len() as int),
    decreases s.len(),
{
    if s.len() > 0 {
        lemma_word_of_bound(s.subrange(1, s.len() as int));
    }
}

/// 256 to any nonnegative power is positive.
pub proof fn lemma_pow256_pos(n: int)
    ensures
        pow256(n) >= 1,
    decreases (if n > 0 {
        n
    } else {
        0
    }),
{
    if n > 0 {
        lemma_pow256_pos(n - 1);
    }
}

/// 256 to the power is monotone in the exponent.
pub proof fn lemma_pow256_monotone(m: int, n: int)
    requires
        m <= n,
    ensures
        pow256(m) <= pow256(n),
    decreases (if n > 0 {
        n
    } else {
        0
    }),
{
    if m < n && n > 0 {
        lemma_pow256_monotone(m, n - 1);
        lemma_pow256_pos(n - 1);
    }
}

/// The concrete values of the small powers of 256.
pub proof fn lemma_pow256_values()
    ensures
        pow256(0) == 1,
        pow256(1) == 0x100,
        pow256(2) == 0x1_0000,
        pow256(3) == 0x100_0000,
        pow256(4) == 0x1_0000_0000,
        pow256(5) == 0x100_0000_0000,
        pow256(6) == 0x1_0000_0000_0000,
        pow256(7) == 0x100_0000_0000_0000,
        pow256(8) == 0x1_0000_0000_0000_0000,
{
    reveal_with_fuel(pow256, 9);
}

/// The little-endian bytes of a value form a sequence of exactly `n` bytes.
pub proof fn lemma_le_bytes_len(v: int, n: int)
    requires
        n >= 0,
    ensures
        le_bytes(v, n).len() == n,
    decreases n,
{
    if n > 0 {
        lemma_le_bytes_len(v / 256, n - 1);
    }
}

/// Extending a little-endian encoding by one byte appends the next byte of
/// the value.
pub proof fn lemma_le_bytes_extend(v: int, m: int)
    requires
        v >= 0,
        m >= 0,
    ensures
        le_bytes(v, m + 1) == le_bytes(v, m).push((((v / pow256(m)) % 256) as u8)),
    decreases m,
{
    lemma_le_bytes_len(v, m);
    if m == 0 {
        assert(le_bytes(v, 1) =~= le_bytes(v, 0).push(((v % 256) as u8)));
    } else {
        lemma_pow256_pos(m - 1);
        lemma_le_bytes_extend(v / 256, m - 1);
        vstd::arithmetic::div_mod::lemma_div_denominator(v, 256, pow256(m - 1));
        lemma_le_bytes_len(v / 256, m - 1);
        assert(le_bytes(v, m + 1) == seq![((v % 256) as u8)] + le_bytes(v / 256, m));
        assert(le_bytes(v / 256, m) == le_bytes(v / 256, m - 1).push(
            (((v / 256 / pow256(m - 1)) % 256) as u8),
        ));
        assert(le_bytes(v, m + 1) =~= (seq![((v % 256) as u8)] + le_bytes(v / 256, m - 1)).push(
            (((v / pow256(m)) % 256) as u8),
        ));
    }
}

/// Decoding the little-endian bytes of a value gives the value back.
pub proof fn lemma_word_le_round_trip(v: int, n: int)
    requires
        0 <= v < pow256(n),
        0 <= n,
    ensures
        word_of(le_bytes(v, n)) == v,
    decreases n,
{
    if n == 0 {
    } else {
        lemma_pow256_pos(n - 1);
        assert(v < 256 * pow256(n - 1));
        vstd::arithmetic::div_mod::lemma_multiply_divide_lt(v, pow256(n - 1), 256);
        lemma_word_le_round_trip(v / 256, n - 1);
        let s = le_bytes(v, n);
        lemma_le_bytes_len(v, n);
        assert(s[0] == (v % 256) as u8);
        assert(s.subrange(1, s.len() as int) =~= le_bytes(v / 256, n - 1));
        vstd::arithmetic::div_mod::lemma_fundamental_div_mod(v, 256);
    }
}

/// Masking with 0xff takes a value's low byte; shifting right by eight
/// divides by 256.
pub proof fn lemma_u64_low_byte(x: u64)
    by (bit_vector)
    ensures
        x & 0xff == x % 256,
        x >> 8 == x / 256,
{
}

/// Where a scan finds the first byte lacking `req` at offset `i`, the spec
/// function `first_lacking` agrees.
proof fn lemma_first_lacking_at(perms: Seq<u8>, addr: int, len: int, req: u8, i: int)
    requires
        0 <= i < len,
        0 <= addr,
        addr + len <= perms.len(),
        forall|j: int| 0 <= j < i ==> has_perm(#[trigger] perms[addr + j], req),
        !has_perm(perms[addr + i], req),
    ensures
        Mmu::first_lacking(perms, addr, len, req) == i,
    decreases i,
{
    if i > 0 {
        assert(has_perm(perms[addr + 0], req));
        assert forall|j: int| 0 <= j < i - 1 implies has_perm(
            #[trigger] perms[(addr + 1) + j],
            req,
        ) by {
            assert(has_perm(perms[addr + (j + 1)], req));
        }
        assert(!has_perm(perms[(addr + 1) + (i - 1)], req));
        lemma_first_lacking_at(perms, addr + 1, len - 1, req, i - 1);
    }
}

/// Bit `j` of the zero word is clear.
proof fn lemma_u64_bit_of_zero(j: u64)
    by (bit_vector)
    requires
        j < 64,
    ensures
        (0u64 >> j) & 1u64 == 0u64,
{
}

/// Testing a bit with a mask agrees with testing it by shifting.
proof fn lemma_u64_test_bit(w: u64, k: u64)
    by (bit_vector)
    requires
        k < 64,
    ensures
        (w & (1u64 << k) == 0) <==> ((w >> k) & 1u64 == 0u64),
        ((w >> k) & 1u64 == 0u64) || ((w >> k) & 1u64 == 1u64),
{
}

/// Setting bit `k` leaves every other bit as it was and sets bit `k`.
proof fn lemma_u64_set_bit(w: u64, k: u64, j: u64)
    by (bit_vector)
    requires
        k < 64,
        j < 64,
    ensures
        ((w | (1u64 << k)) >> j) & 1u64 == (if j == k {
            1u64
        } else {
            (w >> j) & 1u64
        }),
{
}

/// Clearing bit `k` leaves every other bit as it was and clears bit `k`.
proof fn lemma_u64_clear_bit(w: u64, k: u64, j: u64)
    by (bit_vector)
    requires
        k < 64,
        j < 64,
    ensures
        ((w & !(1u64 << k)) >> j) & 1u64 == (if j == k {
            0u64
        } else {
            (w >> j) & 1u64
        }),
{
}

/// Bits of a permission byte after promotion: the write, execute and
/// read-after-write bits are untouched, and the read bit is set exactly
/// where the byte was readable or marked read-after-write.
pub proof fn lemma_promote_bits(p: u8)
    by (bit_vector)
    ensures
        (promote(p) & PERM_READ == PERM_READ) <==> (p & PERM_READ == PERM_READ || p & PERM_RAW
            == PERM_RAW),
        promote(p) & PERM_WRITE == p & PERM_WRITE,
        promote(p) & PERM_EXEC == p & PERM_EXEC,
        promote(p) & PERM_RAW == p & PERM_RAW,
{
}

/// Rounding up to whole dirty blocks never shrinks a size, and overshoots
/// by less than one block.
pub proof fn lemma_align_up(size: int)
    requires
        size >= 0,
    ensures
        Mmu::align_up(size) >= size,
        Mmu::align_up(size) < size + DIRTY_BLOCK_SIZE,
        Mmu::align_up(size) % (DIRTY_BLOCK_SIZE as int) == 0,
{
    let plus = size + DIRTY_BLOCK_SIZE - 1;
    vstd::arithmetic::div_mod::lemma_fundamental_div_mod(plus, DIRTY_BLOCK_SIZE as int);
    vstd::arithmetic::div_mod::lemma_mod_division_less_than_divisor(plus, DIRTY_BLOCK_SIZE as int);
    vstd::arithmetic::mul::lemma_mul_is_commutative(
        plus / (DIRTY_BLOCK_SIZE as int),
        DIRTY_BLOCK_SIZE as int,
    );
    vstd::arithmetic::div_mod::lemma_mod_multiples_basic(
        plus / (DIRTY_BLOCK_SIZE as int),
        DIRTY_BLOCK_SIZE as int,
    );
}

/// Bits of a permission byte after a free: the read and write bits are
/// cleared and the execute bit is untouched.
proof fn lemma_free_mask_bits(p: u8)
    by (bit_vector)
    ensures
        (p & !(PERM_READ | PERM_WRITE)) & PERM_READ == 0,
        (p & !(PERM_READ | PERM_WRITE)) & PERM_WRITE == 0,
        (p & !(PERM_READ | PERM_WRITE)) & PERM_EXEC == p & PERM_EXEC,
{
}

/// Where not every byte of a range carries the bits `req`, the first
/// lacking offset is a real offset: it lies in the range, its byte lacks a
/// bit of `req`, and every byte before it carries all of them.
pub proof fn lemma_first_lacking_props(perms: Seq<u8>, addr: int, len: int, req: u8)
    requires
        0 <= addr,
        addr + len <= perms.len(),
        !(forall|a: int| addr <= a < addr + len ==> has_perm(#[trigger] perms[a], req)),
    ensures
        0 <= Mmu::first_lacking(perms, addr, len, req) < len,
        !has_perm(perms[addr + Mmu::first_lacking(perms, addr, len, req)], req),
        forall|j: int|
            0 <= j < Mmu::first_lacking(perms, addr, len, req) ==> has_perm(
                #[trigger] perms[addr + j],
                req,
            ),
    decreases len,
{
    if has_perm(perms[addr], req) {
        assert(!(forall|a: int| addr + 1 <= a < addr + len ==> has_perm(#[trigger] perms[a], req)))
            by {
            let bad = choose|a: int| addr <= a < addr + len && !has_perm(#[trigger] perms[a], req);
            assert(addr + 1 <= bad < addr + len);
            assert(!has_perm(perms[bad], req));
        }
        lemma_first_lacking_props(perms, addr + 1, len - 1, req);
        let f = Mmu::first_lacking(perms, addr + 1, len - 1, req);
        assert(Mmu::first_lacking(perms, addr, len, req) == 1 + f);
        assert forall|j: int| 0 <= j < 1 + f implies has_perm(#[trigger] perms[addr + j], req) by {
            if j > 0 {
                assert(has_perm(perms[(addr + 1) + (j - 1)], req));
            }
        }
    }
}

/// An access succeeds exactly when every touched byte carries the required
/// permission bits; a denied in-bounds access faults at the first offending
/// byte, as an uninitialized read where that byte is still marked
/// read-after-write, and otherwise as a plain read or write fault.
pub proof fn lemma_access_iff_permitted(m: &Mmu, addr: VirtAddr, len: usize)
    requires
        m.wf(),
        addr.0 + len <= usize::MAX,
        addr.0 + len <= m.size(),
    ensures
        m.spec_read(addr, len).is_ok() <==> m.range_has(addr.0 as int, len as int, PERM_READ),
        m.spec_write_ok(addr, len as int) <==> m.range_has(addr.0 as int, len as int, PERM_WRITE),
        !m.spec_read(addr, len).is_ok() ==> {
            let i = Mmu::first_lacking(m.perms(), addr.0 as int, len as int, PERM_READ);
            &&& 0 <= i < len
            &&& !has_perm(m.perms()[addr.0 + i], PERM_READ)
            &&& (forall|j: int|
                0 <= j < i ==> has_perm(#[trigger] m.perms()[addr.0 + j], PERM_READ))
            &&& m.spec_read(addr, len) == Err::<Seq<u8>, VmExit>(
                if m.perms()[addr.0 + i] & PERM_RAW == PERM_RAW {
                    VmExit::UninitFault(VirtAddr((addr.0 + i) as usize))
                } else {
                    VmExit::ReadFault(VirtAddr((addr.0 + i) as usize))
                },
            )
        },
        !m.spec_write_ok(addr, len as int) ==> {
            let i = Mmu::first_lacking(m.perms(), addr.0 as int, len as int, PERM_WRITE);
            &&& 0 <= i < len
            &&& !has_perm(m.perms()[addr.0 + i], PERM_WRITE)
            &&& m.spec_write_err(addr, len) == VmExit::WriteFault(VirtAddr((addr.0 + i) as usize))
        },
{
    assert(PERM_READ & PERM_READ == PERM_READ) by (bit_vector);
    if !m.range_has(addr.0 as int, len as int, PERM_READ) {
        lemma_first_lacking_props(m.perms(), addr.0 as int, len as int, PERM_READ);
    }
    if !m.range_has(addr.0 as int, len as int, PERM_WRITE) {
        lemma_first_lacking_props(m.perms(), addr.0 as int, len as int, PERM_WRITE);
    }
}

/// Read-after-write promotion: a successful write makes every written byte
/// that was readable or still marked read-after-write readable. Since the
/// write required the write permission on every byte, on memory whose
/// writable bytes all carry the read or read-after-write bit, the written
/// bytes end up readable exactly where they were writable.
pub proof fn lemma_write_promotes_read(m: &Mmu, addr: VirtAddr, len: int)
    requires
        m.wf(),
        m.spec_write_ok(addr, len),
        forall|a: int|
            addr.0 <= a < addr.0 + len ==> (has_perm(#[trigger] m.perms()[a], PERM_READ)
                || has_perm(m.perms()[a], PERM_RAW)),
    ensures
        forall|a: int|
            addr.0 <= a < addr.0 + len ==> has_perm(
                #[trigger] Mmu::promote_seq(m.perms(), addr.0 as int, len)[a],
                PERM_READ,
            ),
        forall|a: int|
            0 <= a < m.size() && !(addr.0 <= a < addr.0 + len) ==> Mmu::promote_seq(
                m.perms(),
                addr.0 as int,
                len,
            )[a] == m.perms()[a],
{
    assert forall|a: int| addr.0 <= a < addr.0 + len implies has_perm(
        #[trigger] Mmu::promote_seq(m.perms(), addr.0 as int, len)[a],
        PERM_READ,
    ) by {
        lemma_promote_bits(m.perms()[a]);
    }
}

/// Load/store round trip: after a successful `n`-byte store of `val` at
/// `addr` into memory whose target bytes were readable or marked
/// read-after-write, a load of `n` bytes at `addr` succeeds and yields
/// exactly the stored little-endian bytes, which decode back to `val`.
pub proof fn lemma_store_load_round_trip(m: &Mmu, post: &Mmu, addr: VirtAddr, val: u64, n: usize)
    requires
        m.wf(),
        post.wf(),
        1 <= n <= 8,
        (val as int) < pow256(n as int),
        m.spec_write_ok(addr, n as int),
        forall|a: int|
            addr.0 <= a < addr.0 + n ==> (has_perm(#[trigger] m.perms()[a], PERM_READ) || has_perm(
                m.perms()[a],
                PERM_RAW,
            )),
        post.size() == m.size(),
        post.mem() == Mmu::splice(m.mem(), addr.0 as int, le_bytes(val as int, n as int)),
        post.perms() == Mmu::promote_seq(m.perms(), addr.0 as int, n as int),
    ensures
        post.spec_read(addr, n) == Ok::<Seq<u8>, VmExit>(le_bytes(val as int, n as int)),
        word_of(le_bytes(val as int, n as int)) == val as int,
{
    lemma_le_bytes_len(val as int, n as int);
    lemma_word_le_round_trip(val as int, n as int);
    lemma_write_promotes_read(m, addr, n as int);
    assert(post.range_has(addr.0 as int, n as int, PERM_READ));
    assert(post.mem().subrange(addr.0 as int, addr.0 + n) =~= le_bytes(val as int, n as int));
}

/// Allocate/free round trip on permissions: a fresh allocation's bytes are
/// all writable, and after a free the allocation's bytes are neither
/// writable nor readable while their execute bit is untouched.
pub proof fn lemma_alloc_free_permissions(perms: Seq<u8>, base: int, size: int)
    ensures
        forall|a: int|
            base <= a < base + size && 0 <= a < perms.len() ==> has_perm(
                #[trigger] Mmu::set_seq(perms, base, size, PERM_WRITE | PERM_RAW)[a],
                PERM_WRITE,
            ),
        forall|a: int|
            base <= a < base + size && 0 <= a < perms.len() ==> {
                let q = #[trigger] Mmu::mask_seq(perms, base, size, !(PERM_READ | PERM_WRITE))[a];
                &&& !has_perm(q, PERM_WRITE)
                &&& !has_perm(q, PERM_READ)
                &&& q & PERM_EXEC == perms[a] & PERM_EXEC
            },
{
    assert forall|a: int| base <= a < base + size && 0 <= a < perms.len() implies has_perm(
        #[trigger] Mmu::set_seq(perms, base, size, PERM_WRITE | PERM_RAW)[a],
        PERM_WRITE,
    ) by {
        assert((PERM_WRITE | PERM_RAW) & PERM_WRITE == PERM_WRITE) by (bit_vector);
    }
    assert forall|a: int| base <= a < base + size && 0 <= a < perms.len() implies {
        let q = #[trigger] Mmu::mask_seq(perms, base, size, !(PERM_READ | PERM_WRITE))[a];
        &&& !has_perm(q, PERM_WRITE)
        &&& !has_perm(q, PERM_READ)
        &&& q & PERM_EXEC == perms[a] & PERM_EXEC
    } by {
        lemma_free_mask_bits(perms[a]);
    }
}

} // verus!
