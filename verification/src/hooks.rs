//! Host shims installed at guest breakpoints: the libc allocation entry
//! points are emulated against the guest memory unit, and a hook can end
//! the fuzz case.

use vstd::prelude::*;
use crate::emulator::{Emulator, VmExit};
use crate::decode::Register;
use crate::mmu::{Mmu, VirtAddr, PERM_READ, PERM_WRITE, PERM_RAW};
use crate::mmu::{lemma_alloc_free_permissions, lemma_align_up, lemma_promote_bits, has_perm};

verus! {

/// The built-in breakpoint hooks: the libc allocator entry points, and a
/// hook that ends the case. A hook may rewrite registers, move the program
/// counter, and call into the guest memory unit. The set is closed: a
/// hook runs under a contract the verifier has seen, which an arbitrary
/// host callback could not carry; a host needing other behavior ends the
/// case and acts on the emulator between runs.
#[derive(Clone, Copy, Debug, PartialEq, Eq, Structural)]
pub enum BreakpointHook {
    Malloc,
    Calloc,
    Realloc,
    Free,
    EndCase,
}

/// A breakpoint hook leaves the emulator well formed and touches neither
/// the files, the fuzz input, the breakpoint table, nor the memory
/// snapshot.
pub open spec fn hook_frame(pre: Emulator, post: Emulator) -> bool {
    &&& post.wf()
    &&& post.memory.size() == pre.memory.size()
    &&& post.memory.snap_mem() == pre.memory.snap_mem()
    &&& post.memory.snap_perms() == pre.memory.snap_perms()
    &&& post.files == pre.files
    &&& post.fuzz_input == pre.fuzz_input
    &&& post.bps() == pre.bps()
    &&& post.jit_on() == pre.jit_on()
    &&& post.timeout() == pre.timeout()
}

/// The memory views are unchanged.
pub open spec fn mem_untouched(pre: Emulator, post: Emulator) -> bool {
    &&& post.memory.mem() == pre.memory.mem()
    &&& post.memory.perms() == pre.memory.perms()
    &&& post.memory.allocs() == pre.memory.allocs()
    &&& post.memory.alloc_cursor() == pre.memory.alloc_cursor()
}

/// What `malloc` does: on a satisfiable size in A1, a fresh block-aligned
/// allocation is granted write and read-after-write permission and its
/// base answers in A0; otherwise A0 answers null. Control returns to the
/// caller's return address.
pub open spec fn malloc_post(pre: Emulator, post: Emulator, r: Result<(), VmExit>) -> bool {
    let rf = pre.regs();
    let size = rf[Register::A1.index()] as usize;
    let base = pre.memory.alloc_cursor();
    &&& hook_frame(pre, post)
    &&& r.is_ok()
    &&& if pre.memory.spec_alloc_ok(size) {
        &&& post.regs() == Emulator::wreg(
            Emulator::wreg(rf, Register::A0, (base as usize) as u64),
            Register::Pc,
            rf[Register::Ra.index()],
        )
        &&& post.memory.mem() == pre.memory.mem()
        &&& post.memory.alloc_cursor() == base + Mmu::align_up(size as int)
        &&& post.memory.allocs() == pre.memory.allocs().insert(base as usize, size)
        &&& post.memory.perms() == Mmu::set_seq(
            pre.memory.perms(),
            base,
            size as int,
            PERM_WRITE | PERM_RAW,
        )
    } else {
        &&& post.regs() == Emulator::wreg(
            Emulator::wreg(rf, Register::A0, 0),
            Register::Pc,
            rf[Register::Ra.index()],
        )
        &&& mem_untouched(pre, post)
    }
}

/// Emulate `malloc`: allocate the size in A1 from the guest heap, return
/// the base (or null on failure) in A0, and return to the caller by moving
/// the program counter to the return address.
pub fn malloc_bp(emu: &mut Emulator) -> (r: Result<(), VmExit>)
    requires
        old(emu).wf(),
    ensures
        malloc_post(*old(emu), *final(emu), r),
{
    let size = emu.reg(Register::A1) as usize;
    match emu.memory.allocate(size) {
        Some(alc) => {
            emu.set_reg(Register::A0, alc.0 as u64);
        },
        None => {
            emu.set_reg(Register::A0, 0);
        },
    }
    let ra = emu.reg(Register::Ra);
    emu.set_reg(Register::Pc, ra);
    Ok(())
}

/// What `calloc` does: on a product of A1 and A2 that neither overflows
/// nor exhausts the heap, a fresh allocation is zeroed (its bytes become
/// readable) and its base answers in A0; otherwise A0 answers null.
pub open spec fn calloc_post(pre: Emulator, post: Emulator, r: Result<(), VmExit>) -> bool {
    let rf = pre.regs();
    let nmemb = rf[Register::A1.index()] as usize;
    let sz = rf[Register::A2.index()] as usize;
    let base = pre.memory.alloc_cursor();
    &&& hook_frame(pre, post)
    &&& r.is_ok()
    &&& if nmemb * sz <= usize::MAX && pre.memory.spec_alloc_ok((nmemb * sz) as usize) {
        let total = (nmemb * sz) as usize;
        &&& post.regs() == Emulator::wreg(
            Emulator::wreg(rf, Register::A0, (base as usize) as u64),
            Register::Pc,
            rf[Register::Ra.index()],
        )
        &&& post.memory.mem() == Mmu::splice(
            pre.memory.mem(),
            base,
            Seq::new(total as nat, |i: int| 0u8),
        )
        &&& post.memory.alloc_cursor() == base + Mmu::align_up(total as int)
        &&& post.memory.allocs() == pre.memory.allocs().insert(base as usize, total)
        &&& post.memory.perms() == Mmu::promote_seq(
            Mmu::set_seq(pre.memory.perms(), base, total as int, PERM_WRITE | PERM_RAW),
            base,
            total as int,
        )
    } else {
        &&& post.regs() == Emulator::wreg(
            Emulator::wreg(rf, Register::A0, 0),
            Register::Pc,
            rf[Register::Ra.index()],
        )
        &&& mem_untouched(pre, post)
    }
}

/// Emulate `calloc`: allocate A1 times A2 bytes, zero them (which also
/// makes them readable), and return the base (or null on overflow or
/// allocation failure) in A0.
pub fn calloc_bp(emu: &mut Emulator) -> (r: Result<(), VmExit>)
    requires
        old(emu).wf(),
    ensures
        calloc_post(*old(emu), *final(emu), r),
{
    let nmemb = emu.reg(Register::A1) as usize;
    let sz = emu.reg(Register::A2) as usize;
    match nmemb.checked_mul(sz) {
        None => {
            emu.set_reg(Register::A0, 0);
        },
        Some(total) => {
            match emu.memory.allocate(total) {
                None => {
                    emu.set_reg(Register::A0, 0);
                },
                Some(alc) => {
                    let ghost pre_mem = *old(emu);
                    let ghost mid = *emu;
                    let zeros = vec![0u8; total];
                    proof {
                        lemma_align_up(total as int);
                        lemma_alloc_free_permissions(
                            pre_mem.memory.perms(),
                            alc.0 as int,
                            total as int,
                        );
                        assert(emu.memory.perms() == Mmu::set_seq(
                            pre_mem.memory.perms(),
                            pre_mem.memory.alloc_cursor(),
                            total as int,
                            PERM_WRITE | PERM_RAW,
                        ));
                        assert(alc.0 as int == pre_mem.memory.alloc_cursor());
                        assert(pre_mem.memory.spec_alloc_ok(total));
                        assert(alc.0 + total <= pre_mem.memory.size());
                        assert(pre_mem.memory.perms().len() == pre_mem.memory.size());
                        assert forall|a2: int| alc.0 <= a2 < alc.0 + total implies has_perm(
                            #[trigger] emu.memory.perms()[a2],
                            PERM_WRITE,
                        ) by {
                            assert(has_perm(
                                Mmu::set_seq(
                                    pre_mem.memory.perms(),
                                    alc.0 as int,
                                    total as int,
                                    PERM_WRITE | PERM_RAW,
                                )[a2],
                                PERM_WRITE,
                            ));
                        }
                        assert(emu.memory.spec_write_ok(alc, total as int));
                    }
                    match emu.memory.write_from(alc, zeros.as_slice()) {
                        Ok(()) => {},
                        Err(_) => {
                            proof {
                                assert(false);
                            }
                        },
                    }
                    proof {
                        assert(mid.memory.mem() == pre_mem.memory.mem());
                        assert(mid.memory.perms() == Mmu::set_seq(
                            pre_mem.memory.perms(),
                            alc.0 as int,
                            total as int,
                            PERM_WRITE | PERM_RAW,
                        ));
                        assert(emu.memory.mem() =~= Mmu::splice(
                            pre_mem.memory.mem(),
                            alc.0 as int,
                            Seq::new(total as nat, |i: int| 0u8),
                        ));
                        assert(emu.memory.perms() =~= Mmu::promote_seq(
                            Mmu::set_seq(
                                pre_mem.memory.perms(),
                                alc.0 as int,
                                total as int,
                                PERM_WRITE | PERM_RAW,
                            ),
                            alc.0 as int,
                            total as int,
                        ));
                    }
                    emu.set_reg(Register::A0, alc.0 as u64);
                },
            }
        },
    }
    let ra = emu.reg(Register::Ra);
    emu.set_reg(Register::Pc, ra);
    Ok(())
}

/// What `free` does: a null base is accepted and ignored; a live base is
/// released, its bytes losing their read and write permissions; any other
/// base faults without returning to the guest.
pub open spec fn free_post(pre: Emulator, post: Emulator, r: Result<(), VmExit>) -> bool {
    let rf = pre.regs();
    let base = rf[Register::A1.index()] as usize;
    &&& hook_frame(pre, post)
    &&& if base == 0 {
        &&& r == Ok::<(), VmExit>(())
        &&& mem_untouched(pre, post)
        &&& post.regs() == Emulator::wreg(rf, Register::Pc, rf[Register::Ra.index()])
    } else if pre.memory.allocs().contains_key(base) {
        &&& r == Ok::<(), VmExit>(())
        &&& post.memory.mem() == pre.memory.mem()
        &&& post.memory.allocs() == pre.memory.allocs().remove(base)
        &&& post.memory.alloc_cursor() == pre.memory.alloc_cursor()
        &&& post.memory.perms() == Mmu::mask_seq(
            pre.memory.perms(),
            base as int,
            pre.memory.allocs()[base] as int,
            !(PERM_READ | PERM_WRITE),
        )
        &&& post.regs() == Emulator::wreg(rf, Register::Pc, rf[Register::Ra.index()])
    } else {
        &&& r == Err::<(), VmExit>(VmExit::InvalidFree(VirtAddr(base)))
        &&& mem_untouched(pre, post)
        &&& post.regs() == rf
    }
}

/// Emulate `free`: release the allocation whose base is in A1, unless it
/// is null. Freeing any other address faults without returning to the
/// guest.
pub fn free_bp(emu: &mut Emulator) -> (r: Result<(), VmExit>)
    requires
        old(emu).wf(),
    ensures
        free_post(*old(emu), *final(emu), r),
{
    let base = emu.reg(Register::A1) as usize;
    if base != 0 {
        match emu.memory.free(VirtAddr(base)) {
            Ok(()) => {},
            Err(e) => {
                return Err(e);
            },
        }
    }
    let ra = emu.reg(Register::Ra);
    emu.set_reg(Register::Pc, ra);
    Ok(())
}

/// What `realloc` does: a live base in A1 (or null, which acts as
/// `malloc`) and a satisfiable size in A2 yield a fresh allocation whose
/// initialized prefix is copied from the old bytes; a byte uninitialized
/// in the old allocation stays uninitialized in the new one, the old
/// allocation loses its read and write permissions, and the new base
/// answers in A0. On allocation failure A0 answers null; an A1 that is no
/// allocation base faults.
pub open spec fn realloc_post(pre: Emulator, post: Emulator, r: Result<(), VmExit>) -> bool {
    let rf = pre.regs();
    let old_alc = rf[Register::A1.index()] as usize;
    let size = rf[Register::A2.index()] as usize;
    let base = pre.memory.alloc_cursor();
    &&& hook_frame(pre, post)
    &&& if old_alc != 0 && !pre.memory.allocs().contains_key(old_alc) {
        &&& r == Err::<(), VmExit>(VmExit::InvalidFree(VirtAddr(old_alc)))
        &&& mem_untouched(pre, post)
        &&& post.regs() == rf
    } else if !pre.memory.spec_alloc_ok(size) {
        &&& r == Ok::<(), VmExit>(())
        &&& mem_untouched(pre, post)
        &&& post.regs() == Emulator::wreg(
            Emulator::wreg(rf, Register::A0, 0),
            Register::Pc,
            rf[Register::Ra.index()],
        )
    } else {
        let old_size = if old_alc == 0 {
            0
        } else {
            pre.memory.allocs()[old_alc] as int
        };
        let to_copy = if size as int <= old_size {
            size as int
        } else {
            old_size
        };
        &&& r == Ok::<(), VmExit>(())
        &&& post.regs() == Emulator::wreg(
            Emulator::wreg(rf, Register::A0, (base as usize) as u64),
            Register::Pc,
            rf[Register::Ra.index()],
        )
        &&& post.memory.alloc_cursor() == base + Mmu::align_up(size as int)
        &&& post.memory.allocs() == (if old_alc == 0 {
            pre.memory.allocs().insert(base as usize, size)
        } else {
            pre.memory.allocs().insert(base as usize, size).remove(old_alc)
        })
        &&& (forall|x: int|
            0 <= x < pre.memory.size() && !(base <= x < base + size) ==> post.memory.mem()[x]
                == pre.memory.mem()[x])
        &&& (forall|i: int|
            0 <= i < to_copy && has_perm(
                #[trigger] pre.memory.perms()[old_alc + i],
                PERM_READ,
            ) ==> post.memory.mem()[base + i] == pre.memory.mem()[old_alc + i])
        // the new bytes are writable; a byte copied from a readable old
        // byte is readable, and every other new byte stays uninitialized
        &&& (forall|i: int|
            0 <= i < size ==> has_perm(#[trigger] post.memory.perms()[base + i], PERM_WRITE))
        &&& (forall|i: int|
            0 <= i < size ==> (has_perm(#[trigger] post.memory.perms()[base + i], PERM_READ) <==> (
            i < to_copy && has_perm(pre.memory.perms()[old_alc + i], PERM_READ))))
        // the freed old allocation loses its read and write permissions
        &&& (old_alc != 0 ==> (forall|x: int|
            old_alc <= x < old_alc + old_size ==> !has_perm(
                #[trigger] post.memory.perms()[x],
                PERM_READ,
            ) && !has_perm(post.memory.perms()[x], PERM_WRITE)))
    }
}

/// Emulate `realloc`: allocate the size in A2, copy the initialized prefix
/// of the old allocation named by A1 (an uninitialized byte stays
/// uninitialized), free the old allocation, and return the new base in A0.
/// A null A1 acts as `malloc`; an A1 that is no allocation base faults.
pub fn realloc_bp(emu: &mut Emulator) -> (r: Result<(), VmExit>)
    requires
        old(emu).wf(),
    ensures
        realloc_post(*old(emu), *final(emu), r),
{
    let old_alc = emu.reg(Register::A1) as usize;
    let size = emu.reg(Register::A2) as usize;
    let old_size: usize = if old_alc == 0 {
        0
    } else {
        match emu.memory.get_alc(VirtAddr(old_alc)) {
            Some(s) => s,
            None => {
                return Err(VmExit::InvalidFree(VirtAddr(old_alc)));
            },
        }
    };
    let to_copy = if size < old_size {
        size
    } else {
        old_size
    };
    let ghost pre = *old(emu);
    match emu.memory.allocate(size) {
        None => {
            emu.set_reg(Register::A0, 0);
        },
        Some(new_alc) => {
            let base = new_alc.0;
            proof {
                lemma_align_up(size as int);
                lemma_alloc_free_permissions(pre.memory.perms(), base as int, size as int);
                lemma_fresh_permission_bits();
                if old_alc != 0 {
                    assert(pre.memory.allocs().contains_key(old_alc));
                    assert(old_alc + old_size <= pre.memory.alloc_cursor());
                    assert(1 <= old_size);
                }
                assert forall|j: int|
                    0 <= j < size implies (#[trigger] emu.memory.perms()[base + j]) == (PERM_WRITE
                    | PERM_RAW) by {
                    assert(emu.memory.perms()[base + j] == Mmu::set_seq(
                        pre.memory.perms(),
                        base as int,
                        size as int,
                        PERM_WRITE | PERM_RAW,
                    )[base + j]);
                }
            }
            if old_alc != 0 {
                let mut i: usize = 0;
                while i < to_copy
                    invariant
                        emu.wf(),
                        i <= to_copy,
                        to_copy <= size,
                        to_copy <= old_size,
                        old_alc + old_size <= base,
                        base == pre.memory.alloc_cursor(),
                        base + size <= emu.memory.size(),
                        emu.memory.size() == pre.memory.size(),
                        emu.memory.snap_mem() == pre.memory.snap_mem(),
                        emu.memory.snap_perms() == pre.memory.snap_perms(),
                        emu.memory.alloc_cursor() == base + Mmu::align_up(size as int),
                        emu.memory.allocs() == pre.memory.allocs().insert(base, size),
                        emu.files == pre.files,
                        emu.fuzz_input == pre.fuzz_input,
                        emu.bps() == pre.bps(),
                        emu.jit_on() == pre.jit_on(),
                        emu.timeout() == pre.timeout(),
                        emu.regs() == pre.regs(),
                        forall|x: int|
                            0 <= x < emu.memory.size() && !(base <= x < base + size) ==> (
                            #[trigger] emu.memory.mem()[x]) == pre.memory.mem()[x],
                        forall|x: int|
                            0 <= x < emu.memory.size() && !(base <= x < base + size) ==> (
                            #[trigger] emu.memory.perms()[x]) == pre.memory.perms()[x],
                        forall|x: int|
                            base <= x < base + size ==> has_perm(
                                #[trigger] emu.memory.perms()[x],
                                PERM_WRITE,
                            ),
                        forall|j: int|
                            0 <= j < i && has_perm(
                                #[trigger] pre.memory.perms()[old_alc + j],
                                PERM_READ,
                            ) ==> emu.memory.mem()[base + j] == pre.memory.mem()[old_alc + j],
                        forall|j: int|
                            0 <= j < size && !(j < i && has_perm(
                                pre.memory.perms()[old_alc + j],
                                PERM_READ,
                            )) ==> (#[trigger] emu.memory.perms()[base + j]) == (PERM_WRITE
                                | PERM_RAW),
                        forall|j: int|
                            0 <= j < i && has_perm(
                                #[trigger] pre.memory.perms()[old_alc + j],
                                PERM_READ,
                            ) ==> has_perm(emu.memory.perms()[base + j], PERM_READ),
                    decreases to_copy - i,
                {
                    match emu.memory.read_word(VirtAddr(old_alc + i), 1) {
                        Ok(b) => {
                            let ghost before = *emu;
                            proof {
                                crate::mmu::lemma_pow256_values();
                                reveal_with_fuel(crate::mmu::word_of, 3);
                                reveal_with_fuel(crate::mmu::le_bytes, 3);
                                assert(before.memory.mem().subrange(
                                    (old_alc + i) as int,
                                    old_alc + i + 1,
                                ) =~= seq![before.memory.mem()[old_alc + i as int]]);
                                crate::mmu::lemma_word_of_bound(
                                    before.memory.mem().subrange(
                                        (old_alc + i) as int,
                                        old_alc + i + 1,
                                    ),
                                );
                                assert((before.memory.mem().subrange(
                                    (old_alc + i) as int,
                                    old_alc + i + 1,
                                )).subrange(1, 1) =~= Seq::<u8>::empty());
                                assert(emu.memory.spec_write_ok(VirtAddr((base + i) as usize), 1));
                            }
                            match emu.memory.write_word(VirtAddr(base + i), b, 1) {
                                Ok(()) => {
                                    proof {
                                        reveal_with_fuel(crate::mmu::le_bytes, 3);
                                        assert(crate::mmu::le_bytes(b as int, 1) =~= seq![
                                            (b as int % 256) as u8,
                                        ]);
                                        lemma_fresh_permission_bits();
                                        assert forall|x: int|
                                            base <= x < base + size implies has_perm(
                                            #[trigger] emu.memory.perms()[x],
                                            PERM_WRITE,
                                        ) by {
                                            lemma_promote_bits(before.memory.perms()[x]);
                                        }
                                        lemma_promote_bits(before.memory.perms()[base + i as int]);
                                        assert(has_perm(
                                            emu.memory.perms()[base + i as int],
                                            PERM_READ,
                                        ));
                                        assert(before.memory.range_has(
                                            (old_alc + i) as int,
                                            1,
                                            PERM_READ,
                                        ));
                                        assert(has_perm(
                                            before.memory.perms()[old_alc + i as int],
                                            PERM_READ,
                                        ));
                                        assert(has_perm(
                                            pre.memory.perms()[old_alc + i as int],
                                            PERM_READ,
                                        ));
                                        assert forall|j: int|
                                            0 <= j < size && !(j < i + 1 && has_perm(
                                                pre.memory.perms()[old_alc + j],
                                                PERM_READ,
                                            )) implies (#[trigger] emu.memory.perms()[base + j])
                                            == (PERM_WRITE | PERM_RAW) by {
                                            assert(j != i);
                                            assert(emu.memory.perms()[base + j]
                                                == before.memory.perms()[base + j]);
                                        }
                                    }
                                },
                                Err(_) => {
                                    proof {
                                        assert(false);
                                    }
                                },
                            }
                        },
                        Err(_) => {
                            proof {
                                assert(!emu.memory.range_has(
                                    (old_alc + i) as int,
                                    1,
                                    PERM_READ,
                                ));
                                assert(!has_perm(
                                    emu.memory.perms()[old_alc + i as int],
                                    PERM_READ,
                                ));
                                assert(!has_perm(
                                    pre.memory.perms()[old_alc + i as int],
                                    PERM_READ,
                                ));
                            }
                        },
                    }
                    i += 1;
                }
                let ghost copied = *emu;
                match emu.memory.free(VirtAddr(old_alc)) {
                    Ok(()) => {},
                    Err(_) => {
                        proof {
                            assert(false);
                        }
                    },
                }
                proof {
                    lemma_fresh_permission_bits();
                    assert(copied.memory.allocs()[old_alc] == old_size);
                    lemma_alloc_free_permissions(
                        copied.memory.perms(),
                        old_alc as int,
                        old_size as int,
                    );
                    assert forall|x: int|
                        old_alc <= x < old_alc + old_size implies !has_perm(
                        #[trigger] emu.memory.perms()[x],
                        PERM_READ,
                    ) && !has_perm(emu.memory.perms()[x], PERM_WRITE) by {
                        assert(emu.memory.perms()[x] == Mmu::mask_seq(
                            copied.memory.perms(),
                            old_alc as int,
                            old_size as int,
                            !(PERM_READ | PERM_WRITE),
                        )[x]);
                    }
                    assert forall|j: int|
                        0 <= j < size implies (#[trigger] emu.memory.perms()[base + j])
                        == copied.memory.perms()[base + j] by {
                        assert(base + j >= old_alc + old_size);
                    }
                }
            }
            emu.set_reg(Register::A0, base as u64);
        },
    }
    let ra = emu.reg(Register::Ra);
    emu.set_reg(Register::Pc, ra);
    Ok(())
}

/// What the case-ending hook does: nothing changes and a clean exit
/// surfaces.
pub open spec fn end_case_post(pre: Emulator, post: Emulator, r: Result<(), VmExit>) -> bool {
    &&& hook_frame(pre, post)
    &&& mem_untouched(pre, post)
    &&& post.regs() == pre.regs()
    &&& r == Err::<(), VmExit>(VmExit::Exit)
}

/// End the fuzz case: surface a clean exit.
pub fn _end_case(emu: &mut Emulator) -> (r: Result<(), VmExit>)
    requires
        old(emu).wf(),
    ensures
        end_case_post(*old(emu), *final(emu), r),
{
    Err(VmExit::Exit)
}

/// What dispatching a hook does: exactly what the hook it names does.
pub open spec fn hook_post(
    hook: BreakpointHook,
    pre: Emulator,
    post: Emulator,
    r: Result<(), VmExit>,
) -> bool {
    match hook {
        BreakpointHook::Malloc => malloc_post(pre, post, r),
        BreakpointHook::Calloc => calloc_post(pre, post, r),
        BreakpointHook::Realloc => realloc_post(pre, post, r),
        BreakpointHook::Free => free_post(pre, post, r),
        BreakpointHook::EndCase => end_case_post(pre, post, r),
    }
}

/// Dispatch a breakpoint hook.
pub fn run_hook(emu: &mut Emulator, hook: BreakpointHook) -> (r: Result<(), VmExit>)
    requires
        old(emu).wf(),
    ensures
        hook_post(hook, *old(emu), *final(emu), r),
        hook_frame(*old(emu), *final(emu)),
        r.is_ok() || r == Err::<(), VmExit>(VmExit::Exit) || (r matches Err(
            VmExit::InvalidFree(_),
        )),
{
    match hook {
        BreakpointHook::Malloc => {
            let r = malloc_bp(emu);
            proof {
                assert(r.is_ok());
            }
            r
        },
        BreakpointHook::Calloc => {
            let r = calloc_bp(emu);
            proof {
                assert(r.is_ok());
            }
            r
        },
        BreakpointHook::Realloc => {
            let r = realloc_bp(emu);
            proof {
                assert(r.is_ok() || (r matches Err(VmExit::InvalidFree(_))));
            }
            r
        },
        BreakpointHook::Free => {
            let r = free_bp(emu);
            proof {
                assert(r.is_ok() || (r matches Err(VmExit::InvalidFree(_))));
            }
            r
        },
        BreakpointHook::EndCase => {
            let r = _end_case(emu);
            proof {
                assert(r == Err::<(), VmExit>(VmExit::Exit));
            }
            r
        },
    }
}

/// The permission byte a fresh allocation carries: writable and marked
/// read-after-write, not yet readable; promotion on first write grants
/// the read bit.
proof fn lemma_fresh_permission_bits()
    by (bit_vector)
    ensures
        (PERM_WRITE | PERM_RAW) & PERM_READ != PERM_READ,
        (PERM_WRITE | PERM_RAW) & PERM_RAW == PERM_RAW,
        (PERM_WRITE | PERM_RAW) & PERM_WRITE == PERM_WRITE,
{
}

} // verus!
