//! The syscall shims the driver serves on a `Syscall` exit: a small file
//! model over the fuzz input, emulated stat results, and a clean exit.
//! Guest writes to the standard streams are accepted and discarded; the
//! host may print them if it wants to.

use vstd::prelude::*;
use crate::emulator::{Emulator, EmuFile, VmExit};
use crate::decode::Register;
use crate::mmu::{Mmu, VirtAddr, Perm, PERM_READ, has_perm, le_bytes, pow256, lemma_pow256_values};
use crate::mmu::{lemma_le_bytes_len, lemma_le_bytes_extend, lemma_pow256_pos};

verus! {

/// Saturating signed addition.
fn sat_add_i64(a: i64, b: i64) -> (r: i64)
    ensures
        r as int == if a + b > i64::MAX {
            i64::MAX as int
        } else if a + b < i64::MIN {
            i64::MIN as int
        } else {
            a + b
        },
{
    if b >= 0 {
        if a > i64::MAX - b {
            i64::MAX
        } else {
            a + b
        }
    } else {
        if a < i64::MIN - b {
            i64::MIN
        } else {
            a + b
        }
    }
}

/// The value returned in A0 for a failed file operation.
pub const SYS_ERR: u64 = 0xFFFF_FFFF_FFFF_FFFF;

/// Stat structure from kernel_stat64
#[derive(Debug)]
pub struct Stat {
    pub st_dev: u64,
    pub st_ino: u64,
    pub st_mode: u32,
    pub st_nlink: u32,
    pub st_uid: u32,
    pub st_gid: u32,
    pub st_rdev: u64,
    pub pad1: u64,
    pub st_size: i64,
    pub st_blksize: i32,
    pub pad2: i32,
    pub st_blocks: i64,
    pub st_atime: u64,
    pub st_atimensec: u64,
    pub st_mtime: u64,
    pub st_mtimensec: u64,
    pub st_ctime: u64,
    pub st_ctimensec: u64,
    pub glibc_reserved0: i32,
    pub glibc_reserved1: i32,
}

impl Default for Stat {
    /// An all-zero stat record.
    fn default() -> (r: Stat)
        ensures
            r.st_dev == 0 && r.st_ino == 0 && r.st_mode == 0 && r.st_nlink == 0 && r.st_uid == 0
                && r.st_gid == 0 && r.st_rdev == 0 && r.pad1 == 0 && r.st_size == 0
                && r.st_blksize == 0 && r.pad2 == 0 && r.st_blocks == 0 && r.st_atime == 0
                && r.st_atimensec == 0 && r.st_mtime == 0 && r.st_mtimensec == 0 && r.st_ctime == 0
                && r.st_ctimensec == 0 && r.glibc_reserved0 == 0 && r.glibc_reserved1 == 0,
    {
        Stat {
            st_dev: 0,
            st_ino: 0,
            st_mode: 0,
            st_nlink: 0,
            st_uid: 0,
            st_gid: 0,
            st_rdev: 0,
            pad1: 0,
            st_size: 0,
            st_blksize: 0,
            pad2: 0,
            st_blocks: 0,
            st_atime: 0,
            st_atimensec: 0,
            st_mtime: 0,
            st_mtimensec: 0,
            st_ctime: 0,
            st_ctimensec: 0,
            glibc_reserved0: 0,
            glibc_reserved1: 0,
        }
    }
}

/// The 128 little-endian bytes of a stat record, field by field in kernel
/// layout order.
pub open spec fn stat_bytes(st: Stat) -> Seq<u8> {
    le_bytes(st.st_dev as int, 8) + le_bytes(st.st_ino as int, 8) + le_bytes(st.st_mode as int, 4)
        + le_bytes(st.st_nlink as int, 4) + le_bytes(st.st_uid as int, 4) + le_bytes(
        st.st_gid as int,
        4,
    ) + le_bytes(st.st_rdev as int, 8) + le_bytes(st.pad1 as int, 8) + le_bytes(
        (st.st_size as u64) as int,
        8,
    ) + le_bytes((st.st_blksize as u32) as int, 4) + le_bytes((st.pad2 as u32) as int, 4)
        + le_bytes((st.st_blocks as u64) as int, 8) + le_bytes(st.st_atime as int, 8) + le_bytes(
        st.st_atimensec as int,
        8,
    ) + le_bytes(st.st_mtime as int, 8) + le_bytes(st.st_mtimensec as int, 8) + le_bytes(
        st.st_ctime as int,
        8,
    ) + le_bytes(st.st_ctimensec as int, 8) + le_bytes((st.glibc_reserved0 as u32) as int, 4)
        + le_bytes((st.glibc_reserved1 as u32) as int, 4)
}

/// Append the `n`-byte little-endian encoding of `val`.
fn push_le(v: &mut Vec<u8>, val: u64, n: usize)
    requires
        n <= 8,
        (val as int) < pow256(n as int),
    ensures
        final(v)@ == old(v)@ + le_bytes(val as int, n as int),
{
    let mut cur = val;
    let mut i: usize = 0;
    proof {
        lemma_pow256_values();
        assert(old(v)@ + le_bytes(val as int, 0) =~= old(v)@);
    }
    while i < n
        invariant
            n <= 8,
            (val as int) < pow256(n as int),
            i <= n,
            v@ == old(v)@ + le_bytes(val as int, i as int),
            v@.len() == old(v)@.len() + i,
            cur as int == (val as int) / pow256(i as int),
        decreases n - i,
    {
        v.push((cur & 0xff) as u8);
        proof {
            crate::mmu::lemma_u64_low_byte(cur);
            lemma_le_bytes_len(val as int, i as int);
            lemma_le_bytes_extend(val as int, i as int);
            lemma_pow256_pos(i as int);
            vstd::arithmetic::div_mod::lemma_div_denominator(val as int, pow256(i as int), 256);
            assert(v@ =~= old(v)@ + le_bytes(val as int, i + 1));
        }
        cur = cur >> 8;
        i = i + 1;
    }
}

/// Serialize a stat record to its 128 little-endian bytes.
pub fn stat_to_bytes(st: &Stat) -> (r: Vec<u8>)
    ensures
        r@ == stat_bytes(*st),
        r@.len() == 128,
{
    let mut v: Vec<u8> = Vec::new();
    proof {
        lemma_pow256_values();
    }
    push_le(&mut v, st.st_dev, 8);
    push_le(&mut v, st.st_ino, 8);
    push_le(&mut v, st.st_mode as u64, 4);
    push_le(&mut v, st.st_nlink as u64, 4);
    push_le(&mut v, st.st_uid as u64, 4);
    push_le(&mut v, st.st_gid as u64, 4);
    push_le(&mut v, st.st_rdev, 8);
    push_le(&mut v, st.pad1, 8);
    push_le(&mut v, st.st_size as u64, 8);
    push_le(&mut v, (st.st_blksize as u32) as u64, 4);
    push_le(&mut v, (st.pad2 as u32) as u64, 4);
    push_le(&mut v, st.st_blocks as u64, 8);
    push_le(&mut v, st.st_atime, 8);
    push_le(&mut v, st.st_atimensec, 8);
    push_le(&mut v, st.st_mtime, 8);
    push_le(&mut v, st.st_mtimensec, 8);
    push_le(&mut v, st.st_ctime, 8);
    push_le(&mut v, st.st_ctimensec, 8);
    push_le(&mut v, (st.glibc_reserved0 as u32) as u64, 4);
    push_le(&mut v, (st.glibc_reserved1 as u32) as u64, 4);
    proof {
        assert(v@ =~= stat_bytes(*st));
        lemma_le_bytes_len(st.st_dev as int, 8);
        assert(v@.len() == 128) by {
            assert(stat_bytes(*st).len() == 128) by {
                lemma_le_bytes_len(st.st_dev as int, 8);
                lemma_le_bytes_len(st.st_ino as int, 8);
                lemma_le_bytes_len(st.st_mode as int, 4);
                lemma_le_bytes_len(st.st_nlink as int, 4);
                lemma_le_bytes_len(st.st_uid as int, 4);
                lemma_le_bytes_len(st.st_gid as int, 4);
                lemma_le_bytes_len(st.st_rdev as int, 8);
                lemma_le_bytes_len(st.pad1 as int, 8);
                lemma_le_bytes_len((st.st_size as u64) as int, 8);
                lemma_le_bytes_len((st.st_blksize as u32) as int, 4);
                lemma_le_bytes_len((st.pad2 as u32) as int, 4);
                lemma_le_bytes_len((st.st_blocks as u64) as int, 8);
                lemma_le_bytes_len(st.st_atime as int, 8);
                lemma_le_bytes_len(st.st_atimensec as int, 8);
                lemma_le_bytes_len(st.st_mtime as int, 8);
                lemma_le_bytes_len(st.st_mtimensec as int, 8);
                lemma_le_bytes_len(st.st_ctime as int, 8);
                lemma_le_bytes_len(st.st_ctimensec as int, 8);
                lemma_le_bytes_len((st.glibc_reserved0 as u32) as int, 4);
                lemma_le_bytes_len((st.glibc_reserved1 as u32) as int, 4);
            }
        }
    }
    v
}

/// The stat record served for the fuzz-input file of `len` bytes.
pub open spec fn spec_input_stat(len: int) -> Stat {
    Stat {
        st_dev: 0x803,
        st_ino: 0x81889,
        st_mode: 0x81a4,
        st_nlink: 0x1,
        st_uid: 0x3e8,
        st_gid: 0x3e8,
        st_rdev: 0x0,
        pad1: 0,
        st_size: len as i64,
        st_blksize: 0x1000,
        pad2: 0,
        st_blocks: ((len + 511) / 512) as i64,
        st_atime: 0x5f0fe246,
        st_atimensec: 0,
        st_mtime: 0x5f0fe244,
        st_mtimensec: 0,
        st_ctime: 0x5f0fe244,
        st_ctimensec: 0,
        glibc_reserved0: 0,
        glibc_reserved1: 0,
    }
}

/// Build the stat record served for the fuzz-input file.
fn input_stat(len: usize) -> (r: Stat)
    requires
        len <= 0x1000_0000_0000,
    ensures
        r == spec_input_stat(len as int),
{
    let mut st = Stat::default();
    st.st_dev = 0x803;
    st.st_ino = 0x81889;
    st.st_mode = 0x81a4;
    st.st_nlink = 0x1;
    st.st_uid = 0x3e8;
    st.st_gid = 0x3e8;
    st.st_rdev = 0x0;
    st.st_size = len as i64;
    st.st_blksize = 0x1000;
    st.st_blocks = ((len as i64) + 511) / 512;
    st.st_atime = 0x5f0fe246;
    st.st_mtime = 0x5f0fe244;
    st.st_ctime = 0x5f0fe244;
    st
}

/// There is a readable, NUL-terminated string of `n` non-NUL bytes at
/// guest address `at`.
pub open spec fn nul_string_at(m: &Mmu, at: int, n: int) -> bool {
    &&& 0 <= n
    &&& at + n < m.size()
    &&& forall|j: int|
        at <= j < at + n ==> has_perm(#[trigger] m.perms()[j], PERM_READ) && m.mem()[j] != 0
    &&& has_perm(m.perms()[at + n], PERM_READ)
    &&& m.mem()[at + n] == 0
}

/// The bytes of the sentinel guest pathname that names the fuzz input.
pub open spec fn testfn_seq() -> Seq<u8> {
    seq![116u8, 101u8, 115u8, 116u8, 102u8, 110u8]
}

/// Measure the NUL-terminated string at guest address `at`; a read fault
/// during the scan is surfaced as the corresponding exit.
fn scan_cstr(m: &Mmu, at: usize) -> (r: Result<usize, VmExit>)
    requires
        m.wf(),
    ensures
        match r {
            Ok(n) => nul_string_at(m, at as int, n as int),
            Err(e) => true,
        },
        r.is_err() ==> !(exists|n: int| nul_string_at(m, at as int, n)),
{
    let mut n: usize = 0;
    loop
        invariant
            m.wf(),
            n == 0 || at + n <= m.size(),
            forall|j: int|
                at <= j < at + n ==> has_perm(#[trigger] m.perms()[j], PERM_READ) && m.mem()[j]
                    != 0,
        decreases m.size() - n,
    {
        let a = at + n;
        match m.read_word(VirtAddr(a), 1) {
            Err(e) => {
                proof {
                    assert forall|k: int| !nul_string_at(m, at as int, k) by {
                        if nul_string_at(m, at as int, k) {
                            if k < n {
                                assert(m.mem()[at + k] != 0);
                            } else {
                                assert(has_perm(m.perms()[at + n as int], PERM_READ));
                                assert(at + n < m.size());
                                assert(m.range_has(a as int, 1, PERM_READ));
                            }
                        }
                    }
                }
                return Err(e);
            },
            Ok(b) => {
                proof {
                    reveal_with_fuel(crate::mmu::word_of, 3);
                    assert(m.mem().subrange(a as int, a as int + 1) =~= seq![
                        m.mem()[a as int],
                    ]);
                    assert((m.mem().subrange(a as int, a as int + 1)).subrange(1, 1)
                        =~= Seq::<u8>::empty());
                    assert(b as int == m.mem()[a as int] as int);
                }
                if b == 0 {
                    return Ok(n);
                }
                proof {
                    assert(m.mem()[a as int] != 0);
                }
                n = n + 1;
            },
        }
    }
}

/// Whether a byte buffer spells the fuzz-input sentinel pathname.
fn is_testfn(v: &Vec<u8>) -> (r: bool)
    ensures
        r == (v@ =~= testfn_seq()),
{
    let r = v.len() == 6 && v[0] == 116 && v[1] == 101 && v[2] == 115 && v[3] == 116 && v[4] == 102
        && v[5] == 110;
    proof {
        if r {
            assert(v@ =~= testfn_seq());
        }
        if v@ =~= testfn_seq() {
            assert(v@.len() == 6);
            assert(v@[0] == 116u8);
        }
    }
    r
}

/// The guest memory image is unchanged.
pub open spec fn sys_mem_same(pre: &Emulator, post: &Emulator) -> bool {
    &&& post.memory.mem() == pre.memory.mem()
    &&& post.memory.perms() == pre.memory.perms()
    &&& post.memory.dirty_log() == pre.memory.dirty_log()
}

/// The register file after a syscall that only answers in A0.
pub open spec fn wrote_a0(pre: &Emulator, post: &Emulator, v: u64) -> bool {
    post.regs() == Emulator::wreg(pre.regs(), Register::A0, v)
}

/// A failure answer: A0 holds the error value and nothing else changed.
pub open spec fn sys_err_reply(pre: &Emulator, post: &Emulator, r: Result<(), VmExit>) -> bool {
    &&& r.is_ok()
    &&& wrote_a0(pre, post, SYS_ERR)
    &&& sys_mem_same(pre, post)
    &&& post.files@ == pre.files@
}

/// A success answer in A0 with no other change.
pub open spec fn sys_plain_reply(
    pre: &Emulator,
    post: &Emulator,
    r: Result<(), VmExit>,
    v: u64,
) -> bool {
    &&& r.is_ok()
    &&& wrote_a0(pre, post, v)
    &&& sys_mem_same(pre, post)
    &&& post.files@ == pre.files@
}

/// A memory fault surfaced unchanged: nothing was altered.
pub open spec fn sys_fault_reply(
    pre: &Emulator,
    post: &Emulator,
    r: Result<(), VmExit>,
    e: VmExit,
) -> bool {
    &&& r == Err::<(), VmExit>(e)
    &&& post.regs() == pre.regs()
    &&& sys_mem_same(pre, post)
    &&& post.files@ == pre.files@
}

/// The clamp of a seek target into `[0, len]`.
pub open spec fn clamp_cursor(s: int, len: int) -> int {
    if s < 0 {
        0
    } else if s > len {
        len
    } else {
        s
    }
}

/// A fresh descriptor backed by the fuzz input was handed out: the first
/// closed slot, or a new slot past the table.
pub open spec fn opened_new_fd(pre: &Emulator, post: &Emulator, r: Result<(), VmExit>) -> bool {
    let fd2 = Emulator::first_free_fd(pre.files@);
    &&& r.is_ok()
    &&& sys_mem_same(pre, post)
    &&& (fd2 < pre.files@.len() ==> post.files@ == pre.files@.update(
        fd2,
        Some(EmuFile::FuzzInput { cursor: 0 }),
    ))
    &&& (fd2 == pre.files@.len() ==> post.files@ == pre.files@.push(
        Some(EmuFile::FuzzInput { cursor: 0 }),
    ))
    &&& wrote_a0(pre, post, fd2 as u64)
}

/// What `open` does once the pathname at `at` is measured as `n` bytes:
/// the sentinel name opens the fuzz input, any other name fails.
pub open spec fn sys_open_case(
    pre: &Emulator,
    post: &Emulator,
    r: Result<(), VmExit>,
    at: int,
    n: int,
) -> bool {
    if pre.memory.mem().subrange(at, at + n) == testfn_seq() {
        opened_new_fd(pre, post, r)
    } else {
        sys_err_reply(pre, post, r)
    }
}

/// The stat record for the fuzz input was written at `statbuf`, or the
/// write's exact fault was surfaced.
pub open spec fn stat_written(
    pre: &Emulator,
    post: &Emulator,
    r: Result<(), VmExit>,
    statbuf: u64,
) -> bool {
    let data = stat_bytes(spec_input_stat(pre.fuzz_input@.len() as int));
    if pre.memory.spec_write_ok(VirtAddr(statbuf as usize), 128) {
        &&& r.is_ok()
        &&& post.memory.mem() == Mmu::splice(pre.memory.mem(), statbuf as usize as int, data)
        &&& post.memory.perms() == Mmu::promote_seq(
            pre.memory.perms(),
            statbuf as usize as int,
            128,
        )
        &&& post.files@ == pre.files@
        &&& wrote_a0(pre, post, 0)
    } else {
        sys_fault_reply(pre, post, r, pre.memory.spec_write_err(VirtAddr(statbuf as usize), 128))
    }
}

/// What `stat` does once the pathname at `at` is measured as `n` bytes.
pub open spec fn sys_stat_case(
    pre: &Emulator,
    post: &Emulator,
    r: Result<(), VmExit>,
    at: int,
    n: int,
    statbuf: u64,
) -> bool {
    if pre.memory.mem().subrange(at, at + n) == testfn_seq() {
        stat_written(pre, post, r, statbuf)
    } else {
        sys_err_reply(pre, post, r)
    }
}

/// What `read` does on an open fuzz-input descriptor: the initialized
/// slice from the cursor is copied into the guest buffer, the cursor
/// advances, and A0 answers the bytes read.
pub open spec fn sys_read_post(pre: &Emulator, post: &Emulator, r: Result<(), VmExit>) -> bool {
    let rf = pre.regs();
    let fd = rf[Register::A0.index()] as usize;
    let a1 = rf[Register::A1.index()];
    let a2 = rf[Register::A2.index()];
    let ilen = pre.fuzz_input@.len() as int;
    let cursor = pre.files@[fd as int]->Some_0->FuzzInput_cursor as int;
    let rc = if cursor + a2 as usize <= ilen {
        cursor + a2 as usize
    } else {
        ilen
    };
    let start = if cursor <= rc {
        cursor
    } else {
        rc
    };
    let chunk = pre.fuzz_input@.subrange(start, rc);
    if pre.memory.spec_write_ok(VirtAddr(a1 as usize), rc - start) {
        &&& r.is_ok()
        &&& post.memory.mem() == Mmu::splice(pre.memory.mem(), a1 as usize as int, chunk)
        &&& post.memory.perms() == Mmu::promote_seq(
            pre.memory.perms(),
            a1 as usize as int,
            rc - start,
        )
        &&& post.files@ == pre.files@.update(
            fd as int,
            Some(EmuFile::FuzzInput { cursor: rc as usize }),
        )
        &&& wrote_a0(pre, post, (rc - start) as u64)
    } else {
        sys_fault_reply(
            pre,
            post,
            r,
            pre.memory.spec_write_err(VirtAddr(a1 as usize), (rc - start) as usize),
        )
    }
}

/// Signed saturation to the 64-bit range.
pub open spec fn sat_i64(s: int) -> int {
    if s > i64::MAX {
        i64::MAX as int
    } else if s < i64::MIN {
        i64::MIN as int
    } else {
        s
    }
}

/// What `lseek` does on an open fuzz-input descriptor: the new cursor is
/// the seek target clamped into the input, and is answered in A0.
pub open spec fn sys_lseek_post(pre: &Emulator, post: &Emulator, r: Result<(), VmExit>) -> bool {
    let rf = pre.regs();
    let fd = rf[Register::A0.index()] as usize;
    let a1 = rf[Register::A1.index()];
    let whence = rf[Register::A2.index()] as i32;
    let ilen = pre.fuzz_input@.len() as int;
    let cursor = (pre.files@[fd as int]->Some_0->FuzzInput_cursor as i64) as int;
    if whence == 0 || whence == 1 || whence == 2 {
        let target = if whence == 0 {
            a1 as i64 as int
        } else if whence == 1 {
            sat_i64(cursor + a1 as i64)
        } else {
            sat_i64(ilen + a1 as i64)
        };
        let nc = clamp_cursor(target, ilen);
        &&& r.is_ok()
        &&& sys_mem_same(pre, post)
        &&& post.files@ == pre.files@.update(
            fd as int,
            Some(EmuFile::FuzzInput { cursor: nc as usize }),
        )
        &&& wrote_a0(pre, post, nc as u64)
    } else {
        sys_err_reply(pre, post, r)
    }
}

/// What each handled syscall does: the answer placed in A0, the change to
/// the file table, and the change to guest memory, case by case; a memory
/// fault while serving one is surfaced unchanged.
pub open spec fn syscall_post(pre: &Emulator, post: &Emulator, r: Result<(), VmExit>) -> bool {
    let rf = pre.regs();
    let num = rf[Register::A7.index()];
    let fd = rf[Register::A0.index()] as usize;
    let a0 = rf[Register::A0.index()];
    let a1 = rf[Register::A1.index()];
    let a2 = rf[Register::A2.index()];
    if num == 214 {
        // brk for the current break answers null
        sys_plain_reply(pre, post, r, 0)
    } else if num == 64 {
        // write: the bytes are perm-checked and discarded
        if fd < pre.files@.len() && (pre.files@[fd as int] == Some(EmuFile::Stdout)
            || pre.files@[fd as int] == Some(EmuFile::Stderr)) {
            match pre.memory.spec_peek(VirtAddr(a1 as usize), a2 as usize, PERM_READ) {
                Ok(_) => sys_plain_reply(pre, post, r, a2),
                Err(e) => sys_fault_reply(pre, post, r, e),
            }
        } else {
            sys_err_reply(pre, post, r)
        }
    } else if num == 63 {
        if fd < pre.files@.len() && pre.files@[fd as int] matches Some(EmuFile::FuzzInput { .. }) {
            sys_read_post(pre, post, r)
        } else {
            sys_err_reply(pre, post, r)
        }
    } else if num == 62 {
        if fd < pre.files@.len() && pre.files@[fd as int] matches Some(EmuFile::FuzzInput { .. }) {
            sys_lseek_post(pre, post, r)
        } else {
            sys_err_reply(pre, post, r)
        }
    } else if num == 1024 {
        // open: only the sentinel pathname, served from the fuzz input
        &&& ((exists|n: int| #[trigger] nul_string_at(&pre.memory, a0 as usize as int, n)) ==> (forall|
            n: int,
        |
            #[trigger] nul_string_at(&pre.memory, a0 as usize as int, n) ==> sys_open_case(
                pre,
                post,
                r,
                a0 as usize as int,
                n,
            )))
        &&& (!(exists|n: int| #[trigger] nul_string_at(&pre.memory, a0 as usize as int, n)) ==> r.is_err()
            && post.regs() == rf && sys_mem_same(pre, post) && post.files@ == pre.files@)
    } else if num == 1038 {
        // stat: only the sentinel pathname
        &&& ((exists|n: int| #[trigger] nul_string_at(&pre.memory, a0 as usize as int, n)) ==> (forall|
            n: int,
        |
            #[trigger] nul_string_at(&pre.memory, a0 as usize as int, n) ==> sys_stat_case(
                pre,
                post,
                r,
                a0 as usize as int,
                n,
                a1,
            )))
        &&& (!(exists|n: int| #[trigger] nul_string_at(&pre.memory, a0 as usize as int, n)) ==> r.is_err()
            && post.regs() == rf && sys_mem_same(pre, post) && post.files@ == pre.files@)
    } else if num == 80 {
        // fstat of the fuzz-input file
        if fd < pre.files@.len() && pre.files@[fd as int] matches Some(EmuFile::FuzzInput { .. }) {
            stat_written(pre, post, r, a1)
        } else {
            sys_err_reply(pre, post, r)
        }
    } else if num == 57 {
        // close
        if fd < pre.files@.len() && pre.files@[fd as int].is_some() {
            &&& r.is_ok()
            &&& wrote_a0(pre, post, 0)
            &&& sys_mem_same(pre, post)
            &&& post.files@ == pre.files@.update(fd as int, None::<EmuFile>)
        } else {
            sys_err_reply(pre, post, r)
        }
    } else {
        // exit
        &&& r == Err::<(), VmExit>(VmExit::Exit)
        &&& post.regs() == rf
        &&& sys_mem_same(pre, post)
        &&& post.files@ == pre.files@
    }
}

/// A NUL-terminated string at a given address has one length.
proof fn lemma_nul_unique(m: &Mmu, at: int, n1: int, n2: int)
    requires
        nul_string_at(m, at, n1),
        nul_string_at(m, at, n2),
    ensures
        n1 == n2,
{
    if n1 < n2 {
        assert(m.mem()[at + n1] != 0);
    }
    if n2 < n1 {
        assert(m.mem()[at + n2] != 0);
    }
}

/// The inputs `handle_syscall` is defined on: the syscall number names a
/// handled call, `brk` is only ever asked for the current break, writes go
/// to the standard output streams or to bad descriptors, reads and seeks
/// touch only the fuzz-input file or bad descriptors, and `open` is
/// read-only.
pub open spec fn syscall_supported(e: &Emulator) -> bool {
    let num = e.regs()[Register::A7.index()];
    let fd = e.regs()[Register::A0.index()] as usize;
    if num == 214 {
        e.regs()[Register::A0.index()] == 0
    } else if num == 64 {
        fd < e.files@.len() ==> (e.files@[fd as int] is None || e.files@[fd as int] == Some(
            EmuFile::Stdout,
        ) || e.files@[fd as int] == Some(EmuFile::Stderr))
    } else if num == 63 || num == 62 {
        (fd < e.files@.len() && e.files@[fd as int] is Some) ==> (e.files@[fd as int] matches Some(
            EmuFile::FuzzInput { .. },
        ))
    } else if num == 1024 {
        e.regs()[Register::A1.index()] == 0
    } else {
        num == 1038 || num == 80 || num == 57 || num == 93
    }
}

/// Serve one guest syscall against the emulator state. The program
/// counter is left at the `ecall`; the driver advances it on a normal
/// return. Only the calls named by `syscall_supported` are served.
pub fn handle_syscall(emu: &mut Emulator) -> (r: Result<(), VmExit>)
    requires
        old(emu).wf(),
        syscall_supported(old(emu)),
    ensures
        final(emu).wf(),
        final(emu).memory.size() == old(emu).memory.size(),
        final(emu).memory.snap_mem() == old(emu).memory.snap_mem(),
        final(emu).memory.snap_perms() == old(emu).memory.snap_perms(),
        final(emu).memory.allocs() == old(emu).memory.allocs(),
        final(emu).memory.alloc_cursor() == old(emu).memory.alloc_cursor(),
        final(emu).fuzz_input == old(emu).fuzz_input,
        final(emu).bps() == old(emu).bps(),
        final(emu).jit_on() == old(emu).jit_on(),
        final(emu).timeout() == old(emu).timeout(),
        syscall_post(old(emu), final(emu), r),
{
    let num = emu.reg(Register::A7);
    if num == 214 {
        // brk()
        emu.set_reg(Register::A0, 0);
        return Ok(());
    } else if num == 64 {
        // write()
        let fd = emu.reg(Register::A0) as usize;
        let buf = emu.reg(Register::A1);
        let len = emu.reg(Register::A2);
        match emu.files.get_file(fd) {
            Some(Some(EmuFile::Stdout)) | Some(Some(EmuFile::Stderr)) => {
                // The bytes are perm-checked as the guest's write would
                // be; what they hold is discarded (the host may print
                // them).
                match emu.memory.peek(VirtAddr(buf as usize), len as usize, Perm(PERM_READ)) {
                    Ok(_) => {
                        emu.set_reg(Register::A0, len);
                        return Ok(());
                    },
                    Err(e) => Err(e),
                }
            },
            _ => {
                emu.set_reg(Register::A0, SYS_ERR);
                return Ok(());
            },
        }
    } else if num == 63 {
        // read()
        let fd = emu.reg(Register::A0) as usize;
        let buf = emu.reg(Register::A1) as usize;
        let len = emu.reg(Register::A2) as usize;
        match emu.files.get_file(fd) {
            Some(Some(EmuFile::FuzzInput { cursor })) => {
                let end = cursor.saturating_add(len);
                let result_cursor = if end < emu.fuzz_input.len() {
                    end
                } else {
                    emu.fuzz_input.len()
                };
                let mut chunk: Vec<u8> = Vec::new();
                let mut i = cursor;
                if i > result_cursor {
                    i = result_cursor;
                }
                let start = i;
                proof {
                    let pre = old(emu);
                    let ilen = pre.fuzz_input@.len() as int;
                    assert(pre.files@[fd as int]->Some_0->FuzzInput_cursor == cursor);
                    assert(result_cursor as int == (if cursor as int + len <= ilen {
                        cursor as int + len
                    } else {
                        ilen
                    }));
                }
                while i < result_cursor
                    invariant
                        start <= i <= result_cursor,
                        result_cursor <= emu.fuzz_input@.len(),
                        chunk@ == emu.fuzz_input@.subrange(start as int, i as int),
                    decreases result_cursor - i,
                {
                    chunk.push(emu.fuzz_input[i]);
                    proof {
                        assert(chunk@ =~= emu.fuzz_input@.subrange(start as int, i + 1));
                    }
                    i += 1;
                }
                match emu.memory.write_from(VirtAddr(buf), chunk.as_slice()) {
                    Ok(()) => {
                        let bread = result_cursor - start;
                        emu.files.set_file(fd, Some(EmuFile::FuzzInput { cursor: result_cursor }));
                        emu.set_reg(Register::A0, bread as u64);
                        return Ok(());
                    },
                    Err(e) => Err(e),
                }
            },
            _ => {
                emu.set_reg(Register::A0, SYS_ERR);
                return Ok(());
            },
        }
    } else if num == 62 {
        // lseek()
        let fd = emu.reg(Register::A0) as usize;
        let offset = emu.reg(Register::A1) as i64;
        let whence = emu.reg(Register::A2) as i32;
        match emu.files.get_file(fd) {
            Some(Some(EmuFile::FuzzInput { cursor })) => {
                let ilen = emu.fuzz_input.len();
                proof {
                    lemma_input_len_bound(&emu.fuzz_input);
                    assert(old(emu).files@[fd as int]->Some_0->FuzzInput_cursor == cursor);
                }
                let new_cursor: i64 = if whence == 0 {
                    offset
                } else if whence == 1 {
                    sat_add_i64(cursor as i64, offset)
                } else if whence == 2 {
                    sat_add_i64(ilen as i64, offset)
                } else {
                    emu.set_reg(Register::A0, SYS_ERR);
                    return Ok(());
                };
                let new_cursor = if new_cursor < 0 {
                    0
                } else {
                    new_cursor
                };
                let new_cursor = if new_cursor > ilen as i64 {
                    ilen as i64
                } else {
                    new_cursor
                };
                emu.files.set_file(
                    fd,
                    Some(EmuFile::FuzzInput { cursor: new_cursor as usize }),
                );
                emu.set_reg(Register::A0, new_cursor as u64);
                return Ok(());
            },
            _ => {
                emu.set_reg(Register::A0, SYS_ERR);
                return Ok(());
            },
        }
    } else if num == 1024 {
        // open()
        let filename = emu.reg(Register::A0) as usize;
        let n = match scan_cstr(&emu.memory, filename) {
            Ok(n) => n,
            Err(e) => {
                return Err(e);
            },
        };
        let bytes = match emu.memory.peek(VirtAddr(filename), n, Perm(PERM_READ)) {
            Ok(v) => v,
            Err(_) => {
                proof {
                    assert(false);
                }
                return Ok(());
            },
        };
        proof {
            let pre = old(emu);
            let at = pre.regs()[Register::A0.index()] as usize as int;
            assert forall|n2: int| nul_string_at(&pre.memory, at, n2) implies n2 == n as int by {
                lemma_nul_unique(&pre.memory, at, n2, n as int);
            }
            assert(bytes@ == pre.memory.mem().subrange(at, at + n));
        }
        if is_testfn(&bytes) {
            let ghost before_fd = *emu;
            let fd = emu.alloc_file();
            proof {
                assert(before_fd.files@ == old(emu).files@);
            }
            if fd < emu.files.len() {
                emu.files.set_file(fd, Some(EmuFile::FuzzInput { cursor: 0 }));
                proof {
                    if fd == old(emu).files@.len() {
                        assert(emu.files@ =~= old(emu).files@.push(
                            Some(EmuFile::FuzzInput { cursor: 0 }),
                        ));
                    }
                }
            } else {
                emu.files.0.push(Some(EmuFile::FuzzInput { cursor: 0 }));
                proof {
                    assert(false);
                }
            }
            emu.set_reg(Register::A0, fd as u64);
        } else {
            emu.set_reg(Register::A0, SYS_ERR);
        }
        return Ok(());
    } else if num == 1038 {
        // stat()
        let filename = emu.reg(Register::A0) as usize;
        let statbuf = emu.reg(Register::A1);
        let n = match scan_cstr(&emu.memory, filename) {
            Ok(n) => n,
            Err(e) => {
                return Err(e);
            },
        };
        let bytes = match emu.memory.peek(VirtAddr(filename), n, Perm(PERM_READ)) {
            Ok(v) => v,
            Err(_) => {
                proof {
                    assert(false);
                }
                return Ok(());
            },
        };
        proof {
            let pre = old(emu);
            let at = pre.regs()[Register::A0.index()] as usize as int;
            assert forall|n2: int| nul_string_at(&pre.memory, at, n2) implies n2 == n as int by {
                lemma_nul_unique(&pre.memory, at, n2, n as int);
            }
            assert(bytes@ == pre.memory.mem().subrange(at, at + n));
        }
        if is_testfn(&bytes) {
            proof {
                lemma_input_len_bound(&emu.fuzz_input);
            }
            let st = input_stat(emu.fuzz_input.len());
            let data = stat_to_bytes(&st);
            match emu.memory.write_from(VirtAddr(statbuf as usize), data.as_slice()) {
                Ok(()) => {
                    emu.set_reg(Register::A0, 0);
                    return Ok(());
                },
                Err(e) => Err(e),
            }
        } else {
            emu.set_reg(Register::A0, SYS_ERR);
            return Ok(());
        }
    } else if num == 80 {
        // fstat()
        let fd = emu.reg(Register::A0) as usize;
        let statbuf = emu.reg(Register::A1);
        match emu.files.get_file(fd) {
            Some(Some(EmuFile::FuzzInput { .. })) => {
                proof {
                    lemma_input_len_bound(&emu.fuzz_input);
                }
                let st = input_stat(emu.fuzz_input.len());
                let data = stat_to_bytes(&st);
                match emu.memory.write_from(VirtAddr(statbuf as usize), data.as_slice()) {
                    Ok(()) => {
                        emu.set_reg(Register::A0, 0);
                        return Ok(());
                    },
                    Err(e) => Err(e),
                }
            },
            _ => {
                emu.set_reg(Register::A0, SYS_ERR);
                return Ok(());
            },
        }
    } else if num == 57 {
        // close()
        let fd = emu.reg(Register::A0) as usize;
        match emu.files.get_file(fd) {
            Some(Some(_)) => {
                emu.files.set_file(fd, None);
                emu.set_reg(Register::A0, 0);
            },
            Some(None) => {
                emu.set_reg(Register::A0, SYS_ERR);
            },
            None => {
                emu.set_reg(Register::A0, SYS_ERR);
            },
        }
        return Ok(());
    } else {
        // exit()
        proof {
            assert(num == 93);
        }
        return Err(VmExit::Exit);
    }
}

/// A vector of bytes fits in addressable memory.
proof fn lemma_input_len_bound(v: &Vec<u8>)
    ensures
        v@.len() <= usize::MAX,
{
    vstd::std_specs::vec::axiom_spec_len(v);
    assert(vstd::std_specs::vec::spec_vec_len(v) == v@.len());
}

} // verus!
