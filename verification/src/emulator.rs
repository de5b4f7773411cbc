//! Guest exit reasons, fault classification, and the RV64I interpreter.

use vstd::prelude::*;
use std::collections::BTreeMap;
use crate::mmu::{Mmu, VirtAddr, Perm, PERM_EXEC};
use crate::mmu::{word_of, le_bytes, lemma_word_of_bound, lemma_pow256_values};
use crate::decode::{
    Register, Instruction, LoadOp, StoreOp, spec_decode, decode, alu64, alu32, branch_taken,
    load_size, load_extend, store_size, store_value, alu64_exec, alu32_exec, branch_taken_exec,
};
use crate::hooks::{BreakpointHook, run_hook};
use crate::coverage::{record_edge, is_pow2, bit_is_set, edge_is_new};

verus! {

/// Exit reasons shared with translated code. The record that carries one
/// across the native boundary is a plain integer on that side; here it is
/// an ordinary tagged enum.
#[derive(Clone, Copy, Debug, PartialEq, Eq, Structural)]
pub enum ExitReason {
    /// No exit has been recorded; observing this is a logic bug.
    NotSet,
    IndirectBranch,
    ReadFault,
    WriteFault,
    Ecall,
    Ebreak,
    Timeout,
    Breakpoint,
    InvalidOpcode,
    Coverage,
}

/// Reasons why the VM exited.
#[derive(Clone, Copy, Debug, PartialEq, Eq, Structural)]
pub enum VmExit {
    /// The VM exited due to a syscall instruction
    Syscall,

    /// The VM exited cleanly as requested by the VM
    Exit,

    /// A RISC-V software breakpoint instruction was hit
    Ebreak,

    /// The instruction count limit was hit and a timeout has occurred
    Timeout,

    /// An invalid opcode was lifted or executed
    InvalidOpcode,

    /// A free of an invalid region was performed
    InvalidFree(VirtAddr),

    /// An integer overflow occurred during a syscall due to bad supplied
    /// arguments by the program
    SyscallIntegerOverflow,

    /// A read or write memory request overflowed the address size
    AddressIntegerOverflow,

    /// The address requested was not in bounds of the guest memory space
    AddressMiss(VirtAddr, usize),

    /// A read of `VirtAddr` failed due to missing permissions
    ReadFault(VirtAddr),

    /// An execution of a `VirtAddr` failed
    ExecFault(VirtAddr),

    /// A read of memory which is uninitialized, but otherwise readable,
    /// failed at `VirtAddr`
    UninitFault(VirtAddr),

    /// A write of `VirtAddr` failed due to missing permissions
    WriteFault(VirtAddr),
}

/// Different types of faults
#[derive(Clone, Copy, Debug, PartialEq, Eq, Structural)]
pub enum FaultType {
    /// Access occurred outside of program memory
    Bounds,

    /// Invalid free (eg, double free or corrupt free address)
    Free,

    /// An invalid opcode was executed (or lifted)
    InvalidOpcode,

    Exec,
    Read,
    Write,
    Uninit,
}

/// Different buckets for addresses, used to deduplicate crashes
#[derive(Clone, Copy, Debug, PartialEq, Eq, Structural)]
pub enum AddressType {
    /// Address was between [0, 32 KiB)
    Null,

    /// Address was between [-32 KiB, 0)
    Negative,

    /// Address was normal
    Normal,
}

impl AddressType {
    /// The bucket an address falls in, by its two's-complement reading.
    pub open spec fn spec_of(val: VirtAddr) -> AddressType {
        if (val.0 as u64) < 32768 {
            AddressType::Null
        } else if (val.0 as u64) >= 0xFFFF_FFFF_FFFF_8000 {
            AddressType::Negative
        } else {
            AddressType::Normal
        }
    }

    /// Classify an address into its crash-deduplication bucket: the two's
    /// complement reading of the address is either near null, small and
    /// negative, or ordinary.
    pub fn of(val: VirtAddr) -> (r: AddressType)
        ensures
            r == AddressType::spec_of(val),
    {
        let v = val.0 as u64;
        if v < 32768 {
            AddressType::Null
        } else if v >= 0xFFFF_FFFF_FFFF_8000 {
            AddressType::Negative
        } else {
            AddressType::Normal
        }
    }
}

impl VmExit {
    /// The faulting address and fault type, where this exit is a crash.
    pub open spec fn spec_is_crash(self) -> Option<(FaultType, VirtAddr)> {
        match self {
            VmExit::AddressMiss(addr, _) => Some((FaultType::Bounds, addr)),
            VmExit::ReadFault(addr) => Some((FaultType::Read, addr)),
            VmExit::ExecFault(addr) => Some((FaultType::Exec, addr)),
            VmExit::UninitFault(addr) => Some((FaultType::Uninit, addr)),
            VmExit::WriteFault(addr) => Some((FaultType::Write, addr)),
            VmExit::InvalidFree(addr) => Some((FaultType::Free, addr)),
            VmExit::InvalidOpcode => Some((FaultType::InvalidOpcode, VirtAddr(0))),
            _ => None,
        }
    }

    /// If this is a crash it returns the faulting address and the fault type
    pub fn is_crash(&self) -> (r: Option<(FaultType, VirtAddr)>)
        ensures
            r == self.spec_is_crash(),
    {
        match *self {
            VmExit::AddressMiss(addr, _) => Some((FaultType::Bounds, addr)),
            VmExit::ReadFault(addr) => Some((FaultType::Read, addr)),
            VmExit::ExecFault(addr) => Some((FaultType::Exec, addr)),
            VmExit::UninitFault(addr) => Some((FaultType::Uninit, addr)),
            VmExit::WriteFault(addr) => Some((FaultType::Write, addr)),
            VmExit::InvalidFree(addr) => Some((FaultType::Free, addr)),
            VmExit::InvalidOpcode => Some((FaultType::InvalidOpcode, VirtAddr(0))),
            _ => None,
        }
    }
}

/// An open file
#[derive(Clone, Copy, Debug, PartialEq, Eq, Structural)]
pub enum EmuFile {
    Stdin,
    Stdout,
    Stderr,
    /// A file which is backed by the current fuzz input
    FuzzInput { cursor: usize },
}

/// A list of all open files, indexed by file descriptor.
#[derive(Debug, PartialEq, Eq)]
pub struct Files(pub Vec<Option<EmuFile>>);

impl View for Files {
    type V = Seq<Option<EmuFile>>;

    open spec fn view(&self) -> Seq<Option<EmuFile>> {
        self.0@
    }
}

impl Files {
    /// The state of file descriptor `fd`: nothing when the descriptor was
    /// never allocated, an empty slot when it is closed, and the open file
    /// otherwise.
    pub fn get_file(&self, fd: usize) -> (r: Option<Option<EmuFile>>)
        ensures
            r == if fd < self@.len() {
                Some(self@[fd as int])
            } else {
                None::<Option<EmuFile>>
            },
    {
        if fd < self.0.len() {
            Some(self.0[fd])
        } else {
            None
        }
    }

    /// Replace the state of file descriptor `fd`.
    pub fn set_file(&mut self, fd: usize, f: Option<EmuFile>)
        requires
            fd < old(self)@.len(),
        ensures
            final(self)@ == old(self)@.update(fd as int, f),
    {
        self.0[fd] = f;
    }

    /// Number of file descriptor slots.
    pub fn len(&self) -> (r: usize)
        ensures
            r == self@.len(),
    {
        self.0.len()
    }
}

/// The guest-state record shared between the interpreter and translated
/// code: exit reason, re-entry program counter, the last coverage edge, the
/// 33 guest registers, and the retired-instruction counter with its
/// timeout. The host-side copy of this record additionally carries the raw
/// addresses of the memory, permission, dirty and coverage areas that
/// generated code indexes; those live with the host.
#[derive(Debug)]
pub struct GuestState {
    pub exit_reason: ExitReason,
    pub reenter_pc: u64,
    pub cov_from: u64,
    pub cov_to: u64,
    pub regs: Vec<u64>,
    pub instrs_execed: u64,
    pub timeout: u64,
}

impl Default for GuestState {
    /// A fresh guest state: no exit recorded, all registers zero, and the
    /// default instruction-count timeout.
    fn default() -> (r: GuestState)
        ensures
            r.exit_reason == ExitReason::NotSet,
            r.reenter_pc == 0,
            r.cov_from == 0,
            r.cov_to == 0,
            r.regs@ == Seq::new(33, |i: int| 0u64),
            r.instrs_execed == 0,
            r.timeout == 50_000_000u64,
    {
        GuestState {
            exit_reason: ExitReason::NotSet,
            reenter_pc: 0,
            cov_from: 0,
            cov_to: 0,
            regs: vec![0u64; 33],
            instrs_execed: 0,
            timeout: 50_000_000,
        }
    }
}

/// All the state of the emulated system.
pub struct Emulator {
    /// Memory for the emulator
    pub memory: Mmu,
    /// All RV64i registers, and the record shared with translated code
    pub state: GuestState,
    /// Fuzz input for the program
    pub fuzz_input: Vec<u8>,
    /// File handle table (indexed by file descriptor)
    pub files: Files,
    /// Breakpoint hooks, keyed by guest program counter
    pub breakpoints: BTreeMap<usize, BreakpointHook>,
    /// Whether execution should go through the translation cache
    pub jit_enabled: bool,
}

impl Emulator {
    /// The register file: slots 0 through 31 are x0 through x31, slot 32 is
    /// the program counter.
    pub open spec fn regs(&self) -> Seq<u64> {
        self.state.regs@
    }

    /// The registered breakpoint hooks, keyed by guest program counter.
    pub open spec fn bps(&self) -> Map<usize, BreakpointHook> {
        self.breakpoints@
    }

    /// Whether the translation cache is enabled.
    pub open spec fn jit_on(&self) -> bool {
        self.jit_enabled
    }

    /// The instruction-count timeout.
    pub open spec fn timeout(&self) -> u64 {
        self.state.timeout
    }

    /// The current program counter.
    pub open spec fn pc(&self) -> u64 {
        self.regs()[32]
    }

    /// Well-formedness: the memory unit is well formed, the register file
    /// has its 33 slots, and register zero holds zero.
    pub open spec fn wf(&self) -> bool {
        &&& self.memory.wf()
        &&& self.regs().len() == 33
        &&& self.regs()[0] == 0
        &&& self.fuzz_input@.len() <= 0x1000_0000_0000
    }

    /// The register file after writing `v` to `rd`: writes to register
    /// zero are dropped.
    pub open spec fn wreg(regs: Seq<u64>, rd: Register, v: u64) -> Seq<u64> {
        if rd.index() == 0 {
            regs
        } else {
            regs.update(rd.index(), v)
        }
    }

    /// Creates a new emulator with `size` bytes of memory
    pub fn new(size: usize) -> (r: Emulator)
        requires
            8 <= size <= 0x1000_0000_0000,
        ensures
            r.wf(),
            r.memory.size() == size,
            r.memory.mem() == Seq::new(size as nat, |i: int| 0u8),
            r.memory.perms() == Seq::new(size as nat, |i: int| 0u8),
            r.memory.dirty_log().len() == 0,
            r.regs() == Seq::new(33, |i: int| 0u64),
            r.files@ == seq![
                Some(EmuFile::Stdin),
                Some(EmuFile::Stdout),
                Some(EmuFile::Stderr),
            ],
            r.fuzz_input@ == Seq::<u8>::empty(),
            r.bps() == Map::<usize, BreakpointHook>::empty(),
            !r.jit_on(),
            r.timeout() == 50_000_000u64,
    {
        let mut files: Vec<Option<EmuFile>> = Vec::new();
        files.push(Some(EmuFile::Stdin));
        files.push(Some(EmuFile::Stdout));
        files.push(Some(EmuFile::Stderr));
        let r = Emulator {
            memory: Mmu::new(size),
            state: GuestState::default(),
            fuzz_input: Vec::new(),
            files: Files(files),
            breakpoints: BTreeMap::new(),
            jit_enabled: false,
        };
        proof {
            assert(r.files@ =~= seq![
                Some(EmuFile::Stdin),
                Some(EmuFile::Stdout),
                Some(EmuFile::Stderr),
            ]);
            assert(r.fuzz_input@ =~= Seq::<u8>::empty());
        }
        r
    }

    /// Fork an emulator into a new emulator which will diff from the
    /// original: its memory snapshots the parent's current contents, the
    /// registers are copied, and the counters start fresh.
    pub fn fork(&self) -> (r: Emulator)
        requires
            self.wf(),
        ensures
            r.wf(),
            r.memory.size() == self.memory.size(),
            r.memory.mem() == self.memory.mem(),
            r.memory.perms() == self.memory.perms(),
            r.memory.dirty_log().len() == 0,
            r.memory.alloc_cursor() == self.memory.alloc_cursor(),
            r.memory.allocs() == self.memory.allocs(),
            r.memory.snap_mem() == self.memory.mem(),
            r.memory.snap_perms() == self.memory.perms(),
            r.regs() == self.regs(),
            r.files@ == self.files@,
            r.fuzz_input@ == self.fuzz_input@,
            r.bps() == self.bps(),
            r.jit_on() == self.jit_on(),
            r.timeout() == 50_000_000u64,
    {
        let mut state = GuestState::default();
        let mut i: usize = 0;
        while i < 33
            invariant
                i <= 33,
                state.regs@.len() == 33,
                self.regs().len() == 33,
                forall|j: int| 0 <= j < i ==> state.regs@[j] == self.regs()[j],
                forall|j: int| i <= j < 33 ==> state.regs@[j] == 0,
                state.timeout == 50_000_000u64,
            decreases 33 - i,
        {
            state.regs[i] = self.state.regs[i];
            i += 1;
        }
        let r = Emulator {
            memory: self.memory.fork(),
            state,
            fuzz_input: self.fuzz_input.clone(),
            files: Files(self.files.0.clone()),
            breakpoints: self.breakpoints.clone(),
            jit_enabled: self.jit_enabled,
        };
        proof {
            assert(r.regs() =~= self.regs());
            assert(r.files@ =~= self.files@);
            assert(r.fuzz_input@ =~= self.fuzz_input@);
        }
        r
    }

    /// Route execution through the coverage-instrumented path of `run`.
    /// The host manages the translation cache and the compiled units the
    /// lifter feeds it; the guest-visible protocol those units follow is
    /// the one `run_jit` performs.
    pub fn enable_jit(self) -> (r: Emulator)
        requires
            self.wf(),
        ensures
            r.wf(),
            r.jit_on(),
            r.memory == self.memory,
            r.regs() == self.regs(),
            r.files == self.files,
            r.fuzz_input == self.fuzz_input,
            r.bps() == self.bps(),
            r.timeout() == self.timeout(),
    {
        Emulator { jit_enabled: true, ..self }
    }

    /// Register a breakpoint hook at `pc`.
    pub fn add_breakpoint(&mut self, pc: VirtAddr, hook: BreakpointHook)
        requires
            old(self).wf(),
        ensures
            final(self).wf(),
            final(self).bps() == old(self).bps().insert(pc.0, hook),
            final(self).memory == old(self).memory,
            final(self).regs() == old(self).regs(),
            final(self).files == old(self).files,
            final(self).fuzz_input == old(self).fuzz_input,
            final(self).jit_on() == old(self).jit_on(),
            final(self).timeout() == old(self).timeout(),
    {
        self.breakpoints.insert(pc.0, hook);
    }

    /// Reset the state of `self` to `other`, assuming that `self` is forked
    /// off of `other`: memory is restored block by block from the dirty
    /// log, and registers and files are copied back.
    pub fn reset(&mut self, other: &Emulator)
        requires
            old(self).wf(),
            other.wf(),
            old(self).memory.size() == other.memory.size(),
            old(self).memory.snap_mem() == other.memory.mem(),
            old(self).memory.snap_perms() == other.memory.perms(),
        ensures
            final(self).wf(),
            final(self).memory.mem() == other.memory.mem(),
            final(self).memory.perms() == other.memory.perms(),
            final(self).memory.dirty_log().len() == 0,
            final(self).memory.alloc_cursor() == other.memory.alloc_cursor(),
            final(self).memory.allocs() == other.memory.allocs(),
            final(self).memory.snap_mem() == old(self).memory.snap_mem(),
            final(self).memory.snap_perms() == old(self).memory.snap_perms(),
            final(self).regs() == other.regs(),
            final(self).files@ == other.files@,
            final(self).fuzz_input == old(self).fuzz_input,
            final(self).bps() == old(self).bps(),
            final(self).jit_on() == old(self).jit_on(),
            final(self).timeout() == old(self).timeout(),
    {
        self.memory.reset(&other.memory);
        let mut i: usize = 0;
        while i < 33
            invariant
                i <= 33,
                self.state.regs@.len() == 33,
                other.regs().len() == 33,
                forall|j: int| 0 <= j < i ==> self.regs()[j] == other.regs()[j],
                self.memory.wf(),
                self.memory.mem() == other.memory.mem(),
                self.memory.perms() == other.memory.perms(),
                self.memory.dirty_log().len() == 0,
                self.memory.alloc_cursor() == other.memory.alloc_cursor(),
                self.memory.allocs() == other.memory.allocs(),
                self.memory.snap_mem() == old(self).memory.snap_mem(),
                self.memory.snap_perms() == old(self).memory.snap_perms(),
                self.files == old(self).files,
                self.fuzz_input == old(self).fuzz_input,
                self.breakpoints == old(self).breakpoints,
                self.jit_enabled == old(self).jit_enabled,
                self.state.timeout == old(self).state.timeout,
            decreases 33 - i,
        {
            self.state.regs[i] = other.state.regs[i];
            i += 1;
        }
        self.files.0.clear();
        self.files.0.extend_from_slice(other.files.0.as_slice());
        proof {
            assert(self.regs() =~= other.regs());
            assert(self.files@ =~= other.files@);
        }
    }

    /// The first closed slot of a file table, or its length when every
    /// slot is open.
    pub open spec fn first_free_fd(files: Seq<Option<EmuFile>>) -> int
        decreases files.len(),
    {
        if files.len() == 0 {
            0
        } else if files[0].is_none() {
            0
        } else {
            1 + Self::first_free_fd(files.subrange(1, files.len() as int))
        }
    }

    /// Allocate a file descriptor: the first closed slot is reused, and a
    /// new slot is appended when every descriptor is open.
    pub fn alloc_file(&mut self) -> (fd: usize)
        requires
            old(self).wf(),
        ensures
            final(self).wf(),
            final(self).memory == old(self).memory,
            final(self).regs() == old(self).regs(),
            final(self).fuzz_input == old(self).fuzz_input,
            final(self).bps() == old(self).bps(),
            final(self).jit_on() == old(self).jit_on(),
            final(self).timeout() == old(self).timeout(),
            fd <= old(self).files@.len(),
            fd == Self::first_free_fd(old(self).files@),
            forall|j: int| 0 <= j < fd ==> old(self).files@[j].is_some(),
            fd < old(self).files@.len() ==> final(self).files@ == old(self).files@ && old(self).files@[fd as int].is_none(),
            fd == old(self).files@.len() ==> final(self).files@ == old(self).files@.push(
                None::<EmuFile>,
            ),
    {
        let n = self.files.0.len();
        let mut fd: usize = 0;
        while fd < n
            invariant
                self.wf(),
                n == self.files@.len(),
                fd <= n,
                self == old(self),
                forall|j: int| 0 <= j < fd ==> self.files@[j].is_some(),
            decreases n - fd,
        {
            if self.files.0[fd].is_none() {
                proof {
                    lemma_first_free_at(self.files@, fd as int);
                }
                return fd;
            }
            fd += 1;
        }
        proof {
            lemma_first_free_full(self.files@, fd as int);
        }
        self.files.0.push(None);
        fd
    }

    /// Get a register from the guest; register zero always reads zero.
    pub fn reg(&self, register: Register) -> (r: u64)
        requires
            self.wf(),
        ensures
            r == self.regs()[register.index()],
    {
        match register {
            Register::Zero => 0,
            _ => self.state.regs[register.as_index()],
        }
    }

    /// Set a register in the guest; writes to register zero are dropped.
    pub fn set_reg(&mut self, register: Register, val: u64)
        requires
            old(self).wf(),
        ensures
            final(self).wf(),
            final(self).regs() == Emulator::wreg(old(self).regs(), register, val),
            final(self).memory == old(self).memory,
            final(self).files == old(self).files,
            final(self).fuzz_input == old(self).fuzz_input,
            final(self).bps() == old(self).bps(),
            final(self).jit_on() == old(self).jit_on(),
            final(self).timeout() == old(self).timeout(),
    {
        match register {
            Register::Zero => {},
            _ => {
                let i = register.as_index();
                self.state.regs[i] = val;
            },
        }
    }

    /// The address a faulting memory exit names, where it names one; the
    /// interpreter reports a failing fetch at that address.
    pub open spec fn crash_addr(e: VmExit, pc: u64) -> VirtAddr {
        match e.spec_is_crash() {
            Some((_, a)) => a,
            None => VirtAddr(pc as usize),
        }
    }

    /// What fetching the instruction at the current program counter yields:
    /// an unaligned counter or a byte without execute permission is an
    /// execution fault at the offending address.
    pub open spec fn spec_fetch(&self) -> Result<u32, VmExit> {
        let pc = self.pc();
        if pc & 3 != 0 {
            Err(VmExit::ExecFault(VirtAddr(pc as usize)))
        } else {
            match self.memory.spec_peek(VirtAddr(pc as usize), 4, PERM_EXEC) {
                Ok(bytes) => Ok(word_of(bytes) as u32),
                Err(e) => Err(VmExit::ExecFault(Self::crash_addr(e, pc))),
            }
        }
    }

    /// Fetch the instruction word at the current program counter.
    pub fn fetch(&self) -> (r: Result<u32, VmExit>)
        requires
            self.wf(),
        ensures
            r == self.spec_fetch(),
    {
        let pc = self.reg(Register::Pc);
        if pc & 3 != 0 {
            return Err(VmExit::ExecFault(VirtAddr(pc as usize)));
        }
        match self.memory.read_word_perms(VirtAddr(pc as usize), 4, Perm(PERM_EXEC)) {
            Ok(w) => {
                proof {
                    lemma_word_of_bound(
                        self.memory.mem().subrange(
                            (pc as usize) as int,
                            (pc as usize) as int + 4,
                        ),
                    );
                    lemma_pow256_values();
                }
                Ok(w as u32)
            },
            Err(e) => {
                match e.is_crash() {
                    Some(crash) => Err(VmExit::ExecFault(crash.1)),
                    None => Err(VmExit::ExecFault(VirtAddr(pc as usize))),
                }
            },
        }
    }

    /// The memory image is unchanged between `pre` and `post`.
    pub open spec fn mem_same(pre: Emulator, post: Emulator) -> bool {
        &&& post.memory.mem() == pre.memory.mem()
        &&& post.memory.perms() == pre.memory.perms()
        &&& post.memory.dirty_log() == pre.memory.dirty_log()
    }

    /// One retired instruction changed only the register file, to `regs`.
    pub open spec fn regs_only(pre: Emulator, post: Emulator, regs: Seq<u64>) -> bool {
        &&& post.regs() == regs
        &&& Self::mem_same(pre, post)
    }

    /// What one step of the interpreter does for the decoded instruction
    /// `i` fetched at `pc`: the reference model of RV64I execution.
    pub open spec fn step_post_decoded(
        pre: Emulator,
        post: Emulator,
        r: Result<(), VmExit>,
        pc: u64,
        i: Instruction,
    ) -> bool {
        let rf = pre.regs();
        match i {
            Instruction::Lui { rd, imm } => r == Ok::<(), VmExit>(()) && Self::regs_only(
                pre,
                post,
                Self::wreg(Self::wreg(rf, rd, imm), Register::Pc, pc.wrapping_add(4)),
            ),
            Instruction::Auipc { rd, imm } => r == Ok::<(), VmExit>(()) && Self::regs_only(
                pre,
                post,
                Self::wreg(
                    Self::wreg(rf, rd, imm.wrapping_add(pc)),
                    Register::Pc,
                    pc.wrapping_add(4),
                ),
            ),
            Instruction::Jal { rd, imm } => r == Ok::<(), VmExit>(()) && Self::regs_only(
                pre,
                post,
                Self::wreg(
                    Self::wreg(rf, rd, pc.wrapping_add(4)),
                    Register::Pc,
                    pc.wrapping_add(imm),
                ),
            ),
            Instruction::Jalr { rd, rs1, imm } => r == Ok::<(), VmExit>(()) && Self::regs_only(
                pre,
                post,
                Self::wreg(
                    Self::wreg(rf, rd, pc.wrapping_add(4)),
                    Register::Pc,
                    rf[rs1.index()].wrapping_add(imm),
                ),
            ),
            Instruction::Branch { op, rs1, rs2, imm } => r == Ok::<(), VmExit>(())
                && Self::regs_only(
                pre,
                post,
                Self::wreg(
                    rf,
                    Register::Pc,
                    if branch_taken(op, rf[rs1.index()], rf[rs2.index()]) {
                        pc.wrapping_add(imm)
                    } else {
                        pc.wrapping_add(4)
                    },
                ),
            ),
            Instruction::Load { op, rd, rs1, imm } => {
                let addr = VirtAddr(rf[rs1.index()].wrapping_add(imm) as usize);
                match pre.memory.spec_read(addr, load_size(op)) {
                    Ok(bytes) => r == Ok::<(), VmExit>(()) && Self::regs_only(
                        pre,
                        post,
                        Self::wreg(
                            Self::wreg(rf, rd, load_extend(op, word_of(bytes) as u64)),
                            Register::Pc,
                            pc.wrapping_add(4),
                        ),
                    ),
                    Err(e) => r == Err::<(), VmExit>(e) && Self::regs_only(pre, post, rf),
                }
            },
            Instruction::Store { op, rs1, rs2, imm } => {
                let addr = VirtAddr(rf[rs1.index()].wrapping_add(imm) as usize);
                let n = store_size(op);
                if pre.memory.spec_write_ok(addr, n as int) {
                    &&& r == Ok::<(), VmExit>(())
                    &&& post.regs() == Self::wreg(rf, Register::Pc, pc.wrapping_add(4))
                    &&& post.memory.mem() == Mmu::splice(
                        pre.memory.mem(),
                        addr.0 as int,
                        le_bytes(store_value(op, rf[rs2.index()]) as int, n as int),
                    )
                    &&& post.memory.perms() == Mmu::promote_seq(
                        pre.memory.perms(),
                        addr.0 as int,
                        n as int,
                    )
                    &&& Mmu::dirty_extended(&pre.memory, &post.memory, addr.0 as int, n as int)
                } else {
                    &&& r == Err::<(), VmExit>(pre.memory.spec_write_err(addr, n))
                    &&& Self::regs_only(pre, post, rf)
                }
            },
            Instruction::AluImm { op, rd, rs1, imm } => r == Ok::<(), VmExit>(())
                && Self::regs_only(
                pre,
                post,
                Self::wreg(
                    Self::wreg(rf, rd, alu64(op, rf[rs1.index()], imm)),
                    Register::Pc,
                    pc.wrapping_add(4),
                ),
            ),
            Instruction::Alu { op, rd, rs1, rs2 } => r == Ok::<(), VmExit>(()) && Self::regs_only(
                pre,
                post,
                Self::wreg(
                    Self::wreg(rf, rd, alu64(op, rf[rs1.index()], rf[rs2.index()])),
                    Register::Pc,
                    pc.wrapping_add(4),
                ),
            ),
            Instruction::AluImmW { op, rd, rs1, imm } => r == Ok::<(), VmExit>(())
                && Self::regs_only(
                pre,
                post,
                Self::wreg(
                    Self::wreg(rf, rd, alu32(op, rf[rs1.index()] as u32, imm as u32)),
                    Register::Pc,
                    pc.wrapping_add(4),
                ),
            ),
            Instruction::AluW { op, rd, rs1, rs2 } => r == Ok::<(), VmExit>(()) && Self::regs_only(
                pre,
                post,
                Self::wreg(
                    Self::wreg(
                        rf,
                        rd,
                        alu32(op, rf[rs1.index()] as u32, rf[rs2.index()] as u32),
                    ),
                    Register::Pc,
                    pc.wrapping_add(4),
                ),
            ),
            Instruction::Fence => r == Ok::<(), VmExit>(()) && Self::regs_only(
                pre,
                post,
                Self::wreg(rf, Register::Pc, pc.wrapping_add(4)),
            ),
            Instruction::Ecall => r == Err::<(), VmExit>(VmExit::Syscall) && Self::regs_only(
                pre,
                post,
                rf,
            ),
            Instruction::Ebreak => r == Err::<(), VmExit>(VmExit::Ebreak) && Self::regs_only(
                pre,
                post,
                rf,
            ),
            Instruction::Invalid => r == Err::<(), VmExit>(VmExit::InvalidOpcode)
                && Self::regs_only(pre, post, rf),
        }
    }

    /// What one step of the interpreter does: a failing fetch is an
    /// execution fault and changes nothing; otherwise the fetched
    /// instruction executes as the reference model says.
    pub open spec fn step_post(pre: Emulator, post: Emulator, r: Result<(), VmExit>) -> bool {
        match pre.spec_fetch() {
            Err(e) => r == Err::<(), VmExit>(e) && Self::regs_only(pre, post, pre.regs()),
            Ok(inst) => Self::step_post_decoded(pre, post, r, pre.pc(), spec_decode(inst)),
        }
    }

    /// Fetch, decode and execute one instruction, without breakpoint
    /// dispatch and without touching the retired-instruction counter.
    pub fn step(&mut self) -> (r: Result<(), VmExit>)
        requires
            old(self).wf(),
        ensures
            final(self).wf(),
            final(self).memory.size() == old(self).memory.size(),
            final(self).memory.snap_mem() == old(self).memory.snap_mem(),
            final(self).memory.snap_perms() == old(self).memory.snap_perms(),
            final(self).memory.alloc_cursor() == old(self).memory.alloc_cursor(),
            final(self).memory.allocs() == old(self).memory.allocs(),
            final(self).files == old(self).files,
            final(self).fuzz_input == old(self).fuzz_input,
            final(self).bps() == old(self).bps(),
            final(self).jit_on() == old(self).jit_on(),
            final(self).timeout() == old(self).timeout(),
            Self::step_post(*old(self), *final(self), r),
    {
        let pc = self.reg(Register::Pc);
        let inst = match self.fetch() {
            Ok(i) => i,
            Err(e) => {
                return Err(e);
            },
        };
        let instr = decode(inst);
        match instr {
            Instruction::Lui { rd, imm } => {
                self.set_reg(rd, imm);
                self.set_reg(Register::Pc, pc.wrapping_add(4));
                Ok(())
            },
            Instruction::Auipc { rd, imm } => {
                self.set_reg(rd, imm.wrapping_add(pc));
                self.set_reg(Register::Pc, pc.wrapping_add(4));
                Ok(())
            },
            Instruction::Jal { rd, imm } => {
                self.set_reg(rd, pc.wrapping_add(4));
                self.set_reg(Register::Pc, pc.wrapping_add(imm));
                Ok(())
            },
            Instruction::Jalr { rd, rs1, imm } => {
                let target = self.reg(rs1).wrapping_add(imm);
                self.set_reg(rd, pc.wrapping_add(4));
                self.set_reg(Register::Pc, target);
                Ok(())
            },
            Instruction::Branch { op, rs1, rs2, imm } => {
                let a = self.reg(rs1);
                let b = self.reg(rs2);
                if branch_taken_exec(op, a, b) {
                    self.set_reg(Register::Pc, pc.wrapping_add(imm));
                } else {
                    self.set_reg(Register::Pc, pc.wrapping_add(4));
                }
                Ok(())
            },
            Instruction::Load { op, rd, rs1, imm } => {
                let addr = VirtAddr(self.reg(rs1).wrapping_add(imm) as usize);
                let n = match op {
                    LoadOp::Lb => 1,
                    LoadOp::Lh => 2,
                    LoadOp::Lw => 4,
                    LoadOp::Ld => 8,
                    LoadOp::Lbu => 1,
                    LoadOp::Lhu => 2,
                    LoadOp::Lwu => 4,
                };
                match self.memory.read_word(addr, n) {
                    Ok(w) => {
                        let v = match op {
                            LoadOp::Lb => (((w as u8) as i8) as i64) as u64,
                            LoadOp::Lh => (((w as u16) as i16) as i64) as u64,
                            LoadOp::Lw => (((w as u32) as i32) as i64) as u64,
                            LoadOp::Ld => w,
                            LoadOp::Lbu => (w as u8) as u64,
                            LoadOp::Lhu => (w as u16) as u64,
                            LoadOp::Lwu => (w as u32) as u64,
                        };
                        self.set_reg(rd, v);
                        self.set_reg(Register::Pc, pc.wrapping_add(4));
                        Ok(())
                    },
                    Err(e) => Err(e),
                }
            },
            Instruction::Store { op, rs1, rs2, imm } => {
                let addr = VirtAddr(self.reg(rs1).wrapping_add(imm) as usize);
                let n: usize = match op {
                    StoreOp::Sb => 1,
                    StoreOp::Sh => 2,
                    StoreOp::Sw => 4,
                    StoreOp::Sd => 8,
                };
                let v = match op {
                    StoreOp::Sb => (self.reg(rs2) as u8) as u64,
                    StoreOp::Sh => (self.reg(rs2) as u16) as u64,
                    StoreOp::Sw => (self.reg(rs2) as u32) as u64,
                    StoreOp::Sd => self.reg(rs2),
                };
                proof {
                    lemma_pow256_values();
                }
                match self.memory.write_word(addr, v, n) {
                    Ok(()) => {
                        self.set_reg(Register::Pc, pc.wrapping_add(4));
                        Ok(())
                    },
                    Err(e) => Err(e),
                }
            },
            Instruction::AluImm { op, rd, rs1, imm } => {
                let a = self.reg(rs1);
                let v = alu64_exec(op, a, imm);
                self.set_reg(rd, v);
                self.set_reg(Register::Pc, pc.wrapping_add(4));
                Ok(())
            },
            Instruction::Alu { op, rd, rs1, rs2 } => {
                let a = self.reg(rs1);
                let b = self.reg(rs2);
                let v = alu64_exec(op, a, b);
                self.set_reg(rd, v);
                self.set_reg(Register::Pc, pc.wrapping_add(4));
                Ok(())
            },
            Instruction::AluImmW { op, rd, rs1, imm } => {
                let a = self.reg(rs1) as u32;
                let v = alu32_exec(op, a, imm as u32);
                self.set_reg(rd, v);
                self.set_reg(Register::Pc, pc.wrapping_add(4));
                Ok(())
            },
            Instruction::AluW { op, rd, rs1, rs2 } => {
                let a = self.reg(rs1) as u32;
                let b = self.reg(rs2) as u32;
                let v = alu32_exec(op, a, b);
                self.set_reg(rd, v);
                self.set_reg(Register::Pc, pc.wrapping_add(4));
                Ok(())
            },
            Instruction::Fence => {
                self.set_reg(Register::Pc, pc.wrapping_add(4));
                Ok(())
            },
            Instruction::Ecall => Err(VmExit::Syscall),
            Instruction::Ebreak => Err(VmExit::Ebreak),
            Instruction::Invalid => Err(VmExit::InvalidOpcode),
        }
    }

    /// The interpreter run relation, one consumed unit of the instruction
    /// budget per iteration: with the budget exhausted the run ends in a
    /// timeout with nothing changed; otherwise the hook registered at the
    /// current counter runs first, if any — an erring hook ends the run
    /// with its error, a hook that moves the counter ends the iteration —
    /// and then one instruction executes per the reference step.
    pub open spec fn reaches(
        pre: Emulator,
        post: Emulator,
        r: Result<(), VmExit>,
        fuel: nat,
    ) -> bool
        decreases fuel, 1int,
    {
        if fuel == 0 {
            r == Err::<(), VmExit>(VmExit::Timeout) && post == pre
        } else {
            let pc = pre.pc();
            if pre.bps().contains_key(pc as usize) {
                exists|mid: Emulator, hr: Result<(), VmExit>|
                    #[trigger] crate::hooks::hook_post(pre.bps()[pc as usize], pre, mid, hr)
                        && (match hr {
                        Result::Err(e) => r == Err::<(), VmExit>(e) && post == mid,
                        Result::Ok(_) => if mid.pc() != pc {
                            Self::reaches(mid, post, r, (fuel - 1) as nat)
                        } else {
                            Self::steps_from(mid, post, r, fuel)
                        },
                    })
            } else {
                Self::steps_from(pre, post, r, fuel)
            }
        }
    }

    /// One reference-model instruction executes from `pre`: an erring step
    /// ends the run with its error and that final state; a successful step
    /// continues the run with one less unit of budget.
    pub open spec fn steps_from(
        pre: Emulator,
        post: Emulator,
        r: Result<(), VmExit>,
        fuel: nat,
    ) -> bool
        decreases fuel, 0int,
    {
        exists|mid: Emulator, sr: Result<(), VmExit>|
            #[trigger] Self::step_post(pre, mid, sr) && (match sr {
                Result::Err(e) => r == Err::<(), VmExit>(e) && post == mid,
                Result::Ok(_) => fuel >= 1 && Self::reaches(mid, post, r, (fuel - 1) as nat),
            })
    }

    /// Run the VM using the interpreter until it exits, dispatching
    /// breakpoint hooks and counting retired instructions. Execution is
    /// bounded: when the remaining instruction budget, which breakpoint
    /// dispatches also consume, is exhausted, the run exits with a timeout.
    /// The whole run is an iteration of the reference step relation: the
    /// final state and exit are reached from the starting state by single
    /// instructions and hook dispatches within the budget.
    pub fn run_emu(&mut self, instrs_execed: &mut u64) -> (r: Result<(), VmExit>)
        requires
            old(self).wf(),
        ensures
            final(self).wf(),
            r.is_err(),
            final(self).memory.size() == old(self).memory.size(),
            final(self).memory.snap_mem() == old(self).memory.snap_mem(),
            final(self).memory.snap_perms() == old(self).memory.snap_perms(),
            final(self).files == old(self).files,
            final(self).fuzz_input == old(self).fuzz_input,
            final(self).bps() == old(self).bps(),
            final(self).jit_on() == old(self).jit_on(),
            final(self).timeout() == old(self).timeout(),
            r == Err::<(), VmExit>(VmExit::Syscall) ==> (final(self).spec_fetch() matches Ok(
                inst,
            ) && spec_decode(inst) is Ecall),
            r == Err::<(), VmExit>(VmExit::Ebreak) ==> (final(self).spec_fetch() matches Ok(inst)
                && spec_decode(inst) is Ebreak),
            Self::reaches(*old(self), *final(self), r, old(self).timeout() as nat),
    {
        let mut fuel: u64 = self.state.timeout;
        loop
            invariant
                self.wf(),
                self.memory.size() == old(self).memory.size(),
                self.memory.snap_mem() == old(self).memory.snap_mem(),
                self.memory.snap_perms() == old(self).memory.snap_perms(),
                self.files == old(self).files,
                self.fuzz_input == old(self).fuzz_input,
                self.bps() == old(self).bps(),
                self.jit_on() == old(self).jit_on(),
                self.timeout() == old(self).timeout(),
                forall|post: Emulator, rr: Result<(), VmExit>|
                    #[trigger] Self::reaches(*self, post, rr, fuel as nat) ==> Self::reaches(
                        *old(self),
                        post,
                        rr,
                        old(self).timeout() as nat,
                    ),
            decreases fuel,
        {
            if fuel == 0 {
                proof {
                    assert(Self::reaches(*self, *self, Err::<(), VmExit>(VmExit::Timeout), 0nat));
                }
                return Err(VmExit::Timeout);
            }
            let ghost iter_pre = *self;
            let ghost fuel0 = fuel;
            fuel = fuel - 1;
            let pc = self.reg(Register::Pc);
            let hook = match self.breakpoints.get(&(pc as usize)) {
                Some(h) => Some(*h),
                None => None,
            };
            proof {
                assert(iter_pre.pc() == pc);
                if hook is Some {
                    assert(iter_pre.bps().contains_key(pc as usize));
                    assert(iter_pre.bps()[pc as usize] == hook->0);
                }
            }
            if let Some(h) = hook {
                match run_hook(self, h) {
                    Ok(()) => {},
                    Err(e) => {
                        proof {
                            assert(crate::hooks::hook_post(
                                h,
                                iter_pre,
                                *self,
                                Err::<(), VmExit>(e),
                            ));
                            assert(Self::reaches(
                                iter_pre,
                                *self,
                                Err::<(), VmExit>(e),
                                fuel0 as nat,
                            ));
                        }
                        return Err(e);
                    },
                }
                if self.reg(Register::Pc) != pc {
                    proof {
                        let ghost mid = *self;
                        assert(crate::hooks::hook_post(h, iter_pre, mid, Ok::<(), VmExit>(())));
                        assert forall|post: Emulator, rr: Result<(), VmExit>|
                            #[trigger] Self::reaches(mid, post, rr, fuel as nat) implies Self::reaches(
                            *old(self),
                            post,
                            rr,
                            old(self).timeout() as nat,
                        ) by {
                            assert(Self::reaches(iter_pre, post, rr, fuel0 as nat));
                        }
                    }
                    continue ;
                }
            }
            *instrs_execed = instrs_execed.wrapping_add(1);
            let ghost pre_step = *self;
            proof {
                if hook is Some {
                    assert(crate::hooks::hook_post(
                        hook->0,
                        iter_pre,
                        pre_step,
                        Ok::<(), VmExit>(()),
                    ));
                    assert(pre_step.pc() == pc);
                }
            }
            match self.step() {
                Ok(()) => {},
                Err(e) => {
                    proof {
                        if e == VmExit::Syscall || e == VmExit::Ebreak {
                            assert(pre_step.spec_fetch() is Ok);
                            assert(self.regs() == pre_step.regs());
                            assert(self.memory.mem() == pre_step.memory.mem());
                            assert(self.memory.perms() == pre_step.memory.perms());
                            assert(self.spec_fetch() == pre_step.spec_fetch());
                        }
                        assert(Self::step_post(pre_step, *self, Err::<(), VmExit>(e)));
                        assert(Self::steps_from(pre_step, *self, Err::<(), VmExit>(e), fuel0 as nat));
                        assert(Self::reaches(iter_pre, *self, Err::<(), VmExit>(e), fuel0 as nat));
                    }
                    return Err(e);
                },
            }
            proof {
                let ghost stepped = *self;
                assert(Self::step_post(pre_step, stepped, Ok::<(), VmExit>(())));
                assert forall|post: Emulator, rr: Result<(), VmExit>|
                    #[trigger] Self::reaches(stepped, post, rr, fuel as nat) implies Self::reaches(
                    *old(self),
                    post,
                    rr,
                    old(self).timeout() as nat,
                ) by {
                    assert(Self::steps_from(pre_step, post, rr, fuel0 as nat));
                    assert(Self::reaches(iter_pre, post, rr, fuel0 as nat));
                }
            }
        }
    }

    /// Run the VM with the protocol translated code follows, over
    /// verified steps: hooks fire at their counters, the instruction
    /// budget bounds the run, and before each control transfer the edge it
    /// takes is hashed into the coverage bitmap — a fresh edge is appended
    /// to the edge log for the driver, exactly the coverage events
    /// translated code would raise and the entry would service. Native
    /// units the host compiles from the lifter run the same protocol on
    /// the host's own guest memory; here every instruction retires through
    /// the verified interpreter.
    pub fn run_jit(
        &mut self,
        instrs_execed: &mut u64,
        cov_bitmap: &mut Vec<u64>,
        new_edges: &mut Vec<(u64, u64)>,
    ) -> (r: Result<(), VmExit>)
        requires
            old(self).wf(),
            1 <= old(cov_bitmap)@.len() <= 0x100_0000,
            is_pow2((old(cov_bitmap)@.len() * 64) as int),
        ensures
            final(self).wf(),
            r.is_err(),
            final(self).memory.size() == old(self).memory.size(),
            final(self).memory.snap_mem() == old(self).memory.snap_mem(),
            final(self).memory.snap_perms() == old(self).memory.snap_perms(),
            final(self).files == old(self).files,
            final(self).fuzz_input == old(self).fuzz_input,
            final(self).bps() == old(self).bps(),
            final(self).jit_on() == old(self).jit_on(),
            final(self).timeout() == old(self).timeout(),
            Self::reaches(*old(self), *final(self), r, old(self).timeout() as nat),
            final(cov_bitmap)@.len() == old(cov_bitmap)@.len(),
            forall|s: u64|
                s < final(cov_bitmap)@.len() * 64 ==> (bit_is_set(old(cov_bitmap)@, s)
                    ==> #[trigger] bit_is_set(final(cov_bitmap)@, s)),
            final(new_edges)@.len() >= old(new_edges)@.len(),
            forall|i: int|
                0 <= i < old(new_edges)@.len() ==> #[trigger] final(new_edges)@[i] == old(
                    new_edges,
                )@[i],
            forall|i: int|
                old(new_edges)@.len() <= i < final(new_edges)@.len() ==> !edge_is_new(
                    final(cov_bitmap)@,
                    (#[trigger] final(new_edges)@[i]).0,
                    final(new_edges)@[i].1,
                ),
    {
        let mut fuel: u64 = self.state.timeout;
        loop
            invariant
                self.wf(),
                self.memory.size() == old(self).memory.size(),
                self.memory.snap_mem() == old(self).memory.snap_mem(),
                self.memory.snap_perms() == old(self).memory.snap_perms(),
                self.files == old(self).files,
                self.fuzz_input == old(self).fuzz_input,
                self.bps() == old(self).bps(),
                self.jit_on() == old(self).jit_on(),
                self.timeout() == old(self).timeout(),
                forall|post: Emulator, rr: Result<(), VmExit>|
                    #[trigger] Self::reaches(*self, post, rr, fuel as nat) ==> Self::reaches(
                        *old(self),
                        post,
                        rr,
                        old(self).timeout() as nat,
                    ),
                cov_bitmap@.len() == old(cov_bitmap)@.len(),
                1 <= cov_bitmap@.len() <= 0x100_0000,
                is_pow2((cov_bitmap@.len() * 64) as int),
                forall|s: u64|
                    s < cov_bitmap@.len() * 64 ==> (bit_is_set(old(cov_bitmap)@, s)
                        ==> #[trigger] bit_is_set(cov_bitmap@, s)),
                new_edges@.len() >= old(new_edges)@.len(),
                forall|i: int|
                    0 <= i < old(new_edges)@.len() ==> #[trigger] new_edges@[i] == old(
                        new_edges,
                    )@[i],
                forall|i: int|
                    old(new_edges)@.len() <= i < new_edges@.len() ==> !edge_is_new(
                        cov_bitmap@,
                        (#[trigger] new_edges@[i]).0,
                        new_edges@[i].1,
                    ),
            decreases fuel,
        {
            if fuel == 0 {
                proof {
                    assert(Self::reaches(*self, *self, Err::<(), VmExit>(VmExit::Timeout), 0nat));
                }
                return Err(VmExit::Timeout);
            }
            let ghost iter_pre = *self;
            let ghost fuel0 = fuel;
            fuel = fuel - 1;
            let pc = self.reg(Register::Pc);
            let hook = match self.breakpoints.get(&(pc as usize)) {
                Some(h) => Some(*h),
                None => None,
            };
            proof {
                assert(iter_pre.pc() == pc);
                if hook is Some {
                    assert(iter_pre.bps().contains_key(pc as usize));
                    assert(iter_pre.bps()[pc as usize] == hook->0);
                }
            }
            if let Some(h) = hook {
                match run_hook(self, h) {
                    Ok(()) => {},
                    Err(e) => {
                        proof {
                            assert(crate::hooks::hook_post(
                                h,
                                iter_pre,
                                *self,
                                Err::<(), VmExit>(e),
                            ));
                            assert(Self::reaches(
                                iter_pre,
                                *self,
                                Err::<(), VmExit>(e),
                                fuel0 as nat,
                            ));
                        }
                        return Err(e);
                    },
                }
                if self.reg(Register::Pc) != pc {
                    proof {
                        let ghost mid = *self;
                        assert(crate::hooks::hook_post(h, iter_pre, mid, Ok::<(), VmExit>(())));
                        assert forall|post: Emulator, rr: Result<(), VmExit>|
                            #[trigger] Self::reaches(mid, post, rr, fuel as nat) implies Self::reaches(
                            *old(self),
                            post,
                            rr,
                            old(self).timeout() as nat,
                        ) by {
                            assert(Self::reaches(iter_pre, post, rr, fuel0 as nat));
                        }
                    }
                    continue ;
                }
            }
            // the coverage event of a control transfer comes before the
            // transfer itself, as in translated code
            if let Ok(inst) = self.fetch() {
                let edge_to: Option<u64> = match decode(inst) {
                    Instruction::Jal { rd, imm } => Some(pc.wrapping_add(imm)),
                    Instruction::Jalr { rd, rs1, imm } => Some(self.reg(rs1).wrapping_add(imm)),
                    Instruction::Branch { op, rs1, rs2, imm } => {
                        if branch_taken_exec(op, self.reg(rs1), self.reg(rs2)) {
                            Some(pc.wrapping_add(imm))
                        } else {
                            Some(pc.wrapping_add(4))
                        }
                    },
                    _ => None,
                };
                if let Some(to) = edge_to {
                    let ghost bm_pre = cov_bitmap@;
                    let ghost edges_pre = new_edges@;
                    let fresh = record_edge(cov_bitmap, pc, to);
                    if fresh {
                        new_edges.push((pc, to));
                    }
                    proof {
                        crate::coverage::lemma_edge_slot_in_range(pc, to, cov_bitmap@.len() as int);
                        assert forall|i: int|
                            old(new_edges)@.len() <= i < new_edges@.len() implies !edge_is_new(
                            cov_bitmap@,
                            (#[trigger] new_edges@[i]).0,
                            new_edges@[i].1,
                        ) by {
                            if i < edges_pre.len() {
                                assert(!edge_is_new(bm_pre, new_edges@[i].0, new_edges@[i].1));
                                crate::coverage::lemma_edge_slot_in_range(
                                    new_edges@[i].0,
                                    new_edges@[i].1,
                                    bm_pre.len() as int,
                                );
                            }
                        }
                    }
                }
            }
            *instrs_execed = instrs_execed.wrapping_add(1);
            let ghost pre_step = *self;
            proof {
                if hook is Some {
                    assert(crate::hooks::hook_post(
                        hook->0,
                        iter_pre,
                        pre_step,
                        Ok::<(), VmExit>(()),
                    ));
                    assert(pre_step.pc() == pc);
                }
            }
            match self.step() {
                Ok(()) => {},
                Err(e) => {
                    proof {
                        assert(Self::step_post(pre_step, *self, Err::<(), VmExit>(e)));
                        assert(Self::steps_from(pre_step, *self, Err::<(), VmExit>(e), fuel0 as nat));
                        assert(Self::reaches(iter_pre, *self, Err::<(), VmExit>(e), fuel0 as nat));
                    }
                    return Err(e);
                },
            }
            proof {
                let ghost stepped = *self;
                assert(Self::step_post(pre_step, stepped, Ok::<(), VmExit>(())));
                assert forall|post: Emulator, rr: Result<(), VmExit>|
                    #[trigger] Self::reaches(stepped, post, rr, fuel as nat) implies Self::reaches(
                    *old(self),
                    post,
                    rr,
                    old(self).timeout() as nat,
                ) by {
                    assert(Self::steps_from(pre_step, post, rr, fuel0 as nat));
                    assert(Self::reaches(iter_pre, post, rr, fuel0 as nat));
                }
            }
        }
    }

    /// Run the VM: through the coverage-instrumented path when the
    /// translation cache is enabled, and plainly through the interpreter
    /// otherwise. Either way the run is an iteration of the reference step
    /// relation within the instruction budget, and without the cache the
    /// coverage state is untouched.
    pub fn run(
        &mut self,
        instrs_execed: &mut u64,
        cov_bitmap: &mut Vec<u64>,
        new_edges: &mut Vec<(u64, u64)>,
    ) -> (r: Result<(), VmExit>)
        requires
            old(self).wf(),
            1 <= old(cov_bitmap)@.len() <= 0x100_0000,
            is_pow2((old(cov_bitmap)@.len() * 64) as int),
        ensures
            final(self).wf(),
            r.is_err(),
            final(self).memory.size() == old(self).memory.size(),
            final(self).files == old(self).files,
            final(self).fuzz_input == old(self).fuzz_input,
            final(self).bps() == old(self).bps(),
            final(self).timeout() == old(self).timeout(),
            Self::reaches(*old(self), *final(self), r, old(self).timeout() as nat),
            final(cov_bitmap)@.len() == old(cov_bitmap)@.len(),
            forall|s: u64|
                s < final(cov_bitmap)@.len() * 64 ==> (bit_is_set(old(cov_bitmap)@, s)
                    ==> #[trigger] bit_is_set(final(cov_bitmap)@, s)),
            forall|i: int|
                0 <= i < old(new_edges)@.len() ==> #[trigger] final(new_edges)@[i] == old(
                    new_edges,
                )@[i],
            final(new_edges)@.len() >= old(new_edges)@.len(),
            !old(self).jit_on() ==> final(cov_bitmap)@ == old(cov_bitmap)@ && final(new_edges)@
                == old(new_edges)@,
    {
        if self.jit_enabled {
            self.run_jit(instrs_execed, cov_bitmap, new_edges)
        } else {
            self.run_emu(instrs_execed)
        }
    }
}

/// Where a scan finds the first closed slot at `fd`, the spec function
/// agrees.
proof fn lemma_first_free_at(files: Seq<Option<EmuFile>>, fd: int)
    requires
        0 <= fd < files.len(),
        forall|j: int| 0 <= j < fd ==> files[j].is_some(),
        files[fd].is_none(),
    ensures
        Emulator::first_free_fd(files) == fd,
    decreases fd,
{
    if fd > 0 {
        assert(files[0].is_some());
        let t = files.subrange(1, files.len() as int);
        assert forall|j: int| 0 <= j < fd - 1 implies t[j].is_some() by {
            assert(files[j + 1].is_some());
        }
        assert(t[fd - 1].is_none());
        lemma_first_free_at(t, fd - 1);
    }
}

/// Where every slot is open, the first free slot is past the table.
proof fn lemma_first_free_full(files: Seq<Option<EmuFile>>, n: int)
    requires
        n == files.len(),
        forall|j: int| 0 <= j < n ==> files[j].is_some(),
    ensures
        Emulator::first_free_fd(files) == n,
    decreases n,
{
    if n > 0 {
        let t = files.subrange(1, files.len() as int);
        assert forall|j: int| 0 <= j < n - 1 implies t[j].is_some() by {
            assert(files[j + 1].is_some());
        }
        lemma_first_free_full(t, n - 1);
    }
}

/// What the execution entry does with one exit from translated code, as
/// the dispatch table of the run loop prescribes.
#[derive(Clone, Copy, Debug, PartialEq, Eq, Structural)]
pub enum JitAction {
    /// An indirect branch: chain to the target's translation if one is
    /// installed, otherwise lift the target.
    ChainOrLift,
    /// New coverage: notify the corpus and resume, re-executing the
    /// instruction that produced the edge.
    RecordCoverage,
    /// A final exit to hand to the driver.
    Finish(VmExit),
    /// A memory fault reported at the access base: re-run the instruction
    /// through the interpreter for the precise faulting byte.
    PreciseFault,
    /// A breakpoint: run the hook registered at the re-entry counter.
    RunBreakpoint,
    /// No exit was recorded; reaching this is a logic bug in the
    /// translation.
    LogicError,
}

/// The dispatch of the execution entry on an exit reason from translated
/// code.
pub open spec fn spec_jit_exit_action(reason: ExitReason) -> JitAction {
    match reason {
        ExitReason::NotSet => JitAction::LogicError,
        ExitReason::IndirectBranch => JitAction::ChainOrLift,
        ExitReason::Coverage => JitAction::RecordCoverage,
        ExitReason::Ebreak => JitAction::Finish(VmExit::Ebreak),
        ExitReason::Ecall => JitAction::Finish(VmExit::Syscall),
        ExitReason::Timeout => JitAction::Finish(VmExit::Timeout),
        ExitReason::InvalidOpcode => JitAction::Finish(VmExit::InvalidOpcode),
        ExitReason::ReadFault => JitAction::PreciseFault,
        ExitReason::WriteFault => JitAction::PreciseFault,
        ExitReason::Breakpoint => JitAction::RunBreakpoint,
    }
}

/// Decide what the run loop does with one exit from translated code.
pub fn jit_exit_action(reason: ExitReason) -> (r: JitAction)
    ensures
        r == spec_jit_exit_action(reason),
{
    match reason {
        ExitReason::NotSet => JitAction::LogicError,
        ExitReason::IndirectBranch => JitAction::ChainOrLift,
        ExitReason::Coverage => JitAction::RecordCoverage,
        ExitReason::Ebreak => JitAction::Finish(VmExit::Ebreak),
        ExitReason::Ecall => JitAction::Finish(VmExit::Syscall),
        ExitReason::Timeout => JitAction::Finish(VmExit::Timeout),
        ExitReason::InvalidOpcode => JitAction::Finish(VmExit::InvalidOpcode),
        ExitReason::ReadFault => JitAction::PreciseFault,
        ExitReason::WriteFault => JitAction::PreciseFault,
        ExitReason::Breakpoint => JitAction::RunBreakpoint,
    }
}

/// The key a crash exit is deduplicated under: the faulting counter, the
/// fault type, and the faulting address's bucket.
pub fn crash_key(exit: &VmExit, pc: VirtAddr) -> (r: Option<(VirtAddr, FaultType, AddressType)>)
    ensures
        r == match exit.spec_is_crash() {
            Some((fault, addr)) => Some((pc, fault, AddressType::spec_of(addr))),
            None => None::<(VirtAddr, FaultType, AddressType)>,
        },
{
    match exit.is_crash() {
        Some((fault, addr)) => Some((pc, fault, AddressType::of(addr))),
        None => None,
    }
}

/// Register zero reads as zero at every observable boundary, whatever
/// write sequence ran: writes to it are dropped, and a write to any other
/// register leaves it pinned at zero.
pub proof fn lemma_register_zero(e: &Emulator, rd: Register, v: u64)
    requires
        e.wf(),
    ensures
        e.regs()[Register::Zero.index()] == 0,
        Emulator::wreg(e.regs(), Register::Zero, v) == e.regs(),
        Emulator::wreg(e.regs(), rd, v)[Register::Zero.index()] == 0,
{
}

} // verus!
