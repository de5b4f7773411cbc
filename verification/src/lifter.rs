//! The translation lifter: from a guest entry point, discover the
//! connected region of guest code a translation unit covers, decoding each
//! instruction and noting registered breakpoints. The host renders the
//! lifted region into native code; direct branches stay inside the region,
//! while calls and indirect branches leave it. The renderer must emit each
//! control-flow instruction's coverage event before any of its side
//! effects, because a coverage exit re-executes the instruction.

use vstd::prelude::*;
use std::collections::VecDeque;
use crate::emulator::{Emulator, VmExit};
use crate::decode::{Instruction, Register, spec_decode, decode};
use crate::mmu::{VirtAddr, Perm, PERM_EXEC, word_of};

verus! {

/// One guest instruction of a lifted translation unit.
#[derive(Clone, Copy, Debug)]
pub struct LiftedInst {
    /// The guest program counter this instruction sits at.
    pub pc: u64,
    /// Whether a breakpoint hook is registered here; translated code must
    /// exit with a breakpoint before executing the instruction.
    pub breakpoint: bool,
    /// The decoded instruction.
    pub instr: Instruction,
}

/// The counters a lifted instruction can fall through or branch to inside
/// its translation unit: an unconditional jump goes to its target (a call
/// leaves the unit), a conditional branch to its target or past itself,
/// an indirect jump leaves the unit, and everything else falls through
/// (after a trap exit the unit still lays out the following instruction).
pub open spec fn static_succs(i: Instruction, pc: u64) -> Seq<u64> {
    match i {
        Instruction::Jal { rd, imm } => if rd.index() == 0 {
            seq![pc.wrapping_add(imm)]
        } else {
            Seq::empty()
        },
        Instruction::Jalr { .. } => Seq::empty(),
        Instruction::Branch { op, rs1, rs2, imm } => seq![
            pc.wrapping_add(imm),
            pc.wrapping_add(4),
        ],
        _ => seq![pc.wrapping_add(4)],
    }
}

/// A lifted instruction is truthful for the emulator it was lifted from:
/// its counter is aligned and executable, it decodes the guest bytes at
/// that counter to a valid instruction, and it notes exactly whether a
/// breakpoint is registered there.
pub open spec fn lifted_ok(emu: &Emulator, b: LiftedInst) -> bool {
    &&& b.pc & 3 == 0
    &&& b.pc as int + 4 <= emu.memory.size()
    &&& (b.pc as usize) as u64 == b.pc
    &&& emu.memory.range_has(b.pc as int, 4, PERM_EXEC)
    &&& b.instr == spec_decode(
        word_of(emu.memory.mem().subrange(b.pc as int, b.pc as int + 4)) as u32,
    )
    &&& !(b.instr is Invalid)
    &&& b.breakpoint == emu.bps().contains_key(b.pc as usize)
}

/// A region is closed when every in-unit successor of each of its
/// instructions is itself in the unit.
pub open spec fn region_closed(emu: &Emulator, blocks: Seq<LiftedInst>) -> bool {
    forall|i: int, k: int|
        0 <= i < blocks.len() && 0 <= k < static_succs(blocks[i].instr, blocks[i].pc).len()
            ==> exists|j: int|
            0 <= j < blocks.len() && blocks[j].pc == #[trigger] static_succs(
                blocks[i].instr,
                blocks[i].pc,
            )[k]
}

/// How many entries of a sequence of flags are set.
pub open spec fn count_trues(s: Seq<bool>) -> int
    decreases s.len(),
{
    if s.len() == 0 {
        0
    } else {
        (if s[0] {
            1int
        } else {
            0int
        }) + count_trues(s.subrange(1, s.len() as int))
    }
}

/// No more flags are set than there are flags.
proof fn lemma_count_trues_bound(s: Seq<bool>)
    ensures
        0 <= count_trues(s) <= s.len(),
    decreases s.len(),
{
    if s.len() > 0 {
        lemma_count_trues_bound(s.subrange(1, s.len() as int));
    }
}

/// Setting a clear flag raises the count by one.
proof fn lemma_count_trues_update(s: Seq<bool>, i: int)
    requires
        0 <= i < s.len(),
        !s[i],
    ensures
        count_trues(s.update(i, true)) == count_trues(s) + 1,
    decreases s.len(),
{
    let t = s.update(i, true);
    if i == 0 {
        assert(t.subrange(1, t.len() as int) =~= s.subrange(1, s.len() as int));
    } else {
        assert(t.subrange(1, t.len() as int) =~= s.subrange(1, s.len() as int).update(
            i - 1,
            true,
        ));
        lemma_count_trues_update(s.subrange(1, s.len() as int), i - 1);
    }
}

/// Lift the translation unit entered at `entry`: the connected region of
/// guest code reached from it through in-unit control flow. On success the
/// unit starts with the entry, every instruction in it is truthfully
/// decoded from executable guest memory, no counter appears twice, and the
/// unit is closed under in-unit successors. An unaligned or non-executable
/// counter in the region is an execution fault; an undecodable instruction
/// word is an invalid opcode.
pub fn lift_region(emu: &Emulator, entry: VirtAddr) -> (r: Result<Vec<LiftedInst>, VmExit>)
    requires
        emu.wf(),
    ensures
        match r {
            Ok(blocks) => {
                &&& blocks@.len() >= 1
                &&& blocks@[0].pc == entry.0 as u64
                &&& forall|i: int| 0 <= i < blocks@.len() ==> lifted_ok(emu, #[trigger] blocks@[i])
                &&& forall|i: int, j: int|
                    0 <= i < j < blocks@.len() ==> blocks@[i].pc != blocks@[j].pc
                &&& region_closed(emu, blocks@)
            },
            Err(e) => e matches VmExit::ExecFault(_) || e == VmExit::InvalidOpcode,
        },
{
    let memlen = emu.memory.len();
    let bm_len = memlen / 4 + 1;
    let mut visited: Vec<bool> = vec![false; bm_len];
    let mut remaining: usize = bm_len;
    let mut queue: VecDeque<u64> = VecDeque::new();
    let mut blocks: Vec<LiftedInst> = Vec::new();
    queue.push_back(entry.0 as u64);
    proof {
        lemma_count_trues_zero(visited@);
        assert(queue@ =~= seq![entry.0 as u64]);
    }
    loop
        invariant
            emu.wf(),
            visited@.len() == bm_len,
            bm_len == emu.memory.size() / 4 + 1,
            remaining == bm_len - count_trues(visited@),
            blocks@.len() == 0 ==> queue@ =~= seq![entry.0 as u64],
            blocks@.len() > 0 ==> blocks@[0].pc == entry.0 as u64,
            forall|i: int| 0 <= i < blocks@.len() ==> lifted_ok(emu, #[trigger] blocks@[i]),
            forall|i: int, j: int| 0 <= i < j < blocks@.len() ==> blocks@[i].pc != blocks@[j].pc,
            forall|idx: int|
                0 <= idx < visited@.len() ==> ((#[trigger] visited@[idx]) <==> exists|j: int|
                    0 <= j < blocks@.len() && blocks@[j].pc as int == 4 * idx),
            forall|i: int, k: int|
                0 <= i < blocks@.len() && 0 <= k < static_succs(
                    blocks@[i].instr,
                    blocks@[i].pc,
                ).len() ==> ((exists|j: int|
                    0 <= j < blocks@.len() && blocks@[j].pc == #[trigger] static_succs(
                        blocks@[i].instr,
                        blocks@[i].pc,
                    )[k]) || queue@.contains(
                    static_succs(blocks@[i].instr, blocks@[i].pc)[k],
                )),
        ensures
            queue@.len() == 0,
            blocks@.len() == 0 ==> queue@ =~= seq![entry.0 as u64],
            blocks@.len() > 0 ==> blocks@[0].pc == entry.0 as u64,
            forall|i: int| 0 <= i < blocks@.len() ==> lifted_ok(emu, #[trigger] blocks@[i]),
            forall|i: int, j: int| 0 <= i < j < blocks@.len() ==> blocks@[i].pc != blocks@[j].pc,
            forall|i: int, k: int|
                0 <= i < blocks@.len() && 0 <= k < static_succs(
                    blocks@[i].instr,
                    blocks@[i].pc,
                ).len() ==> ((exists|j: int|
                    0 <= j < blocks@.len() && blocks@[j].pc == #[trigger] static_succs(
                        blocks@[i].instr,
                        blocks@[i].pc,
                    )[k]) || queue@.contains(
                    static_succs(blocks@[i].instr, blocks@[i].pc)[k],
                )),
        decreases remaining, queue@.len(),
    {
        let ghost q_pre = queue@;
        let ghost blocks_pre = blocks@;
        let pc = match queue.pop_front() {
            Some(p) => p,
            None => {
                break ;
            },
        };
        proof {
            assert(queue@ =~= q_pre.subrange(1, q_pre.len() as int));
        }
        let u = pc as usize;
        let idx = u / 4;
        if pc & 3 == 0 && (u as u64) == pc && idx < visited.len() && visited[idx] {
            proof {
                lemma_low_bits_mod(pc);
                vstd::arithmetic::div_mod::lemma_fundamental_div_mod(u as int, 4);
                let jw = choose|j: int|
                    0 <= j < blocks@.len() && blocks@[j].pc as int == 4 * (idx as int);
                assert(blocks@[jw].pc == pc);
                assert forall|i: int, k: int|
                    0 <= i < blocks@.len() && 0 <= k < static_succs(
                        blocks@[i].instr,
                        blocks@[i].pc,
                    ).len() implies ((exists|j: int|
                    0 <= j < blocks@.len() && blocks@[j].pc == #[trigger] static_succs(
                        blocks@[i].instr,
                        blocks@[i].pc,
                    )[k]) || queue@.contains(
                    static_succs(blocks@[i].instr, blocks@[i].pc)[k],
                )) by {
                    let s = static_succs(blocks@[i].instr, blocks@[i].pc)[k];
                    if !(exists|j: int| 0 <= j < blocks@.len() && blocks@[j].pc == s) {
                        assert(q_pre.contains(s));
                        let qi = choose|qi: int| 0 <= qi < q_pre.len() && q_pre[qi] == s;
                        if qi == 0 {
                            assert(s == pc);
                            assert(blocks@[jw].pc == s);
                            assert(false);
                        } else {
                            assert(queue@[qi - 1] == s);
                            assert(queue@.contains(s));
                        }
                    }
                }
            }
            continue ;
        }
        if pc & 3 != 0 || (u as u64) != pc {
            return Err(VmExit::ExecFault(VirtAddr(u)));
        }
        let inst = match emu.memory.read_word_perms(VirtAddr(u), 4, Perm(PERM_EXEC)) {
            Ok(w) => {
                proof {
                    crate::mmu::lemma_word_of_bound(
                        emu.memory.mem().subrange(u as int, u as int + 4),
                    );
                    crate::mmu::lemma_pow256_values();
                }
                w as u32
            },
            Err(e) => {
                match e.is_crash() {
                    Some(crash) => {
                        return Err(VmExit::ExecFault(crash.1));
                    },
                    None => {
                        return Err(VmExit::ExecFault(VirtAddr(u)));
                    },
                }
            },
        };
        let instr = decode(inst);
        if let Instruction::Invalid = instr {
            return Err(VmExit::InvalidOpcode);
        }
        let ghost vis_pre = visited@;
        proof {
            lemma_low_bits_mod(pc);
            vstd::arithmetic::div_mod::lemma_fundamental_div_mod(u as int, 4);
            assert(idx < visited@.len()) by {
                vstd::arithmetic::div_mod::lemma_div_is_ordered(
                    u as int,
                    emu.memory.size() - 1,
                    4,
                );
                vstd::arithmetic::div_mod::lemma_div_is_ordered(
                    emu.memory.size() - 1,
                    emu.memory.size(),
                    4,
                );
            }
            assert(!visited@[idx as int]) by {
                if visited@[idx as int] {
                    let jw = choose|j: int|
                        0 <= j < blocks@.len() && blocks@[j].pc as int == 4 * (idx as int);
                    assert(blocks@[jw].pc == pc);
                }
            }
            lemma_count_trues_update(visited@, idx as int);
            lemma_count_trues_bound(visited@.update(idx as int, true));
        }
        visited[idx] = true;
        remaining = remaining - 1;
        let has_bp = emu.breakpoints.contains_key(&u);
        let lifted = LiftedInst { pc, breakpoint: has_bp, instr };
        blocks.push(lifted);
        let ghost q_mid = queue@;
        match instr {
            Instruction::Jal { rd, imm } => {
                let is_zero = match rd {
                    Register::Zero => true,
                    _ => false,
                };
                if is_zero {
                    queue.push_back(pc.wrapping_add(imm));
                    proof {
                        assert(queue@[queue@.len() - 1] == pc.wrapping_add(imm));
                        assert(queue@.contains(pc.wrapping_add(imm)));
                    }
                }
            },
            Instruction::Jalr { .. } => {},
            Instruction::Branch { op, rs1, rs2, imm } => {
                queue.push_back(pc.wrapping_add(imm));
                queue.push_back(pc.wrapping_add(4));
                proof {
                    assert(queue@[queue@.len() - 2] == pc.wrapping_add(imm));
                    assert(queue@[queue@.len() - 1] == pc.wrapping_add(4));
                    assert(queue@.contains(pc.wrapping_add(imm)));
                    assert(queue@.contains(pc.wrapping_add(4)));
                }
            },
            _ => {
                queue.push_back(pc.wrapping_add(4));
                proof {
                    assert(queue@[queue@.len() - 1] == pc.wrapping_add(4));
                    assert(queue@.contains(pc.wrapping_add(4)));
                }
            },
        }
        proof {
            let nb = blocks@.len() as int;
            assert(blocks@[nb - 1] == lifted);
            assert(lifted_ok(emu, lifted));
            // the new counter was unvisited, so it is fresh among the blocks
            assert forall|i: int, j: int|
                0 <= i < j < blocks@.len() implies blocks@[i].pc != blocks@[j].pc by {
                if j == nb - 1 && blocks@[i].pc == pc {
                    assert(blocks_pre[i].pc as int == 4 * (idx as int));
                    assert(vis_pre[idx as int]);
                }
            }
            // the visited flags still mirror the block set
            assert forall|idx2: int|
                0 <= idx2 < visited@.len() implies ((#[trigger] visited@[idx2]) <==> exists|j: int|
                0 <= j < blocks@.len() && blocks@[j].pc as int == 4 * idx2) by {
                if idx2 == idx as int {
                    assert(blocks@[nb - 1].pc as int == 4 * idx2);
                } else {
                    if vis_pre[idx2] {
                        let j = choose|j: int|
                            0 <= j < blocks_pre.len() && blocks_pre[j].pc as int == 4 * idx2;
                        assert(blocks@[j].pc as int == 4 * idx2);
                    }
                    if exists|j: int| 0 <= j < blocks@.len() && blocks@[j].pc as int == 4 * idx2 {
                        let j = choose|j: int|
                            0 <= j < blocks@.len() && blocks@[j].pc as int == 4 * idx2;
                        if j < nb - 1 {
                            assert(blocks_pre[j].pc as int == 4 * idx2);
                            assert(vis_pre[idx2]);
                        } else {
                            assert(blocks@[j].pc == pc);
                            assert(4 * idx2 == 4 * (idx as int));
                            assert(false);
                        }
                    }
                }
            }
            // every in-unit successor of every block is lifted or queued
            assert forall|i: int, k: int|
                0 <= i < blocks@.len() && 0 <= k < static_succs(
                    blocks@[i].instr,
                    blocks@[i].pc,
                ).len() implies ((exists|j: int|
                0 <= j < blocks@.len() && blocks@[j].pc == #[trigger] static_succs(
                    blocks@[i].instr,
                    blocks@[i].pc,
                )[k]) || queue@.contains(
                static_succs(blocks@[i].instr, blocks@[i].pc)[k],
            )) by {
                let s = static_succs(blocks@[i].instr, blocks@[i].pc)[k];
                if i < nb - 1 {
                    assert(blocks_pre[i] == blocks@[i]);
                    if !(exists|j: int| 0 <= j < blocks_pre.len() && blocks_pre[j].pc == s) {
                        assert(q_pre.contains(s));
                        let qi = choose|qi: int| 0 <= qi < q_pre.len() && q_pre[qi] == s;
                        if qi == 0 {
                            assert(s == pc);
                            assert(blocks@[nb - 1].pc == s);
                        } else {
                            assert(q_mid[qi - 1] == s);
                            assert(queue@.contains(s)) by {
                                lemma_extension_contains(q_mid, queue@, qi - 1);
                            }
                        }
                    } else {
                        let j = choose|j: int|
                            0 <= j < blocks_pre.len() && blocks_pre[j].pc == s;
                        assert(blocks@[j].pc == s);
                    }
                } else {
                    assert(blocks@[i] == lifted);
                    assert(queue@.contains(s));
                }
            }
        }
    }
    proof {
        assert(region_closed(emu, blocks@));
        assert(blocks@.len() >= 1) by {
            if blocks@.len() == 0 {
                assert(queue@ =~= seq![entry.0 as u64]);
                assert(queue@.len() == 1);
            }
        }
    }
    Ok(blocks)
}

/// An element of a prefix of a longer queue is in the longer queue.
proof fn lemma_extension_contains(pre: Seq<u64>, post: Seq<u64>, i: int)
    requires
        0 <= i < pre.len(),
        pre.len() <= post.len(),
        forall|x: int| 0 <= x < pre.len() ==> post[x] == pre[x],
    ensures
        post.contains(pre[i]),
{
    assert(post[i] == pre[i]);
}

/// An all-clear flag sequence has no flags set.
proof fn lemma_count_trues_zero(s: Seq<bool>)
    requires
        forall|i: int| 0 <= i < s.len() ==> !s[i],
    ensures
        count_trues(s) == 0,
    decreases s.len(),
{
    if s.len() > 0 {
        lemma_count_trues_zero(s.subrange(1, s.len() as int));
    }
}

/// An aligned counter has remainder zero by four.
proof fn lemma_low_bits_mod(pc: u64)
    by (bit_vector)
    ensures
        (pc & 3 == 0) <==> (pc % 4 == 0),
        pc & 3 == pc % 4,
{
}

/// The lifter and the interpreter agree on what a counter means: when the
/// guest stands at a lifted instruction's counter, the interpreter fetches
/// exactly the word the lifter decoded, and decodes it to the same
/// instruction.
pub proof fn lemma_lift_agrees_with_fetch(emu: &Emulator, b: LiftedInst)
    requires
        emu.wf(),
        lifted_ok(emu, b),
        emu.pc() == b.pc,
    ensures
        emu.spec_fetch() == Ok::<u32, VmExit>(
            word_of(emu.memory.mem().subrange(b.pc as int, b.pc as int + 4)) as u32,
        ),
        spec_decode(
            word_of(emu.memory.mem().subrange(b.pc as int, b.pc as int + 4)) as u32,
        ) == b.instr,
{
    let pc = b.pc;
    let a = VirtAddr(pc as usize);
    assert(pc & 3 == 0);
    assert(emu.memory.spec_peek(a, 4, PERM_EXEC) == Ok::<Seq<u8>, VmExit>(
        emu.memory.mem().subrange(pc as int, pc as int + 4),
    ));
}

/// Per-instruction agreement between the translation and the interpreter:
/// when the guest stands at a lifted instruction and the interpreter takes
/// one step, what it does is exactly the reference semantics of the
/// instruction the lifter recorded for that counter. Translated code that
/// renders each lifted instruction by those same semantics therefore
/// agrees with the interpreter on the registers and memory it leaves
/// behind, instruction by instruction.
pub proof fn lemma_unit_step_agreement(
    pre: &Emulator,
    post: &Emulator,
    b: LiftedInst,
    r: Result<(), VmExit>,
)
    requires
        pre.wf(),
        lifted_ok(pre, b),
        pre.pc() == b.pc,
        Emulator::step_post(*pre, *post, r),
    ensures
        Emulator::step_post_decoded(*pre, *post, r, b.pc, b.instr),
{
    lemma_lift_agrees_with_fetch(pre, b);
}

} // verus!
