//! A verified core for a snapshot-based RISC-V (RV64I) emulation library:
//! a guest memory unit with byte-granular permissions and dirty-block
//! snapshot reset, an RV64I interpreter, a translation lifter with its
//! cache bookkeeping, and the coverage-bitmap bridge.

pub mod coverage;
pub mod decode;
pub mod emulator;
pub mod hooks;
pub mod jitcache;
pub mod lifter;
pub mod mmu;
pub mod rng;
pub mod syscalls;
