//! The translation cache: a table from guest program counters to installed
//! native entry addresses, and a content-addressed record of translations
//! already claimed for compilation, so each unit is compiled once.

use vstd::prelude::*;
use std::collections::BTreeSet;
use crate::mmu::VirtAddr;

verus! {

broadcast use vstd::laws_cmp::group_laws_cmp;

/// The translation cache. An entry address of zero means no translation is
/// installed for that counter. The backing storage for native code lives
/// with the host; the cache only keeps the mapping and the dedup record.
pub struct JitCache {
    /// Native entry address per guest program counter, indexed by `pc / 4`.
    blocks: Vec<usize>,
    /// Content hashes of translation units already claimed by a compiler.
    claimed: BTreeSet<u128>,
}

impl JitCache {
    /// The native entry table, indexed by `pc / 4`.
    pub closed spec fn entries(&self) -> Seq<usize> {
        self.blocks@
    }

    /// The content hashes already claimed for compilation.
    pub closed spec fn claimed_hashes(&self) -> Set<u128> {
        self.claimed@
    }

    /// The installed entry for `pc`, if any.
    pub open spec fn spec_lookup(&self, pc: VirtAddr) -> Option<usize> {
        if pc.0 % 4 == 0 && pc.0 / 4 < self.entries().len() && self.entries()[pc.0 as int / 4]
            != 0 {
            Some(self.entries()[pc.0 as int / 4])
        } else {
            None
        }
    }

    /// A cache able to hold translations for guest counters up to
    /// `max_virtual_addr`, with nothing installed.
    pub fn new(max_virtual_addr: VirtAddr) -> (r: JitCache)
        requires
            max_virtual_addr.0 <= 0x1000_0000_0000,
        ensures
            r.entries() == Seq::new((max_virtual_addr.0 / 4) as nat, |i: int| 0usize),
            r.claimed_hashes() == Set::<u128>::empty(),
            forall|pc: VirtAddr| r.spec_lookup(pc) is None,
    {
        let r = JitCache { blocks: vec![0usize; max_virtual_addr.0 / 4], claimed: BTreeSet::new() };
        r
    }

    /// Look up the native entry installed for `pc`, without locking.
    pub fn lookup(&self, pc: VirtAddr) -> (r: Option<usize>)
        ensures
            r == self.spec_lookup(pc),
    {
        if pc.0 % 4 == 0 && pc.0 / 4 < self.blocks.len() {
            let e = self.blocks[pc.0 / 4];
            if e != 0 {
                Some(e)
            } else {
                None
            }
        } else {
            None
        }
    }

    /// Install a native entry for `pc`, unless one is already installed:
    /// the first installation wins and every later one returns it, so a
    /// reader never sees an entry change.
    pub fn add_mapping(&mut self, pc: VirtAddr, entry: usize) -> (r: usize)
        requires
            entry != 0,
            pc.0 % 4 == 0,
            pc.0 / 4 < old(self).entries().len(),
        ensures
            final(self).claimed_hashes() == old(self).claimed_hashes(),
            match old(self).spec_lookup(pc) {
                Some(e) => r == e && final(self).entries() == old(self).entries(),
                None => r == entry && final(self).entries() == old(self).entries().update(
                    pc.0 as int / 4,
                    entry,
                ),
            },
            final(self).spec_lookup(pc) == Some(r),
    {
        let idx = pc.0 / 4;
        let cur = self.blocks[idx];
        if cur != 0 {
            cur
        } else {
            self.blocks[idx] = entry;
            entry
        }
    }

    /// Claim the translation unit with content hash `hash` for
    /// compilation; true exactly when this is the first claim, so a unit
    /// is compiled by a single producer.
    pub fn claim_compile(&mut self, hash: u128) -> (first: bool)
        ensures
            first == !old(self).claimed_hashes().contains(hash),
            final(self).claimed_hashes() == old(self).claimed_hashes().insert(hash),
            final(self).entries() == old(self).entries(),
    {
        self.claimed.insert(hash)
    }
}

} // verus!
