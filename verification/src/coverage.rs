//! The coverage bridge: edges of guest control flow are hashed into a
//! fixed bitmap with set-once semantics, so each edge is reported at most
//! once for a given bitmap.

use vstd::prelude::*;

verus! {

/// The splittable integer mixer applied to an edge: both ends are salted,
/// combined, and diffused by a xorshift round.
pub open spec fn edge_hash(from: u64, to: u64) -> u64 {
    let h0 = (from ^ 0xe66dd519dba260bb) ^ (to ^ 0xa50ec1c4a4065d15);
    let h1 = h0 ^ (h0 << 13);
    let h2 = h1 ^ (h1 >> 17);
    h2 ^ (h2 << 43)
}

/// Whether `n` is a power of two.
pub open spec fn is_pow2(n: int) -> bool
    decreases n,
{
    if n <= 0 {
        false
    } else if n == 1 {
        true
    } else {
        n % 2 == 0 && is_pow2(n / 2)
    }
}

/// The bitmap slot an edge falls in: its hash, masked to the bitmap size.
/// The bitmap holds `words * 64` bits; the mask keeps the low bits.
pub open spec fn edge_slot(from: u64, to: u64, words: int) -> u64 {
    edge_hash(from, to) & ((words * 64 - 1) as u64)
}

/// Whether bit `slot` of the bitmap is set.
pub open spec fn bit_is_set(bm: Seq<u64>, slot: u64) -> bool {
    (bm[slot as int / 64] >> (slot % 64)) & 1u64 == 1u64
}

/// Whether recording the edge `(from, to)` on this bitmap reports it as
/// new: exactly when its bit is still clear.
pub open spec fn edge_is_new(bm: Seq<u64>, from: u64, to: u64) -> bool {
    !bit_is_set(bm, edge_slot(from, to, bm.len() as int))
}

/// A value masked by `m` is at most `m`.
proof fn lemma_mask_le(h: u64, m: u64)
    by (bit_vector)
    ensures
        h & m <= m,
{
}

/// Record the control-flow edge `(from, to)` in the coverage bitmap: its
/// bit is set, and the edge is reported as new exactly when the bit was
/// still clear. Recording never clears a bit, so an edge is reported at
/// most once per bitmap.
pub fn record_edge(bitmap: &mut Vec<u64>, from: u64, to: u64) -> (new: bool)
    requires
        1 <= old(bitmap)@.len() <= 0x100_0000,
        is_pow2((old(bitmap)@.len() * 64) as int),
    ensures
        final(bitmap)@.len() == old(bitmap)@.len(),
        new == edge_is_new(old(bitmap)@, from, to),
        !edge_is_new(final(bitmap)@, from, to),
        !new ==> final(bitmap)@ == old(bitmap)@,
        forall|s: u64|
            s < final(bitmap)@.len() * 64 ==> (bit_is_set(old(bitmap)@, s) ==> #[trigger]
            bit_is_set(final(bitmap)@, s)),
        forall|s: u64|
            s < final(bitmap)@.len() * 64 && s != edge_slot(
                from,
                to,
                old(bitmap)@.len() as int,
            ) ==> (#[trigger] bit_is_set(final(bitmap)@, s) == bit_is_set(old(bitmap)@, s)),
    {
    let words = bitmap.len();
    let mask = (words as u64) * 64 - 1;
    let h0 = (from ^ 0xe66dd519dba260bb) ^ (to ^ 0xa50ec1c4a4065d15);
    let h1 = h0 ^ (h0 << 13);
    let h2 = h1 ^ (h1 >> 17);
    let h3 = h2 ^ (h2 << 43);
    let slot = h3 & mask;
    proof {
        assert(h0 == (from ^ 0xe66dd519dba260bb) ^ (to ^ 0xa50ec1c4a4065d15));
        assert(h3 == edge_hash(from, to));
        assert(mask == (words as int * 64 - 1) as u64);
        assert(slot == edge_slot(from, to, words as int));
        lemma_mask_le(h3, mask);
        vstd::arithmetic::div_mod::lemma_div_is_ordered(
            slot as int,
            mask as int,
            64,
        );
        assert(mask as int / 64 < words as int) by {
            assert((words * 64 - 1) as int / 64 == words - 1) by {
                vstd::arithmetic::div_mod::lemma_fundamental_div_mod_converse_div(
                    words * 64 - 1,
                    64,
                    words as int - 1,
                    63,
                );
            }
        }
    }
    let idx = (slot / 64) as usize;
    let sh = slot % 64;
    let w = bitmap[idx];
    proof {
        lemma_bit_ops(w, sh);
    }
    if w & (1u64 << sh) == 0 {
        bitmap[idx] = w | (1u64 << sh);
        proof {
            assert forall|s: u64|
                s < final(bitmap)@.len() * 64 && s != slot implies (#[trigger] bit_is_set(
                final(bitmap)@,
                s,
            ) == bit_is_set(old(bitmap)@, s)) by {
                lemma_set_bit_other(w, sh, s % 64);
                if s as int / 64 == idx as int {
                    assert(s % 64 != sh) by {
                        vstd::arithmetic::div_mod::lemma_fundamental_div_mod(s as int, 64);
                        vstd::arithmetic::div_mod::lemma_fundamental_div_mod(slot as int, 64);
                    }
                }
            }
            assert(bit_is_set(final(bitmap)@, slot));
        }
        true
    } else {
        false
    }
}

/// Testing and setting a bit: the masked test agrees with the shifted
/// test, and setting the bit makes the shifted test true.
proof fn lemma_bit_ops(w: u64, sh: u64)
    by (bit_vector)
    requires
        sh < 64,
    ensures
        (w & (1u64 << sh) == 0) <==> ((w >> sh) & 1u64 == 0u64),
        ((w >> sh) & 1u64 == 0u64) || ((w >> sh) & 1u64 == 1u64),
        ((w | (1u64 << sh)) >> sh) & 1u64 == 1u64,
{
}

/// Setting one bit leaves every other bit position of the word unchanged.
proof fn lemma_set_bit_other(w: u64, sh: u64, j: u64)
    by (bit_vector)
    requires
        sh < 64,
        j < 64,
    ensures
        j != sh ==> ((w | (1u64 << sh)) >> j) & 1u64 == (w >> j) & 1u64,
{
}

/// The slot an edge falls in lies inside the bitmap.
pub proof fn lemma_edge_slot_in_range(from: u64, to: u64, words: int)
    requires
        1 <= words <= 0x100_0000,
    ensures
        edge_slot(from, to, words) < words * 64,
{
    lemma_mask_le(edge_hash(from, to), (words * 64 - 1) as u64);
}

/// An edge is reported at most once per bitmap: after any recording
/// history that leaves the edge's bit set (as recording it does), and
/// under any further recordings (which never clear bits), recording the
/// same edge again reports nothing new.
pub proof fn lemma_edge_reported_once(bm1: Seq<u64>, bm2: Seq<u64>, from: u64, to: u64)
    requires
        bm1.len() == bm2.len(),
        !edge_is_new(bm1, from, to),
        forall|s: u64| s < bm1.len() * 64 ==> (bit_is_set(bm1, s) ==> #[trigger] bit_is_set(bm2, s)),
        1 <= bm1.len() <= 0x100_0000,
        is_pow2((bm1.len() * 64) as int),
    ensures
        !edge_is_new(bm2, from, to),
{
    let slot = edge_slot(from, to, bm1.len() as int);
    assert(slot <= (bm1.len() * 64 - 1) as u64) by {
        lemma_mask_le(edge_hash(from, to), (bm1.len() * 64 - 1) as u64);
    }
    assert(bit_is_set(bm2, slot));
}

} // verus!
