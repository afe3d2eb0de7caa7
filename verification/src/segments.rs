//! Division of a batch of tokens into sequences.
use vstd::prelude::*;
use crate::buffer::fault_result;
use crate::check::{dim_error, dim_mismatch, fault_if};
use crate::error::{outcome, ErrorView, T0Error};

verus! {

/// Token counts of the sequences of a batch, in order.
#[derive(Debug)]
pub struct SeqLayout {
    /// Token count of each sequence.
    pub seq_lens: Vec<u32>,
}

/// Number of tokens of all sequences.
pub open spec fn total(lens: Seq<u32>) -> nat
    decreases lens.len(),
{
    if lens.len() == 0 {
        0
    } else {
        total(lens.drop_last()) + lens.last() as nat
    }
}

/// Index of the first token of a sequence.
pub open spec fn start_of(lens: Seq<u32>, slot: int) -> nat {
    total(lens.take(slot))
}

/// The sequence that a token belongs to.
pub open spec fn slot_of(lens: Seq<u32>, token: int) -> int
    decreases lens.len(),
{
    if lens.len() == 0 {
        0
    } else if token >= total(lens.drop_last()) {
        lens.len() - 1
    } else {
        slot_of(lens.drop_last(), token)
    }
}

/// The start of the sequence after `slot`.
pub proof fn lemma_start_step(lens: Seq<u32>, slot: int)
    requires
        0 <= slot < lens.len(),
    ensures
        start_of(lens, slot + 1) == start_of(lens, slot) + lens[slot],
        start_of(lens, 0) == 0,
{
    assert(lens.take(slot + 1).drop_last() =~= lens.take(slot));
    assert(lens.take(slot + 1).last() == lens[slot]);
    assert(lens.take(0).len() == 0);
}

/// No sequence starts beyond the last token.
pub proof fn lemma_start_le(lens: Seq<u32>, slot: int)
    requires
        0 <= slot <= lens.len(),
    ensures
        start_of(lens, slot) <= total(lens),
    decreases lens.len() - slot,
{
    if slot == lens.len() {
        assert(lens.take(slot) =~= lens);
    } else {
        lemma_start_step(lens, slot);
        lemma_start_le(lens, slot + 1);
    }
}

/// A token at a row of a sequence belongs to that sequence.
pub proof fn lemma_slot_of(lens: Seq<u32>, slot: int, row: int)
    requires
        0 <= slot < lens.len(),
        0 <= row < lens[slot],
    ensures
        slot_of(lens, start_of(lens, slot) + row) == slot,
        start_of(lens, slot) + row < total(lens),
    decreases lens.len(),
{
    let init = lens.drop_last();
    let n = lens.len() - 1;
    lemma_start_step(lens, slot);
    lemma_start_le(lens, slot + 1);
    if slot == n {
        assert(lens.take(slot) =~= init);
    } else {
        assert(init.take(slot) =~= lens.take(slot));
        lemma_slot_of(init, slot, row);
    }
}

impl SeqLayout {
    /// Layout of sequences with the given token counts.
    pub fn new(seq_lens: Vec<u32>) -> (r: SeqLayout)
        ensures
            r.seq_lens == seq_lens,
    {
        SeqLayout { seq_lens }
    }

    /// Number of sequences.
    pub fn seq_count(&self) -> (r: usize)
        ensures
            r == self.seq_lens@.len(),
    {
        self.seq_lens.len()
    }

    /// Token counts of the sequences.
    pub fn seq_lens(&self) -> (r: &[u32])
        ensures
            r@ == self.seq_lens@,
    {
        self.seq_lens.as_slice()
    }

    /// The error of an operand whose token count is not that of the sequences.
    pub open spec fn total_fault(lens: Seq<u32>, tensor: &'static str, t: usize) -> Option<
        ErrorView,
    > {
        let sum = if total(lens) > usize::MAX {
            usize::MAX
        } else {
            total(lens) as usize
        };
        fault_if(total(lens) != t, dim_error("T", "seq", sum, tensor, t))
    }

    /// Checks that the sequences have `t` tokens in all.
    pub fn check_total(&self, tensor: &'static str, t: usize) -> (r: Result<(), T0Error>)
        ensures
            outcome(r) == fault_result(Self::total_fault(self.seq_lens@, tensor, t)),
    {
        let lens = self.seq_lens.as_slice();
        let mut sum: u128 = 0;
        assert(lens@.take(0).len() == 0);
        for i in 0..lens.len()
            invariant
                sum == total(lens@.take(i as int)),
                sum <= i * 0xFFFF_FFFF,
                lens@ == self.seq_lens@,
        {
            assert(lens@.take(i + 1).drop_last() =~= lens@.take(i as int));
            sum = sum + lens[i] as u128;
        }
        assert(lens@.take(lens@.len() as int) =~= lens@);
        if sum == t as u128 {
            Ok(())
        } else {
            let capped: usize = if sum > usize::MAX as u128 {
                usize::MAX
            } else {
                sum as usize
            };
            Err(dim_mismatch("T", "seq", capped, tensor, t))
        }
    }
}

} // verus!
