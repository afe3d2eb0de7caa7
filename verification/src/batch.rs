//! Description of a batch of sequences: how many tokens each has, and where
//! its state is stored.
use vstd::prelude::*;
use crate::check::{attr_error, invalid_attr};
use crate::error::{outcome, quoting, Arg, Detail, ErrorView, T0Error};
use crate::index::lemma_flat_bound;

verus! {

/// Slot of a token that writes no state.
pub const SLOT_NONE: u32 = 0xFFFF_FFFF;

/// Block id of a block that was evicted.
pub const BLOCK_TABLE_SENTINEL: u32 = 0xFFFF_FFFF;

/// Which query tokens a query token of a draft tree sees.
#[derive(Debug)]
pub struct TreeMask {
    /// Number of columns: query offsets within a sequence.
    pub t_max: u32,
    /// One row of columns per token.
    pub ancestors: Vec<bool>,
}

/// A batch of sequences.
#[derive(Debug)]
pub struct BatchMeta {
    /// Number of layer groups.
    pub num_groups: usize,
    /// Number of tokens of all sequences.
    pub total_tokens: usize,
    /// Blocks per sequence in the block table.
    pub max_blocks: u32,
    /// Tokens of each sequence that are already in state.
    pub ctx_len: Vec<u32>,
    /// New tokens of each sequence.
    pub query_len: Vec<u32>,
    /// Slot of each token, group by group.
    pub slot_map: Vec<u32>,
    /// Block ids, group by group and sequence by sequence.
    pub block_table: Vec<u32>,
    /// First position of each sequence's window, group by group.
    pub window_start: Vec<u32>,
    /// Draft tree, if any.
    pub tree: Option<TreeMask>,
}

impl BatchMeta {
    /// Whether all tables have the extents of the batch.
    pub open spec fn wf(&self) -> bool {
        let s = self.ctx_len@.len();
        &&& self.query_len@.len() == s
        &&& self.slot_map@.len() == self.num_groups * self.total_tokens
        &&& self.block_table@.len() == self.num_groups * s * self.max_blocks
        &&& self.window_start@.len() == self.num_groups * s
        &&& self.tree matches Some(t) ==> t.ancestors@.len() == self.total_tokens * t.t_max
    }

    /// Slot of a token.
    pub open spec fn slot_of(&self, group: int, tok: int) -> u32 {
        self.slot_map@[group * self.total_tokens + tok]
    }

    /// Block id of a sequence.
    pub open spec fn block_of(&self, group: int, seq: int, b: int) -> u32 {
        self.block_table@[(group * self.ctx_len@.len() + seq) * self.max_blocks + b]
    }

    /// First position of a sequence's window.
    pub open spec fn window_of(&self, group: int, seq: int) -> u32 {
        self.window_start@[group * self.ctx_len@.len() + seq]
    }

    /// Number of layer groups.
    pub fn num_groups(&self) -> (r: usize)
        ensures
            r == self.num_groups,
    {
        self.num_groups
    }

    /// Number of tokens of all sequences.
    pub fn total_tokens(&self) -> (r: usize)
        ensures
            r == self.total_tokens,
    {
        self.total_tokens
    }

    /// Number of sequences.
    pub fn num_seqs(&self) -> (r: usize)
        ensures
            r == self.ctx_len@.len(),
    {
        self.ctx_len.len()
    }

    /// Slot of a token.
    pub fn slot(&self, group: u32, tok: u32) -> (r: u32)
        requires
            self.wf(),
            group < self.num_groups,
            tok < self.total_tokens,
        ensures
            r == self.slot_of(group as int, tok as int),
    {
        let len: usize = self.slot_map.len();
        proof {
            lemma_flat_bound(
                group as int,
                self.num_groups as int,
                tok as int,
                self.total_tokens as int,
            );
        }
        self.slot_map[group as usize * self.total_tokens + tok as usize]
    }

    /// Block id of a sequence.
    pub fn block(&self, group: u32, seq: u32, b: u32) -> (r: u32)
        requires
            self.wf(),
            group < self.num_groups,
            seq < self.ctx_len@.len(),
            b < self.max_blocks,
        ensures
            r == self.block_of(group as int, seq as int, b as int),
    {
        let len: usize = self.block_table.len();
        let s: usize = self.ctx_len.len();
        proof {
            lemma_flat_bound(group as int, self.num_groups as int, seq as int, s as int);
            lemma_flat_bound(
                group * s + seq,
                self.num_groups * s,
                b as int,
                self.max_blocks as int,
            );
            assert(group * s + seq <= (group * s + seq) * self.max_blocks) by (nonlinear_arith)
                requires
                    self.max_blocks >= 1,
                    group * s + seq >= 0,
            ;
        }
        self.block_table[(group as usize * s + seq as usize) * self.max_blocks as usize
            + b as usize]
    }

    /// First position of a sequence's window.
    pub fn window(&self, group: u32, seq: u32) -> (r: u32)
        requires
            self.wf(),
            group < self.num_groups,
            seq < self.ctx_len@.len(),
        ensures
            r == self.window_of(group as int, seq as int),
    {
        let len: usize = self.window_start.len();
        let s: usize = self.ctx_len.len();
        proof {
            lemma_flat_bound(group as int, self.num_groups as int, seq as int, s as int);
        }
        self.window_start[group as usize * s + seq as usize]
    }
}

impl TreeMask {
    /// Whether a token sees the query token at an offset.
    pub open spec fn sees(&self, tok: int, col: int) -> bool {
        self.ancestors@[tok * self.t_max + col]
    }

    /// Whether a token sees the query token at an offset.
    pub fn is_ancestor(&self, tok: usize, col: usize) -> (r: bool)
        requires
            tok * self.t_max + col < self.ancestors@.len(),
        ensures
            r == self.sees(tok as int, col as int),
    {
        let len: usize = self.ancestors.len();
        assert(0 <= tok * self.t_max) by (nonlinear_arith)
            requires
                0 <= tok,
                0 <= self.t_max,
        ;
        self.ancestors[tok * self.t_max as usize + col]
    }
}

/// The error of a group that the batch does not have.
pub open spec fn group_error(op: &'static str, group: u32, groups: usize) -> ErrorView {
    attr_error(
        op,
        "group",
        quoting(
            "group {} out of range for BatchMeta with {} groups",
            seq![Arg::Int(group as u64), Arg::Int(groups as u64)],
        ),
    )
}

/// The error of a group that the batch does not have.
pub fn bad_group(op: &'static str, group: u32, groups: usize) -> (e: T0Error)
    ensures
        e.view() == group_error(op, group, groups),
{
    let reason = Detail::two(
        "group {} out of range for BatchMeta with {} groups",
        Arg::Int(group as u64),
        Arg::Int(groups as u64),
    );
    invalid_attr(op, "group", reason)
}

/// The error of an index into a table of the batch.
pub open spec fn table_error(tensor: &'static str, at: u32, bound: usize) -> ErrorView {
    ErrorView::RowIndexOutOfRange {
        op: "attention",
        tensor,
        position: at as usize,
        index: at,
        upper_bound: bound,
    }
}

fn bad_index(tensor: &'static str, at: u32, bound: usize) -> (e: T0Error)
    ensures
        e.view() == table_error(tensor, at, bound),
{
    T0Error::RowIndexOutOfRange {
        op: "attention",
        tensor,
        position: at as usize,
        index: at,
        upper_bound: bound,
    }
}

/// Slot of a token, or the error of an index out of range.
pub open spec fn slot_result(meta: BatchMeta, group: u32, tok: u32) -> Result<u32, ErrorView> {
    if group >= meta.num_groups {
        Err(group_error("attention", group, meta.num_groups))
    } else if tok >= meta.total_tokens {
        Err(table_error("slot_map", tok, meta.total_tokens))
    } else {
        Ok(meta.slot_of(group as int, tok as int))
    }
}

/// Reads the slot of a token.
pub fn checked_slot(meta: &BatchMeta, group: u32, tok: u32) -> (r: Result<u32, T0Error>)
    requires
        meta.wf(),
    ensures
        outcome(r) == slot_result(*meta, group, tok),
{
    if group as usize >= meta.num_groups() {
        return Err(bad_group("attention", group, meta.num_groups()));
    }
    if tok as usize >= meta.total_tokens() {
        return Err(bad_index("slot_map", tok, meta.total_tokens()));
    }
    Ok(meta.slot(group, tok))
}

/// Block id of a sequence, or the error of an index out of range.
pub open spec fn block_result(meta: BatchMeta, group: u32, seq: u32, b: u32) -> Result<
    u32,
    ErrorView,
> {
    if group >= meta.num_groups {
        Err(group_error("attention", group, meta.num_groups))
    } else if seq >= meta.ctx_len@.len() {
        Err(table_error("block_table", seq, meta.ctx_len@.len() as usize))
    } else if b >= meta.max_blocks {
        Err(table_error("block_table", b, meta.max_blocks as usize))
    } else {
        Ok(meta.block_of(group as int, seq as int, b as int))
    }
}

/// Reads a block id of a sequence.
pub fn checked_block(meta: &BatchMeta, group: u32, seq: u32, b: u32) -> (r: Result<u32, T0Error>)
    requires
        meta.wf(),
    ensures
        outcome(r) == block_result(*meta, group, seq, b),
{
    if group as usize >= meta.num_groups() {
        return Err(bad_group("attention", group, meta.num_groups()));
    }
    if seq as usize >= meta.num_seqs() {
        return Err(bad_index("block_table", seq, meta.num_seqs()));
    }
    if b >= meta.max_blocks {
        return Err(bad_index("block_table", b, meta.max_blocks as usize));
    }
    Ok(meta.block(group, seq, b))
}

/// First position of a sequence's window, or the error of an index out of
/// range.
pub open spec fn window_result(meta: BatchMeta, group: u32, seq: u32) -> Result<u32, ErrorView> {
    if group >= meta.num_groups {
        Err(group_error("attention", group, meta.num_groups))
    } else if seq >= meta.ctx_len@.len() {
        Err(table_error("window_start", seq, meta.ctx_len@.len() as usize))
    } else {
        Ok(meta.window_of(group as int, seq as int))
    }
}

/// Reads the first position of a sequence's window.
pub fn checked_window(meta: &BatchMeta, group: u32, seq: u32) -> (r: Result<u32, T0Error>)
    requires
        meta.wf(),
    ensures
        outcome(r) == window_result(*meta, group, seq),
{
    if group as usize >= meta.num_groups() {
        return Err(bad_group("attention", group, meta.num_groups()));
    }
    if seq as usize >= meta.num_seqs() {
        return Err(bad_index("window_start", seq, meta.num_seqs()));
    }
    Ok(meta.window(group, seq))
}

} // verus!
