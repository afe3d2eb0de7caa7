//! Which positions each query token reads, position by position.
use vstd::prelude::*;
use crate::attention::{sight_of, slot_plan, AttentionMask, AttentionOp};
use crate::batch::{window_result, BatchMeta};
use crate::error::ErrorView;
use crate::segments::{lemma_start_step, start_of};
use crate::visibility::{
    horizon, queries, query_plan, query_view, scan, seen, sights, QueryInfo, Sight,
};

verus! {

/// Whether the query token `tok`, at offset `i` of a sequence, reads a position:
/// the position is not behind the token's own, or for a draft tree not behind the
/// sequence's last; it is in the pinned prefix or in the window; the draft tree
/// shows it where it is one of the query tokens; and its block was not evicted.
pub open spec fn reads_position(
    op: AttentionOp,
    meta: BatchMeta,
    group: int,
    seq: int,
    tok: int,
    i: int,
    pos: int,
) -> bool {
    let seqs = meta.ctx_len@.len();
    let ctx = meta.ctx_len@[seq] as int;
    let tree = op.mask == AttentionMask::Tree;
    &&& 0 <= pos
    &&& pos < if tree {
        ctx + meta.query_len@[seq]
    } else {
        ctx + i + 1
    }
    &&& pos < op.sinks || pos >= meta.window_start@[group * seqs + seq]
    &&& tree && pos >= ctx ==> (meta.tree matches Some(t) && t.ancestors@[tok * t.t_max + (pos
        - ctx)])
    &&& meta.block_table@[(group * seqs + seq) * meta.max_blocks + pos / 32] != 0xFFFF_FFFF
}

/// Query tokens stand sequence by sequence.
proof fn lemma_query_at(meta: BatchMeta, seqs: int, seq: int, i: int)
    requires
        meta.wf(),
        0 <= seq < seqs <= meta.ctx_len@.len(),
        0 <= i < meta.query_len@[seq],
    ensures
        queries(meta, seqs).len() == start_of(meta.query_len@, seqs),
        start_of(meta.query_len@, seq) + i < queries(meta, seqs).len(),
        queries(meta, seqs)[start_of(meta.query_len@, seq) + i] == (QueryInfo {
            seq: seq as usize,
            abs_pos: (meta.ctx_len@[seq] + i) as u64,
            ctx: meta.ctx_len@[seq] as u64,
            qlen: meta.query_len@[seq] as usize,
        }),
    decreases seqs,
{
    lemma_query_count(meta, seqs);
    lemma_query_count(meta, seqs - 1);
    if seq < seqs - 1 {
        lemma_query_at(meta, seqs - 1, seq, i);
    }
}

proof fn lemma_query_count(meta: BatchMeta, seqs: int)
    requires
        meta.wf(),
        0 <= seqs <= meta.ctx_len@.len(),
    ensures
        queries(meta, seqs).len() == start_of(meta.query_len@, seqs),
    decreases seqs,
{
    if seqs > 0 {
        lemma_query_count(meta, seqs - 1);
        lemma_start_step(meta.query_len@, seqs - 1);
    } else {
        assert(meta.query_len@.take(0).len() == 0);
    }
}

/// Fewer positions have no more problems.
proof fn lemma_scan_problems(
    meta: BatchMeta,
    sight: Sight,
    written: Seq<bool>,
    window_start: int,
    tok: int,
    q: QueryInfo,
    list: Seq<ErrorView>,
    positions: int,
)
    ensures
        scan(meta, sight, written, window_start, tok, q, list, positions).1.len() >= list.len(),
    decreases positions,
{
    if positions > 0 {
        lemma_scan_problems(meta, sight, written, window_start, tok, q, list, positions - 1);
    }
}

/// Fewer query tokens have no more problems.
proof fn lemma_sight_problems(
    meta: BatchMeta,
    sight: Sight,
    written: Seq<bool>,
    all: Seq<QueryInfo>,
    list: Seq<ErrorView>,
    n: int,
    tok: int,
)
    requires
        0 <= tok < n,
        sights(meta, sight, written, all, list, n).1.len() == 0,
    ensures
        ({
            let before = sights(meta, sight, written, all, list, tok).1;
            let (slots, problems) = query_view(meta, sight, written, tok, all[tok], before);
            &&& before.len() == 0
            &&& problems.len() == 0
            &&& sights(meta, sight, written, all, list, n).0.len() == n
            &&& sights(meta, sight, written, all, list, n).0[tok] == slots
        }),
    decreases n,
{
    let before = sights(meta, sight, written, all, list, n - 1).1;
    let q = all[n - 1];
    if q.seq <= u32::MAX {
        match window_result(meta, sight.group, q.seq as u32) {
            Ok(w) => {
                lemma_scan_problems(
                    meta,
                    sight,
                    written,
                    w as int,
                    n - 1,
                    q,
                    before,
                    horizon(sight, q),
                );
            },
            Err(_) => {},
        }
    }
    lemma_sight_count(meta, sight, written, all, list, n - 1);
    if tok < n - 1 {
        lemma_sight_problems(meta, sight, written, all, list, n - 1, tok);
    }
}

proof fn lemma_sight_count(
    meta: BatchMeta,
    sight: Sight,
    written: Seq<bool>,
    all: Seq<QueryInfo>,
    list: Seq<ErrorView>,
    n: int,
)
    requires
        0 <= n,
    ensures
        sights(meta, sight, written, all, list, n).0.len() == n,
    decreases n,
{
    if n > 0 {
        lemma_sight_count(meta, sight, written, all, list, n - 1);
    }
}

/// Positions that a scan without problems reads.
proof fn lemma_scan_positions(
    op: AttentionOp,
    meta: BatchMeta,
    group: u32,
    written: Seq<bool>,
    tok: int,
    seq: int,
    i: int,
    list: Seq<ErrorView>,
    positions: int,
) -> (at: Seq<int>)
    requires
        meta.wf(),
        group < meta.num_groups,
        0 <= seq < meta.ctx_len@.len(),
        seq <= u32::MAX,
        0 <= i < meta.query_len@[seq],
        scan(
            meta,
            sight_of(op, group),
            written,
            meta.window_of(group as int, seq) as int,
            tok,
            queries_of(meta, seq, i),
            list,
            positions,
        ).1.len() == 0,
        positions <= horizon(sight_of(op, group), queries_of(meta, seq, i)),
    ensures
        ({
            let slots = scan(
                meta,
                sight_of(op, group),
                written,
                meta.window_of(group as int, seq) as int,
                tok,
                queries_of(meta, seq, i),
                list,
                positions,
            ).0;
            &&& at.len() == slots.len()
            &&& forall|k: int|
                0 <= k < at.len() ==> {
                    &&& 0 <= #[trigger] at[k] < positions
                    &&& reads_position(op, meta, group as int, seq, tok, i, at[k])
                    &&& slots[k] == meta.block_of(group as int, seq, at[k] / 32) * 32 + at[k] % 32
                }
            &&& forall|k: int, m: int| 0 <= k < m < at.len() ==> at[k] < at[m]
            &&& forall|pos: int|
                0 <= pos < positions && #[trigger] reads_position(
                    op,
                    meta,
                    group as int,
                    seq,
                    tok,
                    i,
                    pos,
                ) ==> at.contains(pos)
        }),
    decreases positions,
{
    if positions <= 0 {
        Seq::empty()
    } else {
        let sight = sight_of(op, group);
        let w = meta.window_of(group as int, seq) as int;
        let q = queries_of(meta, seq, i);
        let before = lemma_scan_positions(op, meta, group, written, tok, seq, i, list, positions - 1);
        let p = positions - 1;
        match seen(meta, sight, written, w, tok, q, p) {
            Ok(Some(slot)) => {
                let at = before.push(p);
                assert forall|pos: int|
                    0 <= pos < positions && #[trigger] reads_position(
                        op,
                        meta,
                        group as int,
                        seq,
                        tok,
                        i,
                        pos,
                    ) implies at.contains(pos) by {
                    if pos == p {
                        assert(at[before.len() as int] == p);
                    } else {
                        let k = choose|k: int| 0 <= k < before.len() && before[k] == pos;
                        assert(at[k] == pos);
                    }
                }
                at
            },
            _ => before,
        }
    }
}

/// Query token at an offset of a sequence.
spec fn queries_of(meta: BatchMeta, seq: int, i: int) -> QueryInfo {
    QueryInfo {
        seq: seq as usize,
        abs_pos: (meta.ctx_len@[seq] + i) as u64,
        ctx: meta.ctx_len@[seq] as u64,
        qlen: meta.query_len@[seq] as usize,
    }
}

/// A query token reads its visible positions and no others, each once and in
/// ascending order, and each from the slot that the block table gives it: 32
/// positions to a block.
pub proof fn law_positions_read(
    list: Seq<ErrorView>,
    op: AttentionOp,
    meta: BatchMeta,
    group: u32,
    written: Seq<bool>,
    plans: Seq<Seq<usize>>,
    seq: int,
    i: int,
) -> (at: Seq<int>)
    requires
        meta.wf(),
        slot_plan(list, op, meta, group, written) == Ok::<Seq<Seq<usize>>, ErrorView>(plans),
        0 <= seq < meta.ctx_len@.len(),
        0 <= i < meta.query_len@[seq],
    ensures
        ({
            let tok = start_of(meta.query_len@, seq) + i;
            let seqs = meta.ctx_len@.len();
            let block = |pos: int|
                meta.block_table@[(group * seqs + seq) * meta.max_blocks + pos / 32];
            &&& tok < plans.len()
            &&& at.len() == plans[tok].len()
            &&& forall|k: int|
                0 <= k < at.len() ==> {
                    &&& reads_position(op, meta, group as int, seq, tok, i, #[trigger] at[k])
                    &&& plans[tok][k] == block(at[k]) * 32 + at[k] % 32
                }
            &&& forall|k: int, m: int| 0 <= k < m < at.len() ==> at[k] < at[m]
            &&& forall|pos: int| #[trigger]
                reads_position(op, meta, group as int, seq, tok, i, pos) ==> at.contains(pos)
        }),
{
    let sight = sight_of(op, group);
    let all = query_plan(meta)->Ok_0;
    let seqs = meta.ctx_len@.len() as int;
    let tok = start_of(meta.query_len@, seq) + i;
    lemma_query_at(meta, seqs, seq, i);
    let q = queries_of(meta, seq, i);
    assert(all[tok] == q);
    assert(meta.ctx_len.len() == seqs);
    assert(q.seq == seq);
    lemma_sight_problems(meta, sight, written, all, list, all.len() as int, tok);
    let before = sights(meta, sight, written, all, list, tok).1;
    let at = lemma_scan_positions(
        op,
        meta,
        group,
        written,
        tok,
        seq,
        i,
        before,
        horizon(sight, q),
    );
    assert(plans[tok] == scan(
        meta,
        sight,
        written,
        meta.window_of(group as int, seq) as int,
        tok,
        q,
        before,
        horizon(sight, q),
    ).0);
    at
}

} // verus!
