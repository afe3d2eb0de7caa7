//! Which cached positions each query token sees.
//!
//! A position is retained if it is in the pinned prefix or in the window. A
//! query token sees the retained positions up to its own, or those that a draft
//! tree names. Blocks that were evicted leave holes.
use vstd::prelude::*;
use crate::batch::{
    block_result, checked_block, checked_window, window_result, BatchMeta, TreeMask,
    BLOCK_TABLE_SENTINEL,
};
use crate::check::{attr_error, invalid_attr, overflow, overflow_error};
use crate::error::{
    outcome, push_problem, quoting, u64_to_usize, views, Arg, Detail, ErrorView, T0Error,
};
use crate::index::lemma_flat_bound;
use crate::weight::size_of_u64;

verus! {

/// One query token and the sequence it belongs to.
#[derive(Debug, Clone, Copy)]
pub struct QueryInfo {
    /// Sequence.
    pub seq: usize,
    /// Position in the sequence.
    pub abs_pos: u64,
    /// Tokens of the sequence that were in state before.
    pub ctx: u64,
    /// New tokens of the sequence.
    pub qlen: usize,
}

/// Query tokens of the first sequences, in order.
pub open spec fn queries(meta: BatchMeta, seqs: int) -> Seq<QueryInfo>
    decreases seqs,
{
    if seqs <= 0 {
        Seq::empty()
    } else {
        queries(meta, seqs - 1) + seq_queries(meta, seqs - 1, meta.query_len@[seqs - 1] as int)
    }
}

/// First query tokens of a sequence.
pub open spec fn seq_queries(meta: BatchMeta, s: int, n: int) -> Seq<QueryInfo> {
    Seq::new(
        n as nat,
        |i: int|
            QueryInfo {
                seq: s as usize,
                abs_pos: (meta.ctx_len@[s] + i) as u64,
                ctx: meta.ctx_len@[s] as u64,
                qlen: meta.query_len@[s] as usize,
            },
    )
}

/// All query tokens, or the error of lengths that do not add up.
pub open spec fn query_plan(meta: BatchMeta) -> Result<Seq<QueryInfo>, ErrorView> {
    let all = queries(meta, meta.ctx_len@.len() as int);
    if all.len() != meta.total_tokens {
        Err(
            attr_error(
                "attention",
                "query_len",
                quoting(
                    "query lengths cover {} tokens but BatchMeta T is {}",
                    seq![Arg::Int(all.len() as u64), Arg::Int(meta.total_tokens as u64)],
                ),
            ),
        )
    } else {
        Ok(all)
    }
}

/// Lists the query tokens of all sequences in order.
pub fn plan_queries(meta: &BatchMeta) -> (r: Result<Vec<QueryInfo>, T0Error>)
    requires
        meta.wf(),
    ensures
        match query_plan(*meta) {
            Err(e) => r is Err && r->Err_0.view() == e,
            Ok(all) => r is Ok && r->Ok_0@ == all,
        },
{
    let mut out: Vec<QueryInfo> = Vec::new();
    let seqs: usize = meta.num_seqs();
    let mut s: usize = 0;
    while s < seqs
        invariant
            s <= seqs,
            seqs == meta.ctx_len@.len(),
            meta.wf(),
            out@ == queries(*meta, s as int),
        decreases seqs - s,
    {
        let ctx: u32 = meta.ctx_len[s];
        let qlen: u32 = meta.query_len[s];
        let mut i: u32 = 0;
        assert(out@ =~= queries(*meta, s as int) + seq_queries(*meta, s as int, 0));
        while i < qlen
            invariant
                s < seqs,
                seqs == meta.ctx_len@.len(),
                meta.wf(),
                ctx == meta.ctx_len@[s as int],
                qlen == meta.query_len@[s as int],
                i <= qlen,
                out@ == queries(*meta, s as int) + seq_queries(*meta, s as int, i as int),
            decreases qlen - i,
        {
            out.push(
                QueryInfo {
                    seq: s,
                    abs_pos: ctx as u64 + i as u64,
                    ctx: ctx as u64,
                    qlen: qlen as usize,
                },
            );
            i += 1;
            assert(out@ =~= queries(*meta, s as int) + seq_queries(*meta, s as int, i as int));
        }
        s += 1;
    }
    if out.len() != meta.total_tokens() {
        let reason = Detail::two(
            "query lengths cover {} tokens but BatchMeta T is {}",
            Arg::Int(out.len() as u64),
            Arg::Int(meta.total_tokens() as u64),
        );
        return Err(invalid_attr("attention", "query_len", reason));
    }
    Ok(out)
}

/// Whether a position is in the pinned prefix or in the window.
pub open spec fn retained(sinks: int, window_start: int, pos: int) -> bool {
    pos < sinks || pos >= window_start
}

/// Whether a position is in the pinned prefix or in the window.
pub fn is_retained(sinks: u64, window_start: u64, pos: u64) -> (r: bool)
    ensures
        r == retained(sinks as int, window_start as int, pos as int),
{
    pos < sinks || pos >= window_start
}

/// Whether a token of a draft tree sees the query token at an offset, or the
/// error of an offset that the tree does not have.
pub open spec fn tree_sight(tree: TreeMask, tok: int, col: int) -> Result<bool, ErrorView> {
    if col >= tree.t_max {
        Err(
            attr_error(
                "attention",
                "tree",
                quoting(
                    "query offset {} exceeds tree t_max {} for token {}",
                    seq![
                        Arg::Int(col as u64),
                        Arg::Int(tree.t_max as u64),
                        Arg::Int(tok as u64),
                    ],
                ),
            ),
        )
    } else {
        Ok(tree.sees(tok, col))
    }
}

/// Looks up the draft tree.
pub fn tree_query_visible(tree: &TreeMask, tok: usize, query_col: usize) -> (r: Result<
    bool,
    T0Error,
>)
    requires
        query_col < tree.t_max ==> tok * tree.t_max + query_col < tree.ancestors@.len(),
    ensures
        outcome(r) == tree_sight(*tree, tok as int, query_col as int),
{
    if query_col >= tree.t_max as usize {
        let reason = Detail::three(
            "query offset {} exceeds tree t_max {} for token {}",
            Arg::Int(query_col as u64),
            Arg::Int(tree.t_max as u64),
            Arg::Int(tok as u64),
        );
        return Err(invalid_attr("attention", "tree", reason));
    }
    Ok(tree.is_ancestor(tok, query_col))
}

/// A number capped at the largest size.
pub open spec fn capped_size(v: int) -> usize {
    if v > usize::MAX {
        usize::MAX
    } else {
        v as usize
    }
}

fn cap_size(v: u64) -> (r: usize)
    ensures
        r == capped_size(v as int),
{
    if v > usize::MAX as u64 {
        usize::MAX
    } else {
        v as usize
    }
}

/// Slot of a position; none if its block was evicted.
pub open spec fn position_slot(
    meta: BatchMeta,
    group: u32,
    s: int,
    pos: int,
    num_slots: int,
) -> Result<Option<usize>, ErrorView> {
    let block_idx = pos / 32;
    let range_error = |tensor: &'static str, index: u32, bound: usize|
        ErrorView::RowIndexOutOfRange {
            op: "attention",
            tensor,
            position: capped_size(pos),
            index,
            upper_bound: bound,
        };
    if block_idx >= meta.max_blocks {
        Err(
            range_error(
                "block_table",
                if block_idx > u32::MAX {
                    u32::MAX
                } else {
                    block_idx as u32
                },
                meta.max_blocks as usize,
            ),
        )
    } else if s > u32::MAX {
        Err(
            overflow_error(
                "attention",
                quoting("sequence index {} overflows u32", seq![Arg::Int(s as u64)]),
            ),
        )
    } else {
        match block_result(meta, group, s as u32, block_idx as u32) {
            Err(e) => Err(e),
            Ok(id) => if id == BLOCK_TABLE_SENTINEL {
                Ok(None)
            } else {
                match size_of_u64((id * 32 + pos % 32) as u64, "cache slot") {
                    Err(e) => Err(e),
                    Ok(slot) => if slot >= num_slots {
                        Err(range_error("cache", id, num_slots as usize))
                    } else {
                        Ok(Some(slot))
                    },
                }
            },
        }
    }
}

/// Looks up the slot of a position. A block that was evicted has none.
pub fn slot_for_position(
    meta: &BatchMeta,
    group: u32,
    s: usize,
    pos: u64,
    num_slots: usize,
) -> (r: Result<Option<usize>, T0Error>)
    requires
        meta.wf(),
    ensures
        outcome(r) == position_slot(*meta, group, s as int, pos as int, num_slots as int),
{
    let block_idx: u64 = pos / 32;
    let lane: u64 = pos % 32;
    if block_idx >= meta.max_blocks as u64 {
        return Err(
            T0Error::RowIndexOutOfRange {
                op: "attention",
                tensor: "block_table",
                position: cap_size(pos),
                index: if block_idx > u32::MAX as u64 {
                    u32::MAX
                } else {
                    block_idx as u32
                },
                upper_bound: meta.max_blocks as usize,
            },
        );
    }
    if s > u32::MAX as usize {
        let detail = Detail::one("sequence index {} overflows u32", Arg::Int(s as u64));
        return Err(overflow("attention", detail));
    }
    let id: u32 = match checked_block(meta, group, s as u32, block_idx as u32) {
        Ok(id) => id,
        Err(e) => {
            return Err(e);
        },
    };
    if id == BLOCK_TABLE_SENTINEL {
        return Ok(None);
    }
    let slot: usize = match u64_to_usize(id as u64 * 32 + lane, "cache slot") {
        Ok(v) => v,
        Err(e) => {
            return Err(e);
        },
    };
    if slot >= num_slots {
        return Err(
            T0Error::RowIndexOutOfRange {
                op: "attention",
                tensor: "cache",
                position: cap_size(pos),
                index: id,
                upper_bound: num_slots,
            },
        );
    }
    Ok(Some(slot))
}

/// What decides which positions are seen, besides the batch.
#[derive(Debug, Clone, Copy)]
pub struct Sight {
    /// Layer group.
    pub group: u32,
    /// Length of the pinned prefix.
    pub sinks: u64,
    /// Whether a draft tree decides among query tokens.
    pub is_tree: bool,
}

/// The error of a position whose slot was never written.
pub open spec fn unwritten_error(s: int, pos: int, slot: int) -> ErrorView {
    attr_error(
        "attention",
        "cache",
        quoting(
            "sequence {} position {} is retained but its cache slot {} was never written; run state_write_kv first",
            seq![Arg::Int(s as u64), Arg::Int(pos as u64), Arg::Int(slot as u64)],
        ),
    )
}

/// Slot that a retained position is read from.
pub open spec fn lookup(
    meta: BatchMeta,
    sight: Sight,
    written: Seq<bool>,
    q: QueryInfo,
    pos: int,
) -> Result<Option<usize>, ErrorView> {
    match position_slot(meta, sight.group, q.seq as int, pos, written.len() as int) {
        Err(e) => Err(e),
        Ok(None) => Ok(None),
        Ok(Some(slot)) => if written[slot as int] {
            Ok(Some(slot))
        } else {
            Err(unwritten_error(q.seq as int, pos, slot as int))
        },
    }
}

/// Slot that a query token reads for a position; none if it does not see it.
pub open spec fn seen(
    meta: BatchMeta,
    sight: Sight,
    written: Seq<bool>,
    window_start: int,
    tok: int,
    q: QueryInfo,
    pos: int,
) -> Result<Option<usize>, ErrorView> {
    if !retained(sight.sinks as int, window_start, pos) {
        Ok(None)
    } else if pos < q.ctx || !sight.is_tree {
        lookup(meta, sight, written, q, pos)
    } else {
        match meta.tree {
            None => Ok(None),
            Some(tree) => match tree_sight(tree, tok, pos - q.ctx) {
                Err(e) => Err(e),
                Ok(false) => Ok(None),
                Ok(true) => lookup(meta, sight, written, q, pos),
            },
        }
    }
}

/// Slots that a query token reads for the first positions in ascending order,
/// and the problems so far.
pub open spec fn scan(
    meta: BatchMeta,
    sight: Sight,
    written: Seq<bool>,
    window_start: int,
    tok: int,
    q: QueryInfo,
    list: Seq<ErrorView>,
    positions: int,
) -> (Seq<usize>, Seq<ErrorView>)
    decreases positions,
{
    if positions <= 0 {
        (Seq::empty(), list)
    } else {
        let (slots, problems) = scan(
            meta,
            sight,
            written,
            window_start,
            tok,
            q,
            list,
            positions - 1,
        );
        match seen(meta, sight, written, window_start, tok, q, positions - 1) {
            Ok(None) => (slots, problems),
            Ok(Some(slot)) => (slots.push(slot), problems),
            Err(e) => (slots, problems.push(e)),
        }
    }
}

/// Number of positions that a query token may see.
pub open spec fn horizon(sight: Sight, q: QueryInfo) -> int {
    if sight.is_tree {
        q.ctx + q.qlen
    } else {
        q.abs_pos + 1
    }
}

/// Slots that one query token reads, and the problems so far. To see nothing is
/// a problem where there is no other.
pub open spec fn query_view(
    meta: BatchMeta,
    sight: Sight,
    written: Seq<bool>,
    tok: int,
    q: QueryInfo,
    list: Seq<ErrorView>,
) -> (Seq<usize>, Seq<ErrorView>) {
    if q.seq > u32::MAX {
        (
            Seq::empty(),
            list.push(
                overflow_error(
                    "attention",
                    quoting("sequence index {} overflows u32", seq![Arg::Int(q.seq as u64)]),
                ),
            ),
        )
    } else {
        match window_result(meta, sight.group, q.seq as u32) {
            Err(e) => (Seq::empty(), list.push(e)),
            Ok(w) => {
                let (slots, problems) = scan(
                    meta,
                    sight,
                    written,
                    w as int,
                    tok,
                    q,
                    list,
                    horizon(sight, q),
                );
                if slots.len() == 0 && problems.len() == 0 {
                    (
                        slots,
                        problems.push(
                            ErrorView::InvalidDistribution {
                                op: "attention",
                                seq: q.seq,
                                pos: capped_size(q.abs_pos as int),
                                sum: 0,
                            },
                        ),
                    )
                } else {
                    (slots, problems)
                }
            },
        }
    }
}

/// Slots that the first query tokens read, and the problems so far.
pub open spec fn sights(
    meta: BatchMeta,
    sight: Sight,
    written: Seq<bool>,
    all: Seq<QueryInfo>,
    list: Seq<ErrorView>,
    n: int,
) -> (Seq<Seq<usize>>, Seq<ErrorView>)
    decreases n,
{
    if n <= 0 {
        (Seq::empty(), list)
    } else {
        let (plans, problems) = sights(meta, sight, written, all, list, n - 1);
        let (slots, more) = query_view(meta, sight, written, n - 1, all[n - 1], problems);
        (plans.push(slots), more)
    }
}

/// Values of the plans of query tokens.
pub open spec fn slot_lists(plans: Seq<Vec<usize>>) -> Seq<Seq<usize>> {
    Seq::new(plans.len(), |i: int| plans[i]@)
}

/// Finds the slot that a query token reads for a position.
fn see(
    meta: &BatchMeta,
    sight: Sight,
    written: &[bool],
    window_start: u64,
    tok: usize,
    q: QueryInfo,
    pos: u64,
) -> (r: Result<Option<usize>, T0Error>)
    requires
        meta.wf(),
        tok < meta.total_tokens,
        pos < q.ctx + u32::MAX,
    ensures
        outcome(r) == seen(
            *meta,
            sight,
            written@,
            window_start as int,
            tok as int,
            q,
            pos as int,
        ),
        r matches Ok(Some(slot)) ==> slot < written@.len(),
{
    if !is_retained(sight.sinks, window_start, pos) {
        return Ok(None);
    }
    if pos >= q.ctx && sight.is_tree {
        match &meta.tree {
            None => {
                return Ok(None);
            },
            Some(tree) => {
                let col: usize = (pos - q.ctx) as usize;
                proof {
                    if col < tree.t_max {
                        lemma_flat_bound(
                            tok as int,
                            meta.total_tokens as int,
                            col as int,
                            tree.t_max as int,
                        );
                    }
                }
                match tree_query_visible(tree, tok, col) {
                    Ok(true) => {},
                    Ok(false) => {
                        return Ok(None);
                    },
                    Err(e) => {
                        return Err(e);
                    },
                }
            },
        }
    }
    match slot_for_position(meta, sight.group, q.seq, pos, written.len()) {
        Err(e) => Err(e),
        Ok(None) => Ok(None),
        Ok(Some(slot)) => {
            if written[slot] {
                Ok(Some(slot))
            } else {
                let reason = Detail::three(
                    "sequence {} position {} is retained but its cache slot {} was never written; run state_write_kv first",
                    Arg::Int(q.seq as u64),
                    Arg::Int(pos),
                    Arg::Int(slot as u64),
                );
                Err(invalid_attr("attention", "cache", reason))
            }
        },
    }
}

/// Finds the slots that one query token reads.
fn view_query(
    meta: &BatchMeta,
    sight: Sight,
    written: &[bool],
    tok: usize,
    q: QueryInfo,
    problems: &mut Vec<T0Error>,
) -> (r: Vec<usize>)
    requires
        meta.wf(),
        tok < meta.total_tokens,
        q.ctx <= u32::MAX,
        q.ctx <= q.abs_pos < q.ctx + q.qlen,
        q.qlen <= u32::MAX,
    ensures
        (r@, views(final(problems)@)) == query_view(
            *meta,
            sight,
            written@,
            tok as int,
            q,
            views(old(problems)@),
        ),
        forall|i: int| 0 <= i < r@.len() ==> #[trigger] r@[i] < written@.len(),
{
    let mut slots: Vec<usize> = Vec::new();
    if q.seq > u32::MAX as usize {
        let detail = Detail::one("sequence index {} overflows u32", Arg::Int(q.seq as u64));
        push_problem(problems, overflow("attention", detail));
        return slots;
    }
    let window_start: u32 = match checked_window(meta, sight.group, q.seq as u32) {
        Ok(w) => w,
        Err(e) => {
            push_problem(problems, e);
            return slots;
        },
    };
    let end: u64 = if sight.is_tree {
        q.ctx + q.qlen as u64
    } else {
        q.abs_pos + 1
    };
    let mut p: u64 = 0;
    while p < end
        invariant
            p <= end,
            end == horizon(sight, q),
            end <= q.ctx + u32::MAX,
            meta.wf(),
            tok < meta.total_tokens,
            forall|i: int| 0 <= i < slots@.len() ==> #[trigger] slots@[i] < written@.len(),
            (slots@, views(problems@)) == scan(
                *meta,
                sight,
                written@,
                window_start as int,
                tok as int,
                q,
                views(old(problems)@),
                p as int,
            ),
        decreases end - p,
    {
        match see(meta, sight, written, window_start as u64, tok, q, p) {
            Ok(None) => {},
            Ok(Some(slot)) => {
                slots.push(slot);
            },
            Err(e) => {
                push_problem(problems, e);
            },
        }
        p += 1;
    }
    if slots.len() == 0 && problems.len() == 0 {
        push_problem(
            problems,
            T0Error::InvalidDistribution {
                op: "attention",
                seq: q.seq,
                pos: cap_size(q.abs_pos),
                sum: 0,
            },
        );
    }
    slots
}

/// Query tokens of a batch lie behind what was in state before.
proof fn lemma_queries(meta: BatchMeta, seqs: int, i: int)
    requires
        meta.wf(),
        seqs <= meta.ctx_len@.len(),
        0 <= i < queries(meta, seqs).len(),
    ensures
        ({
            let q = queries(meta, seqs)[i];
            &&& q.ctx <= u32::MAX
            &&& q.qlen <= u32::MAX
            &&& q.ctx <= q.abs_pos < q.ctx + q.qlen
        }),
    decreases seqs,
{
    if seqs > 0 && i < queries(meta, seqs - 1).len() {
        lemma_queries(meta, seqs - 1, i);
    }
}

/// Finds the slots that every query token reads, before anything is computed.
pub fn plan_visible(
    meta: &BatchMeta,
    sight: Sight,
    all: &[QueryInfo],
    written: &[bool],
    problems: &mut Vec<T0Error>,
) -> (r: Vec<Vec<usize>>)
    requires
        meta.wf(),
        query_plan(*meta) == Ok::<Seq<QueryInfo>, ErrorView>(all@),
    ensures
        (slot_lists(r@), views(final(problems)@)) == sights(
            *meta,
            sight,
            written@,
            all@,
            views(old(problems)@),
            all@.len() as int,
        ),
        r@.len() == all@.len(),
        forall|i: int, j: int|
            0 <= i < r@.len() && 0 <= j < r@[i]@.len() ==> #[trigger] r@[i]@[j] < written@.len(),
{
    let mut plans: Vec<Vec<usize>> = Vec::new();
    let mut tok: usize = 0;
    assert(slot_lists(plans@) =~= Seq::empty());
    while tok < all.len()
        invariant
            tok <= all@.len(),
            meta.wf(),
            query_plan(*meta) == Ok::<Seq<QueryInfo>, ErrorView>(all@),
            plans@.len() == tok,
            forall|i: int, j: int|
                0 <= i < plans@.len() && 0 <= j < plans@[i]@.len() ==> #[trigger] plans@[i]@[j]
                    < written@.len(),
            (slot_lists(plans@), views(problems@)) == sights(
                *meta,
                sight,
                written@,
                all@,
                views(old(problems)@),
                tok as int,
            ),
        decreases all@.len() - tok,
    {
        let ghost before = slot_lists(plans@);
        proof {
            lemma_queries(*meta, meta.ctx_len@.len() as int, tok as int);
        }
        let slots = view_query(meta, sight, written, tok, all[tok], problems);
        plans.push(slots);
        assert(slot_lists(plans@) =~= before.push(slots@));
        tok += 1;
    }
    plans
}

/// Retention is the union of the pinned prefix and the window: with a window
/// from the start, or a prefix up to the window, every position is retained.
pub proof fn law_retention_union(sinks: int, window_start: int, pos: int)
    requires
        0 <= pos,
    ensures
        retained(sinks, 0, pos),
        window_start <= sinks ==> retained(sinks, window_start, pos),
        pos < sinks ==> retained(sinks, window_start, pos),
        window_start <= pos ==> retained(sinks, window_start, pos),
        sinks <= pos < window_start ==> !retained(sinks, window_start, pos),
{
}

/// A query token reads only slots that were written.
pub proof fn law_only_written_read(
    meta: BatchMeta,
    sight: Sight,
    written: Seq<bool>,
    window_start: int,
    tok: int,
    q: QueryInfo,
    list: Seq<ErrorView>,
    positions: int,
    i: int,
)
    requires
        0 <= i < scan(meta, sight, written, window_start, tok, q, list, positions).0.len(),
    ensures
        ({
            let slot = scan(meta, sight, written, window_start, tok, q, list, positions).0[i];
            slot < written.len() && written[slot as int]
        }),
    decreases positions,
{
    if positions > 0 {
        let before = scan(meta, sight, written, window_start, tok, q, list, positions - 1).0;
        if i < before.len() {
            law_only_written_read(
                meta,
                sight,
                written,
                window_start,
                tok,
                q,
                list,
                positions - 1,
                i,
            );
        }
    }
}

} // verus!
