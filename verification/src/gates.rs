//! Gates that every kernel passes: agreement with a reference, independence of
//! the batch, determinism, and refusal of what is illegal.
//!
//! A case says how its operands are built, run and compared. The gates decide
//! which trials are made, with which seeds, and what counts as a failure.
use vstd::prelude::*;
use crate::buffer::{extent, TypedBuffer};
use crate::dtype::{i8_as_byte, int_of_f32, unsigned_byte};
use crate::error::{to_vec, T0Error};
use crate::ir::DType;
use crate::harness::{
    bits_fault, case_seed, case_seed_result, compare_bits, seed_bytes, seed_for, trial, word_bytes,
    words_to_bytes, xxh3, Context, ContextView, HarnessError, HarnessFault, CASES_PER_SHAPE,
    LEGAL_FUZZ_DRAWS, MASTER_SEED,
};
use crate::refusal::{refusal_bytes, refusal_marker};
use crate::tolerance::Tolerance;

verus! {

/// Operands of a trial.
#[derive(Debug)]
pub struct GateBuffers {
    /// Inputs.
    pub inputs: Vec<TypedBuffer>,
    /// Outputs, zeroed before the trial.
    pub outputs: Vec<TypedBuffer>,
    /// Row that is compared between batches.
    pub logical_row: usize,
}

impl GateBuffers {
    /// Operands of a trial that compares no row.
    pub fn fresh(inputs: Vec<TypedBuffer>, outputs: Vec<TypedBuffer>) -> (r: GateBuffers)
        ensures
            r == (GateBuffers { inputs, outputs, logical_row: 0 }),
    {
        GateBuffers { inputs, outputs, logical_row: 0 }
    }

    /// Operands of a trial that compares a row.
    pub fn pinned(inputs: Vec<TypedBuffer>, outputs: Vec<TypedBuffer>, row: usize) -> (r:
        GateBuffers)
        ensures
            r == (GateBuffers { inputs, outputs, logical_row: row }),
    {
        GateBuffers { inputs, outputs, logical_row: row }
    }
}

/// Shapes of three batches that hold the same row.
#[derive(Debug)]
pub struct BatchRows {
    /// The row alone.
    pub alone: Vec<usize>,
    /// The row with padding.
    pub padded: Vec<usize>,
    /// The row among others.
    pub embedded: Vec<usize>,
    /// Index of the row in the first batch.
    pub row_alone: usize,
    /// Index of the row in the other batches.
    pub row: usize,
}

/// Values of shapes.
pub open spec fn shape_views(shapes: Seq<Vec<usize>>) -> Seq<Seq<usize>> {
    Seq::new(shapes.len(), |i: int| shapes[i]@)
}

/// A kernel with its trials. The `may_` functions say which results its
/// functions may have; a case that leaves them out may have any.
pub trait GateCase {
    /// Name of the op.
    open spec fn name(&self) -> &'static str {
        arbitrary()
    }

    /// Legal shapes.
    open spec fn shapes(&self) -> Seq<Seq<usize>> {
        arbitrary()
    }

    /// Further legal shapes.
    open spec fn more_shapes(&self) -> Seq<Seq<usize>> {
        arbitrary()
    }

    /// Batches that hold the same row.
    open spec fn rows(&self) -> BatchRows {
        arbitrary()
    }

    /// Number of illegal cases.
    open spec fn illegal(&self) -> usize {
        arbitrary()
    }

    /// Results of [`GateCase::build`].
    open spec fn may_build(&self, shape: Seq<usize>, seed: u64, r: Result<GateBuffers, HarnessError>) -> bool {
        true
    }

    /// Results of [`GateCase::build_pinned`].
    open spec fn may_pin(&self, shape: Seq<usize>, row: usize, r: Result<GateBuffers, HarnessError>) -> bool {
        true
    }

    /// Results of [`GateCase::build_illegal`].
    open spec fn may_build_illegal(&self, index: usize, r: Result<GateBuffers, HarnessError>) -> bool {
        true
    }

    /// Results of [`GateCase::execute`].
    open spec fn may_execute(&self, before: GateBuffers, after: GateBuffers, r: Result<(), T0Error>) -> bool {
        true
    }

    /// Results of [`GateCase::verify`].
    open spec fn may_verify(&self, b: GateBuffers, r: Result<(), HarnessError>) -> bool {
        true
    }

    /// Results of [`GateCase::output_bytes`].
    open spec fn may_output(&self, b: GateBuffers, r: Result<Vec<u8>, HarnessError>) -> bool {
        true
    }

    /// Results of [`GateCase::logical_bytes`].
    open spec fn may_cut(&self, b: GateBuffers, r: Result<Vec<u8>, HarnessError>) -> bool {
        true
    }

    /// Name of the op.
    fn op_name(&self) -> (r: &'static str)
        ensures
            r == self.name(),
    ;

    /// How far outputs may be from the reference.
    fn tolerance(&self) -> Tolerance;

    /// Legal shapes, with those at the edges of buckets.
    fn legal_shapes(&self) -> (r: Vec<Vec<usize>>)
        ensures
            shape_views(r@) == self.shapes(),
    ;

    /// Further legal shapes.
    fn fuzz_legal(&self) -> (r: Vec<Vec<usize>>)
        ensures
            shape_views(r@) == self.more_shapes(),
    ;

    /// Operands of a shape from a seed.
    fn build(&self, shape: &[usize], seed: u64) -> (r: Result<GateBuffers, HarnessError>)
        ensures
            self.may_build(shape@, seed, r),
    ;

    /// Operands of a shape with a row that is the same for every shape.
    fn build_pinned(&self, shape: &[usize], row: usize) -> (r: Result<GateBuffers, HarnessError>)
        ensures
            self.may_pin(shape@, row, r),
    ;

    /// Runs the kernel once.
    fn execute(&self, buffers: &mut GateBuffers) -> (r: Result<(), T0Error>)
        ensures
            self.may_execute(*old(buffers), *final(buffers), r),
    ;

    /// Compares the outputs with a reference.
    fn verify(&self, buffers: &GateBuffers) -> (r: Result<(), HarnessError>)
        ensures
            self.may_verify(*buffers, r),
    ;

    /// Bytes of all outputs.
    fn output_bytes(&self, buffers: &GateBuffers) -> (r: Result<Vec<u8>, HarnessError>)
        ensures
            self.may_output(*buffers, r),
    ;

    /// Bytes of the row that is compared between batches.
    fn logical_bytes(&self, buffers: &GateBuffers) -> (r: Result<Vec<u8>, HarnessError>)
        ensures
            self.may_cut(*buffers, r),
    ;

    /// Batches that hold the same row.
    fn batch_rows(&self) -> (r: BatchRows)
        ensures
            r == self.rows(),
    ;

    /// Number of illegal cases.
    fn illegal_count(&self) -> (r: usize)
        ensures
            r == self.illegal(),
    ;

    /// Operands of an illegal case.
    fn build_illegal(&self, index: usize) -> (r: Result<GateBuffers, HarnessError>)
        ensures
            self.may_build_illegal(index, r),
    ;

    /// Whether even legal cases are refused; none are unless a case says so.
    fn always_refuses(&self) -> (r: bool)
        default_ensures
            !r,
    {
        false
    }
}

/// Whether a case may say that even legal cases are refused, or that they are
/// not.
pub open spec fn may_refuse<C: GateCase + ?Sized>(case: &C, r: bool) -> bool {
    call_ensures(C::always_refuses, (case,), r)
}

/// The failure of a case that must be refused and ran.
pub open spec fn ran_anyway(context: ContextView) -> HarnessFault {
    HarnessFault::MissingRefusal { context, detail: "always-refusing op ran successfully" }
}

/// Whether a trial may pass: its kernel is refused if and only if it must be,
/// and its outputs agree with the reference.
pub open spec fn passes<C: GateCase + ?Sized>(case: &C, shape: Seq<usize>, seed: u64) -> bool {
    exists|b: GateBuffers, a: GateBuffers, x: Result<(), T0Error>|
        {
            &&& case.may_build(shape, seed, Ok(b))
            &&& #[trigger] case.may_execute(b, a, x)
            &&& match x {
                Ok(_) => may_refuse(case, false) && exists|y: Result<(), HarnessError>| #[trigger]
                    case.may_verify(a, y) && y is Ok,
                Err(_) => may_refuse(case, true),
            }
        }
}

/// Whether a trial may fail with the given failure.
pub open spec fn fails<C: GateCase + ?Sized>(
    case: &C,
    shape: Seq<usize>,
    seed: u64,
    context: ContextView,
    e: HarnessFault,
) -> bool {
    ||| exists|h: HarnessError| #[trigger] case.may_build(shape, seed, Err(h)) && h@ == e
    ||| exists|b: GateBuffers, a: GateBuffers, x: Result<(), T0Error>|
        {
            &&& case.may_build(shape, seed, Ok(b))
            &&& #[trigger] case.may_execute(b, a, x)
            &&& match x {
                Ok(_) => {
                    ||| may_refuse(case, true) && e == ran_anyway(context)
                    ||| may_refuse(case, false) && exists|h: HarnessError| #[trigger] case.may_verify(a, Err(h)) && h@ == e
                },
                Err(t) => may_refuse(case, false) && e == (HarnessFault::UnexpectedRefusal {
                    context,
                    error: t.view(),
                }),
            }
        }
}

/// Makes a trial.
fn run_trial<C: GateCase + ?Sized>(case: &C, shape: &[usize], seed: u64, context: Context) -> (r: Result<
    (),
    HarnessError,
>)
    ensures
        match r {
            Ok(_) => passes(case, shape@, seed),
            Err(e) => fails(case, shape@, seed, context@, e@),
        },
{
    let mut buffers = match case.build(shape, seed) {
        Ok(b) => b,
        Err(e) => {
            assert(case.may_build(shape@, seed, Err(e)));
            return Err(e);
        },
    };
    let ghost before = buffers;
    let x = case.execute(&mut buffers);
    assert(case.may_execute(before, buffers, x));
    match x {
        Ok(_) => {
            let refuses: bool = case.always_refuses();
            assert(may_refuse(case, refuses));
            if refuses {
                return Err(
                    HarnessError::MissingRefusal {
                        context,
                        detail: "always-refusing op ran successfully",
                    },
                );
            }
            let r = case.verify(&buffers);
            assert(case.may_verify(buffers, r));
            r
        },
        Err(error) => {
            let refuses: bool = case.always_refuses();
            assert(may_refuse(case, refuses));
            if refuses {
                Ok(())
            } else {
                Err(HarnessError::UnexpectedRefusal { context, error })
            }
        },
    }
}

/// Whether a result is that of trials in order: success if all pass, else the
/// failure of the first that fails.
pub open spec fn in_order(
    n: int,
    ok: spec_fn(int) -> bool,
    bad: spec_fn(int, HarnessFault) -> bool,
    r: Result<(), HarnessFault>,
) -> bool {
    match r {
        Ok(_) => forall|t: int| 0 <= t < n ==> #[trigger] ok(t),
        Err(e) => exists|t: int|
            0 <= t < n && #[trigger] bad(t, e) && (forall|u: int| 0 <= u < t ==> #[trigger] ok(u)),
    }
}

/// Context of a trial of the first gate.
pub open spec fn golden_context(name: Seq<char>, shape: Seq<usize>, seed: u64) -> ContextView {
    ContextView { name, gate: "golden", shape, seed: Some(seed), index: None }
}

/// Whether a trial of the first gate may pass: trials are numbered shape by
/// shape.
pub open spec fn golden_passes<C: GateCase + ?Sized>(case: &C, t: int) -> bool {
    match case_seed_result(case.name(), t / 32, t % 32) {
        Err(_) => false,
        Ok(seed) => passes(case, case.shapes()[t / 32], seed),
    }
}

/// Whether a trial of the first gate may fail with the given failure.
pub open spec fn golden_fails<C: GateCase + ?Sized>(case: &C, t: int, e: HarnessFault) -> bool {
    match case_seed_result(case.name(), t / 32, t % 32) {
        Err(f) => e == f,
        Ok(seed) => {
            let shape = case.shapes()[t / 32];
            fails(case, shape, seed, golden_context(case.name()@, shape, seed), e)
        },
    }
}

/// First gate: every legal shape agrees with the reference, for 32 seeds each.
pub fn golden<C: GateCase + ?Sized>(case: &C) -> (r: Result<(), HarnessError>)
    ensures
        case.shapes().len() == 0 ==> trial(r) == Err::<(), HarnessFault>(
            HarnessFault::NoLegalShapes { op: case.name() },
        ),
        case.shapes().len() > 0 ==> in_order(
            case.shapes().len() as int * 32,
            |t: int| golden_passes(case, t),
            |t: int, e: HarnessFault| golden_fails(case, t, e),
            trial(r),
        ),
{
    let shapes = case.legal_shapes();
    let ghost all = case.shapes();
    assert(all.len() == shapes@.len());
    if shapes.len() == 0 {
        return Err(HarnessError::NoLegalShapes { op: case.op_name() });
    }
    let ghost ok = |t: int| golden_passes(case, t);
    let ghost bad = |t: int, e: HarnessFault| golden_fails(case, t, e);
    let mut i: usize = 0;
    while i < shapes.len()
        invariant
            i <= shapes@.len(),
            shape_views(shapes@) == all,
            all == case.shapes(),
            all.len() > 0,
            ok == (|t: int| golden_passes(case, t)),
            bad == (|t: int, e: HarnessFault| golden_fails(case, t, e)),
            forall|t: int| 0 <= t < i * 32 ==> #[trigger] ok(t),
        decreases shapes@.len() - i,
    {
        let mut k: u64 = 0;
        while k < CASES_PER_SHAPE
            invariant
                i < shapes@.len(),
                k <= 32,
                shape_views(shapes@) == all,
                all == case.shapes(),
                all.len() > 0,
                ok == (|t: int| golden_passes(case, t)),
                bad == (|t: int, e: HarnessFault| golden_fails(case, t, e)),
                forall|t: int| 0 <= t < i * 32 + k ==> #[trigger] ok(t),
            decreases 32 - k,
        {
            let ghost t = i * 32 + k;
            assert(t / 32 == i && t % 32 == k);
            assert(all[i as int] == shapes@[i as int]@);
            let seed: u64 = match case_seed(case.op_name(), i, k) {
                Ok(s) => s,
                Err(e) => {
                    assert(bad(t, e@));
                    return Err(e);
                },
            };
            let context = Context {
                name: case.op_name().to_owned(),
                gate: "golden",
                shape: to_vec(shapes[i].as_slice()),
                seed: Some(seed),
                index: None,
            };
            let ghost place = context@;
            assert(place =~= golden_context(case.name()@, all[i as int], seed));
            match run_trial(case, shapes[i].as_slice(), seed, context) {
                Ok(_) => {
                    assert(ok(t));
                },
                Err(e) => {
                    assert(bad(t, e@));
                    return Err(e);
                },
            }
            k += 1;
        }
        i += 1;
    }
    Ok(())
}

/// Whether a batch may give the bytes of its row, or of its refusal if it must
/// be refused.
pub open spec fn pin_gives<C: GateCase + ?Sized>(
    case: &C,
    shape: Seq<usize>,
    row: usize,
    bytes: Seq<u8>,
) -> bool {
    exists|b: GateBuffers, a: GateBuffers, x: Result<(), T0Error>|
        {
            &&& case.may_pin(shape, row, Ok(b))
            &&& #[trigger] case.may_execute(b, a, x)
            &&& match x {
                Ok(_) => may_refuse(case, false) && exists|v: Vec<u8>| #[trigger]
                    case.may_cut(a, Ok(v)) && v@ == bytes,
                Err(t) => may_refuse(case, true) && bytes == refusal_bytes(t.view()),
            }
        }
}

/// Whether a batch may fail with the given failure.
pub open spec fn pin_fails<C: GateCase + ?Sized>(
    case: &C,
    shape: Seq<usize>,
    row: usize,
    context: ContextView,
    e: HarnessFault,
) -> bool {
    ||| exists|h: HarnessError| #[trigger] case.may_pin(shape, row, Err(h)) && h@ == e
    ||| exists|b: GateBuffers, a: GateBuffers, x: Result<(), T0Error>|
        {
            &&& case.may_pin(shape, row, Ok(b))
            &&& #[trigger] case.may_execute(b, a, x)
            &&& match x {
                Ok(_) => {
                    ||| may_refuse(case, true) && e == ran_anyway(context)
                    ||| may_refuse(case, false) && exists|h: HarnessError| #[trigger] case.may_cut(a, Err(h)) && h@ == e
                },
                Err(t) => may_refuse(case, false) && e == (HarnessFault::UnexpectedRefusal {
                    context,
                    error: t.view(),
                }),
            }
        }
}

fn run_pinned<C: GateCase + ?Sized>(case: &C, shape: &[usize], row: usize, context: &Context) -> (r: Result<
    Vec<u8>,
    HarnessError,
>)
    ensures
        match r {
            Ok(v) => pin_gives(case, shape@, row, v@),
            Err(e) => pin_fails(case, shape@, row, context@, e@),
        },
{
    let mut buffers = match case.build_pinned(shape, row) {
        Ok(b) => b,
        Err(e) => {
            assert(case.may_pin(shape@, row, Err(e)));
            return Err(e);
        },
    };
    let ghost before = buffers;
    let x = case.execute(&mut buffers);
    assert(case.may_execute(before, buffers, x));
    match x {
        Ok(_) => {
            let refuses: bool = case.always_refuses();
            assert(may_refuse(case, refuses));
            if refuses {
                return Err(
                    HarnessError::MissingRefusal {
                        context: context.copied(),
                        detail: "always-refusing op ran successfully",
                    },
                );
            }
            let r = case.logical_bytes(&buffers);
            assert(case.may_cut(buffers, r));
            r
        },
        Err(error) => {
            let refuses: bool = case.always_refuses();
            assert(may_refuse(case, refuses));
            if refuses {
                Ok(refusal_marker(&error))
            } else {
                Err(HarnessError::UnexpectedRefusal { context: context.copied(), error })
            }
        },
    }
}

/// Context of the second gate.
pub open spec fn batch_context(name: Seq<char>) -> ContextView {
    ContextView { name, gate: "batch invariance", shape: Seq::empty(), seed: None, index: None }
}

/// Whether the second gate may have a result: the three batches are run in
/// order, and then the first is compared with each of the others.
pub open spec fn batches_agree<C: GateCase + ?Sized>(case: &C, r: Result<(), HarnessFault>) -> bool {
    let rows = case.rows();
    let context = batch_context(case.name()@);
    let first = |v: Seq<u8>| pin_gives(case, rows.alone@, rows.row_alone, v);
    let second = |v: Seq<u8>| pin_gives(case, rows.padded@, rows.row, v);
    let third = |v: Seq<u8>| pin_gives(case, rows.embedded@, rows.row, v);
    match r {
        Ok(_) => exists|v: Seq<u8>| #[trigger] first(v) && second(v) && third(v),
        Err(e) => {
            ||| pin_fails(case, rows.alone@, rows.row_alone, context, e)
            ||| exists|v: Seq<u8>| #[trigger]
                first(v) && pin_fails(case, rows.padded@, rows.row, context, e)
            ||| exists|v: Seq<u8>, w: Seq<u8>| #[trigger]
                first(v) && #[trigger] second(w) && pin_fails(
                    case,
                    rows.embedded@,
                    rows.row,
                    context,
                    e,
                )
            ||| exists|v: Seq<u8>, w: Seq<u8>, x: Seq<u8>| #[trigger]
                first(v) && #[trigger] second(w) && #[trigger] third(x) && (bits_fault(
                    v,
                    w,
                    context,
                ) == Some(e) || (v == w && bits_fault(v, x, context) == Some(e)))
        },
    }
}

/// Second gate: a row is the same bytes alone, with padding and among others.
pub fn batch_invariant<C: GateCase + ?Sized>(case: &C) -> (r: Result<(), HarnessError>)
    ensures
        batches_agree(case, trial(r)),
{
    let rows = case.batch_rows();
    let context = Context {
        name: case.op_name().to_owned(),
        gate: "batch invariance",
        shape: Vec::new(),
        seed: None,
        index: None,
    };
    assert(context@ =~= batch_context(case.name()@));
    let ghost first = |v: Seq<u8>| pin_gives(case, rows.alone@, rows.row_alone, v);
    let ghost second = |v: Seq<u8>| pin_gives(case, rows.padded@, rows.row, v);
    let ghost third = |v: Seq<u8>| pin_gives(case, rows.embedded@, rows.row, v);
    let alone = match run_pinned(case, rows.alone.as_slice(), rows.row_alone, &context) {
        Ok(v) => v,
        Err(e) => {
            return Err(e);
        },
    };
    assert(first(alone@));
    let padded = match run_pinned(case, rows.padded.as_slice(), rows.row, &context) {
        Ok(v) => v,
        Err(e) => {
            return Err(e);
        },
    };
    assert(second(padded@));
    let embedded = match run_pinned(case, rows.embedded.as_slice(), rows.row, &context) {
        Ok(v) => v,
        Err(e) => {
            return Err(e);
        },
    };
    assert(third(embedded@));
    proof {
        crate::harness::law_bits_equal(alone@, padded@, context@);
        crate::harness::law_bits_equal(alone@, embedded@, context@);
    }
    match compare_bits(alone.as_slice(), padded.as_slice(), &context) {
        Ok(_) => {},
        Err(e) => {
            return Err(e);
        },
    }
    compare_bits(alone.as_slice(), embedded.as_slice(), &context)
}

/// Whether a trial may give the bytes of its outputs, or of its refusal if it
/// must be refused.
pub open spec fn run_gives<C: GateCase + ?Sized>(
    case: &C,
    shape: Seq<usize>,
    seed: u64,
    bytes: Seq<u8>,
) -> bool {
    exists|b: GateBuffers, a: GateBuffers, x: Result<(), T0Error>|
        {
            &&& case.may_build(shape, seed, Ok(b))
            &&& #[trigger] case.may_execute(b, a, x)
            &&& match x {
                Ok(_) => may_refuse(case, false) && exists|v: Vec<u8>| #[trigger]
                    case.may_output(a, Ok(v)) && v@ == bytes,
                Err(t) => may_refuse(case, true) && bytes == refusal_bytes(t.view()),
            }
        }
}

/// Whether a trial may fail to give bytes with the given failure.
pub open spec fn run_fails<C: GateCase + ?Sized>(
    case: &C,
    shape: Seq<usize>,
    seed: u64,
    context: ContextView,
    e: HarnessFault,
) -> bool {
    ||| exists|h: HarnessError| #[trigger] case.may_build(shape, seed, Err(h)) && h@ == e
    ||| exists|b: GateBuffers, a: GateBuffers, x: Result<(), T0Error>|
        {
            &&& case.may_build(shape, seed, Ok(b))
            &&& #[trigger] case.may_execute(b, a, x)
            &&& match x {
                Ok(_) => {
                    ||| may_refuse(case, true) && e == ran_anyway(context)
                    ||| may_refuse(case, false) && exists|h: HarnessError| #[trigger] case.may_output(a, Err(h)) && h@ == e
                },
                Err(t) => may_refuse(case, false) && e == (HarnessFault::UnexpectedRefusal {
                    context,
                    error: t.view(),
                }),
            }
        }
}

/// Makes a trial and gives the bytes of its outputs.
fn run_to_bytes<C: GateCase + ?Sized>(case: &C, shape: &[usize], seed: u64, context: &Context) -> (r: Result<
    Vec<u8>,
    HarnessError,
>)
    ensures
        match r {
            Ok(v) => run_gives(case, shape@, seed, v@),
            Err(e) => run_fails(case, shape@, seed, context@, e@),
        },
{
    let mut buffers = match case.build(shape, seed) {
        Ok(b) => b,
        Err(e) => {
            assert(case.may_build(shape@, seed, Err(e)));
            return Err(e);
        },
    };
    let ghost before = buffers;
    let x = case.execute(&mut buffers);
    assert(case.may_execute(before, buffers, x));
    match x {
        Ok(_) => {
            let refuses: bool = case.always_refuses();
            assert(may_refuse(case, refuses));
            if refuses {
                return Err(
                    HarnessError::MissingRefusal {
                        context: context.copied(),
                        detail: "always-refusing op ran successfully",
                    },
                );
            }
            let r = case.output_bytes(&buffers);
            assert(case.may_output(buffers, r));
            r
        },
        Err(error) => {
            let refuses: bool = case.always_refuses();
            assert(may_refuse(case, refuses));
            if refuses {
                Ok(refusal_marker(&error))
            } else {
                Err(HarnessError::UnexpectedRefusal { context: context.copied(), error })
            }
        },
    }
}

/// Context of a trial of the third gate.
pub open spec fn repeat_context(name: Seq<char>, shape: Seq<usize>, seed: u64) -> ContextView {
    ContextView { name, gate: "determinism", shape, seed: Some(seed), index: None }
}

/// What two runs of a shape amount to: the failure of the first that failed, or
/// of the comparison of their bytes.
pub open spec fn repeat_outcome(
    first: Result<Seq<u8>, HarnessFault>,
    second: Result<Seq<u8>, HarnessFault>,
    context: ContextView,
) -> Result<(), HarnessFault> {
    match (first, second) {
        (Err(e), _) => Err(e),
        (Ok(_), Err(e)) => Err(e),
        (Ok(v), Ok(w)) => match bits_fault(v, w, context) {
            None => Ok(()),
            Some(e) => Err(e),
        },
    }
}

/// Value of the result of a run.
pub open spec fn run_view(r: Result<Vec<u8>, HarnessError>) -> Result<Seq<u8>, HarnessFault> {
    match r {
        Ok(v) => Ok(v@),
        Err(e) => Err(e@),
    }
}

/// Decides over two runs of a shape: they pass if and only if both gave bytes
/// and the bytes are the same.
pub fn repeat_verdict(
    first: Result<Vec<u8>, HarnessError>,
    second: Result<Vec<u8>, HarnessError>,
    context: &Context,
) -> (r: Result<(), HarnessError>)
    ensures
        trial(r) == repeat_outcome(run_view(first), run_view(second), context@),
        r is Ok <==> first is Ok && second is Ok && first->Ok_0@ == second->Ok_0@,
{
    let v = match first {
        Ok(v) => v,
        Err(e) => {
            return Err(e);
        },
    };
    let w = match second {
        Ok(w) => w,
        Err(e) => {
            return Err(e);
        },
    };
    proof {
        crate::harness::law_bits_equal(v@, w@, context@);
    }
    compare_bits(v.as_slice(), w.as_slice(), context)
}

/// Whether a run of a shape may have a result.
pub open spec fn run_may<C: GateCase + ?Sized>(
    case: &C,
    shape: Seq<usize>,
    seed: u64,
    context: ContextView,
    r: Result<Seq<u8>, HarnessFault>,
) -> bool {
    match r {
        Ok(v) => run_gives(case, shape, seed, v),
        Err(e) => run_fails(case, shape, seed, context, e),
    }
}

/// Whether two results that a run of a shape may have pass together. This says
/// what the results may be, not that every two runs agree: whether the two that
/// were made do is what [`repeat_verdict`] decides.
pub open spec fn repeats<C: GateCase + ?Sized>(case: &C, i: int) -> bool {
    let shape = case.shapes()[i];
    match case_seed_result(case.name(), i, 0) {
        Err(_) => false,
        Ok(seed) => {
            let context = repeat_context(case.name()@, shape, seed);
            exists|first: Result<Seq<u8>, HarnessFault>, second: Result<Seq<u8>, HarnessFault>|
                #![trigger repeat_outcome(first, second, context)]
                run_may(case, shape, seed, context, first) && run_may(
                    case,
                    shape,
                    seed,
                    context,
                    second,
                ) && repeat_outcome(first, second, context) is Ok
        },
    }
}

/// Whether two runs of a shape, of which the second is made only if the first
/// gives bytes, may fail with the given failure.
pub open spec fn repeat_fails<C: GateCase + ?Sized>(case: &C, i: int, e: HarnessFault) -> bool {
    let shape = case.shapes()[i];
    match case_seed_result(case.name(), i, 0) {
        Err(f) => e == f,
        Ok(seed) => {
            let context = repeat_context(case.name()@, shape, seed);
            ||| run_fails(case, shape, seed, context, e)
            ||| exists|first: Result<Seq<u8>, HarnessFault>, second: Result<Seq<u8>, HarnessFault>|
                #![trigger repeat_outcome(first, second, context)]
                run_may(case, shape, seed, context, first) && run_may(
                    case,
                    shape,
                    seed,
                    context,
                    second,
                ) && repeat_outcome(first, second, context) == Err::<(), HarnessFault>(e)
        },
    }
}

/// Third gate: two runs of every legal shape from fresh operands give the same
/// bytes.
pub fn deterministic<C: GateCase + ?Sized>(case: &C) -> (r: Result<(), HarnessError>)
    ensures
        case.shapes().len() == 0 ==> trial(r) == Err::<(), HarnessFault>(
            HarnessFault::NoLegalShapes { op: case.name() },
        ),
        case.shapes().len() > 0 ==> in_order(
            case.shapes().len() as int,
            |i: int| repeats(case, i),
            |i: int, e: HarnessFault| repeat_fails(case, i, e),
            trial(r),
        ),
{
    let shapes = case.legal_shapes();
    let ghost all = case.shapes();
    assert(all.len() == shapes@.len());
    if shapes.len() == 0 {
        return Err(HarnessError::NoLegalShapes { op: case.op_name() });
    }
    let ghost ok = |i: int| repeats(case, i);
    let ghost bad = |i: int, e: HarnessFault| repeat_fails(case, i, e);
    let mut i: usize = 0;
    while i < shapes.len()
        invariant
            i <= shapes@.len(),
            shape_views(shapes@) == all,
            all == case.shapes(),
            all.len() > 0,
            ok == (|i: int| repeats(case, i)),
            bad == (|i: int, e: HarnessFault| repeat_fails(case, i, e)),
            forall|t: int| 0 <= t < i ==> #[trigger] ok(t),
        decreases shapes@.len() - i,
    {
        assert(all[i as int] == shapes@[i as int]@);
        let seed: u64 = match case_seed(case.op_name(), i, 0) {
            Ok(s) => s,
            Err(e) => {
                assert(bad(i as int, e@));
                return Err(e);
            },
        };
        let context = Context {
            name: case.op_name().to_owned(),
            gate: "determinism",
            shape: to_vec(shapes[i].as_slice()),
            seed: Some(seed),
            index: None,
        };
        assert(context@ =~= repeat_context(case.name()@, all[i as int], seed));
        let first = match run_to_bytes(case, shapes[i].as_slice(), seed, &context) {
            Ok(v) => v,
            Err(e) => {
                assert(bad(i as int, e@));
                return Err(e);
            },
        };
        let second = run_to_bytes(case, shapes[i].as_slice(), seed, &context);
        let ghost one = Ok::<Seq<u8>, HarnessFault>(first@);
        let ghost two = run_view(second);
        assert(run_may(case, all[i as int], seed, context@, one));
        assert(run_may(case, all[i as int], seed, context@, two));
        match repeat_verdict(Ok(first), second, &context) {
            Ok(_) => {
                assert(repeat_outcome(one, two, context@) is Ok);
                assert(ok(i as int));
            },
            Err(e) => {
                assert(repeat_outcome(one, two, context@) == Err::<(), HarnessFault>(e@));
                assert(bad(i as int, e@));
                return Err(e);
            },
        }
        i += 1;
    }
    Ok(())
}

/// Seed of a further legal shape.
pub open spec fn fuzz_seed(name: &str, i: int) -> u64 {
    let n = LEGAL_FUZZ_DRAWS * 4096 + i;
    xxh3(
        seed_bytes(
            name,
            if n > u64::MAX {
                u64::MAX
            } else {
                n as u64
            },
            MASTER_SEED,
        ),
    )
}

/// Context of a further legal shape.
pub open spec fn fuzz_context(name: Seq<char>, shape: Seq<usize>, i: int) -> ContextView {
    ContextView { name, gate: "legal fuzz", shape, seed: None, index: Some(i as usize) }
}

/// Context of an illegal case.
pub open spec fn illegal_context(name: Seq<char>, i: int) -> ContextView {
    ContextView {
        name,
        gate: "illegal fuzz",
        shape: Seq::empty(),
        seed: None,
        index: Some(i as usize),
    }
}

/// Whether a trial of the last gate may pass: first the further legal shapes,
/// then the illegal cases, which must be refused.
pub open spec fn fuzz_passes<C: GateCase + ?Sized>(case: &C, t: int) -> bool {
    let n = case.more_shapes().len();
    if t < n {
        passes(case, case.more_shapes()[t], fuzz_seed(case.name(), t))
    } else {
        exists|b: GateBuffers, a: GateBuffers, x: Result<(), T0Error>|
            case.may_build_illegal((t - n) as usize, Ok(b)) && #[trigger] case.may_execute(
                b,
                a,
                x,
            ) && x is Err
    }
}

/// Whether a trial of the last gate may fail with the given failure.
pub open spec fn fuzz_fails<C: GateCase + ?Sized>(case: &C, t: int, e: HarnessFault) -> bool {
    let n = case.more_shapes().len();
    if t < n {
        let shape = case.more_shapes()[t];
        fails(case, shape, fuzz_seed(case.name(), t), fuzz_context(case.name()@, shape, t), e)
    } else {
        ||| exists|h: HarnessError| #[trigger]
            case.may_build_illegal((t - n) as usize, Err(h)) && h@ == e
        ||| exists|b: GateBuffers, a: GateBuffers, x: Result<(), T0Error>|
            case.may_build_illegal((t - n) as usize, Ok(b)) && #[trigger] case.may_execute(
                b,
                a,
                x,
            ) && x is Ok && e == (HarnessFault::MissingRefusal {
                context: illegal_context(case.name()@, t - n),
                detail: "illegal input ran successfully",
            })
    }
}

/// Last gate: further legal shapes run, and illegal cases are refused.
pub fn shape_fuzz<C: GateCase + ?Sized>(case: &C) -> (r: Result<(), HarnessError>)
    ensures
        in_order(
            case.more_shapes().len() + case.illegal(),
            |t: int| fuzz_passes(case, t),
            |t: int, e: HarnessFault| fuzz_fails(case, t, e),
            trial(r),
        ),
{
    let shapes = case.fuzz_legal();
    let ghost all = case.more_shapes();
    assert(all.len() == shapes@.len());
    let ghost ok = |t: int| fuzz_passes(case, t);
    let ghost bad = |t: int, e: HarnessFault| fuzz_fails(case, t, e);
    let mut i: usize = 0;
    while i < shapes.len()
        invariant
            i <= shapes@.len(),
            shape_views(shapes@) == all,
            all == case.more_shapes(),
            all.len() == shapes@.len(),
            ok == (|t: int| fuzz_passes(case, t)),
            bad == (|t: int, e: HarnessFault| fuzz_fails(case, t, e)),
            forall|t: int| 0 <= t < i ==> #[trigger] ok(t),
        decreases shapes@.len() - i,
    {
        assert(all[i as int] == shapes@[i as int]@);
        let base: u64 = LEGAL_FUZZ_DRAWS * 4096;
        let n: u64 = match base.checked_add(i as u64) {
            Some(n) => n,
            None => u64::MAX,
        };
        let seed: u64 = seed_for(case.op_name(), n, MASTER_SEED);
        let context = Context {
            name: case.op_name().to_owned(),
            gate: "legal fuzz",
            shape: to_vec(shapes[i].as_slice()),
            seed: None,
            index: Some(i),
        };
        assert(context@ =~= fuzz_context(case.name()@, all[i as int], i as int));
        match run_trial(case, shapes[i].as_slice(), seed, context) {
            Ok(_) => {
                assert(ok(i as int));
            },
            Err(e) => {
                assert(bad(i as int, e@));
                return Err(e);
            },
        }
        i += 1;
    }
    let count: usize = case.illegal_count();
    let mut k: usize = 0;
    while k < count
        invariant
            k <= count,
            count == case.illegal(),
            all == case.more_shapes(),
            ok == (|t: int| fuzz_passes(case, t)),
            bad == (|t: int, e: HarnessFault| fuzz_fails(case, t, e)),
            forall|t: int| 0 <= t < all.len() + k ==> #[trigger] ok(t),
        decreases count - k,
    {
        let ghost t = all.len() + k;
        let mut buffers = match case.build_illegal(k) {
            Ok(b) => b,
            Err(e) => {
                assert(case.may_build_illegal(k, Err(e)));
                assert(bad(t, e@));
                return Err(e);
            },
        };
        let ghost before = buffers;
        assert(case.may_build_illegal((t - all.len()) as usize, Ok(before)));
        let x = case.execute(&mut buffers);
        assert(case.may_execute(before, buffers, x));
        match x {
            Ok(_) => {
                let context = Context {
                    name: case.op_name().to_owned(),
                    gate: "illegal fuzz",
                    shape: Vec::new(),
                    seed: None,
                    index: Some(k),
                };
                assert(context@ =~= illegal_context(case.name()@, k as int));
                let e = HarnessError::MissingRefusal {
                    context,
                    detail: "illegal input ran successfully",
                };
                assert(bad(t, e@));
                return Err(e);
            },
            Err(_) => {
                assert(ok(t));
            },
        }
        k += 1;
    }
    Ok(())
}

/// Result of the first gate.
pub open spec fn golden_result<C: GateCase + ?Sized>(case: &C, r: Result<(), HarnessFault>) -> bool {
    if case.shapes().len() == 0 {
        r == Err::<(), HarnessFault>(HarnessFault::NoLegalShapes { op: case.name() })
    } else {
        in_order(
            case.shapes().len() as int * 32,
            |t: int| golden_passes(case, t),
            |t: int, e: HarnessFault| golden_fails(case, t, e),
            r,
        )
    }
}

/// Result of the third gate.
pub open spec fn repeat_result<C: GateCase + ?Sized>(case: &C, r: Result<(), HarnessFault>) -> bool {
    if case.shapes().len() == 0 {
        r == Err::<(), HarnessFault>(HarnessFault::NoLegalShapes { op: case.name() })
    } else {
        in_order(
            case.shapes().len() as int,
            |i: int| repeats(case, i),
            |i: int, e: HarnessFault| repeat_fails(case, i, e),
            r,
        )
    }
}

/// Result of the last gate.
pub open spec fn fuzz_result<C: GateCase + ?Sized>(case: &C, r: Result<(), HarnessFault>) -> bool {
    in_order(
        case.more_shapes().len() + case.illegal(),
        |t: int| fuzz_passes(case, t),
        |t: int, e: HarnessFault| fuzz_fails(case, t, e),
        r,
    )
}

/// All gates in order, up to the first that fails.
pub fn run_gates<C: GateCase + ?Sized>(case: &C) -> (r: Result<(), HarnessError>)
    ensures
        match trial(r) {
            Ok(_) => {
                &&& golden_result(case, Ok(()))
                &&& batches_agree(case, Ok(()))
                &&& repeat_result(case, Ok(()))
                &&& fuzz_result(case, Ok(()))
            },
            Err(e) => {
                ||| golden_result(case, Err(e))
                ||| golden_result(case, Ok(())) && batches_agree(case, Err(e))
                ||| golden_result(case, Ok(())) && batches_agree(case, Ok(())) && repeat_result(
                    case,
                    Err(e),
                )
                ||| golden_result(case, Ok(())) && batches_agree(case, Ok(())) && repeat_result(
                    case,
                    Ok(()),
                ) && fuzz_result(case, Err(e))
            },
        },
{
    match golden(case) {
        Ok(_) => {},
        Err(e) => {
            return Err(e);
        },
    }
    match batch_invariant(case) {
        Ok(_) => {},
        Err(e) => {
            return Err(e);
        },
    }
    match deterministic(case) {
        Ok(_) => {},
        Err(e) => {
            return Err(e);
        },
    }
    shape_fuzz(case)
}

/// Bytes of a buffer of singles.
pub fn f32_output_bytes(buf: &TypedBuffer, _context: &str) -> (r: Result<Vec<u8>, HarnessError>)
    requires
        buf.all_readable(),
    ensures
        r is Ok,
        r->Ok_0@ == word_bytes(Seq::new(buf@.count() as nat, |i: int| buf@.cells.f32_at(i))),
{
    Ok(words_to_bytes(buf.to_f32_vec().as_slice()))
}

/// Elements of a buffer as unsigned integers: as they are stored, or truncated.
pub open spec fn buffer_words(buf: TypedBuffer) -> Seq<u32> {
    if buf.dtype == DType::U32 && buf.u32_data@.len() > 0 {
        buf.u32_data@
    } else if buf.dtype == DType::U32 {
        Seq::new(buf@.count() as nat, |i: int| buf.word(i))
    } else {
        Seq::new(
            buf@.count() as nat,
            |i: int| int_of_f32(buf@.cells.f32_at(i), false, 0, 0xFFFF_FFFF) as u32,
        )
    }
}

/// Bytes of a buffer of unsigned integers.
pub fn u32_output_bytes(buf: &TypedBuffer, _context: &str) -> (r: Result<Vec<u8>, HarnessError>)
    requires
        extent(buf.shape@) is Some,
        buf.dtype != DType::U32 ==> buf.all_readable(),
    ensures
        r is Ok,
        r->Ok_0@ == word_bytes(buffer_words(*buf)),
{
    Ok(words_to_bytes(buf.to_u32_vec().as_slice()))
}

/// Bytes of signed bytes.
pub open spec fn signed_bytes(values: Seq<i8>) -> Seq<u8> {
    Seq::new(values.len(), |i: int| i8_as_byte(values[i]))
}

/// Bytes of a buffer of signed bytes.
pub fn i8_output_bytes(buf: &TypedBuffer, _context: &str) -> (r: Vec<u8>)
    requires
        extent(buf.shape@) is Some,
        buf.dtype != DType::I8 ==> buf.all_readable(),
    ensures
        r@ == signed_bytes(buf.signed_elements()),
{
    let values = buf.to_i8_vec();
    let mut out: Vec<u8> = Vec::new();
    let mut i: usize = 0;
    while i < values.len()
        invariant
            i <= values@.len(),
            out@.len() == i,
            forall|j: int| 0 <= j < i ==> out@[j] == i8_as_byte(values@[j]),
        decreases values@.len() - i,
    {
        out.push(unsigned_byte(values[i]));
        i += 1;
    }
    assert(out@ =~= signed_bytes(values@));
    out
}

/// Byte strings, one behind the other.
pub open spec fn joined(parts: Seq<Vec<u8>>) -> Seq<u8>
    decreases parts.len(),
{
    if parts.len() == 0 {
        Seq::empty()
    } else {
        joined(parts.drop_last()) + parts.last()@
    }
}

/// Bytes of all buffers, one behind the other.
pub fn concat_output_bytes<B: Fn(&TypedBuffer) -> Vec<u8>>(
    buffers: &[TypedBuffer],
    per_buffer: &B,
) -> (r: Vec<u8>)
    requires
        forall|i: int|
            0 <= i < buffers@.len() ==> per_buffer.requires((&#[trigger] buffers@[i],)),
    ensures
        exists|parts: Seq<Vec<u8>>|
            {
                &&& r@ == #[trigger] joined(parts)
                &&& parts.len() == buffers@.len()
                &&& forall|i: int|
                    0 <= i < parts.len() ==> per_buffer.ensures(
                        (&buffers@[i],),
                        #[trigger] parts[i],
                    )
            },
{
    let mut out: Vec<u8> = Vec::new();
    let ghost mut parts: Seq<Vec<u8>> = Seq::empty();
    let mut i: usize = 0;
    assert(out@ =~= joined(parts));
    while i < buffers.len()
        invariant
            i <= buffers@.len(),
            forall|j: int|
                0 <= j < buffers@.len() ==> per_buffer.requires((&#[trigger] buffers@[j],)),
            out@ == joined(parts),
            parts.len() == i,
            forall|j: int|
                0 <= j < parts.len() ==> per_buffer.ensures(
                    (&buffers@[j],),
                    #[trigger] parts[j],
                ),
        decreases buffers@.len() - i,
    {
        let mut v = per_buffer(&buffers[i]);
        proof {
            let before = parts;
            parts = parts.push(v);
            assert(parts.drop_last() =~= before);
        }
        out.append(&mut v);
        i += 1;
    }
    out
}

} // verus!
