//! Comparison and seeding of kernel trials.
use vstd::prelude::*;
use vstd::string::StringSliceAdditionalSpecFns;
use crate::error::{ErrorView, FormatError, IrError, T0Error};
use crate::scheme_rows::FormatScheme;

verus! {

/// Seed that all trials share.
pub const MASTER_SEED: u64 = 0x4131_305F_5430_3075;

/// Trials per shape.
pub const CASES_PER_SHAPE: u64 = 32;

/// Largest token count of a bucket.
pub const MAX_BUCKET: usize = 4096;

/// Draws of further legal shapes.
pub const LEGAL_FUZZ_DRAWS: u64 = 8;

/// Where a trial failed.
#[derive(Debug)]
pub struct Context {
    /// Name of the trial, or of the op.
    pub name: String,
    /// Gate.
    pub gate: &'static str,
    /// Shape of the trial.
    pub shape: Vec<usize>,
    /// Seed of the trial.
    pub seed: Option<u64>,
    /// Index of the trial.
    pub index: Option<usize>,
}

/// Value of a [`Context`].
#[verifier::ext_equal]
pub struct ContextView {
    /// Name of the trial, or of the op.
    pub name: Seq<char>,
    /// Gate.
    pub gate: &'static str,
    /// Shape of the trial.
    pub shape: Seq<usize>,
    /// Seed of the trial.
    pub seed: Option<u64>,
    /// Index of the trial.
    pub index: Option<usize>,
}

impl View for Context {
    type V = ContextView;

    open spec fn view(&self) -> ContextView {
        ContextView {
            name: self.name@,
            gate: self.gate,
            shape: self.shape@,
            seed: self.seed,
            index: self.index,
        }
    }
}

/// Context that is only a name.
pub open spec fn named(name: Seq<char>) -> ContextView {
    ContextView { name, gate: "", shape: Seq::empty(), seed: None, index: None }
}

impl Context {
    /// Context that is only a name.
    pub fn named(name: &str) -> (r: Context)
        ensures
            r@ == named(name@),
    {
        let r = Context {
            name: name.to_owned(),
            gate: "",
            shape: Vec::new(),
            seed: None,
            index: None,
        };
        assert(r@ =~= named(name@));
        r
    }

    /// The same context once more.
    pub fn copied(&self) -> (r: Context)
        ensures
            r@ == self@,
    {
        let r = Context {
            name: self.name.as_str().to_owned(),
            gate: self.gate,
            shape: crate::error::to_vec(self.shape.as_slice()),
            seed: self.seed,
            index: self.index,
        };
        assert(r@ =~= self@);
        r
    }
}

/// Failure of a trial. Doubles are held by their bits.
#[derive(Debug)]
#[allow(inconsistent_fields)]
pub enum HarnessError {
    /// A value is too far from its reference.
    GoldenMismatch {
        /// Where.
        context: Context,
        /// Index of the element.
        index: usize,
        /// Observed value.
        actual: u64,
        /// Reference value.
        expected: u64,
        /// Absolute tolerance.
        abs: u64,
        /// Relative tolerance.
        rel: u64,
    },
    /// Two byte strings differ.
    BitMismatch {
        /// Where.
        context: Context,
        /// Index of the byte.
        index: usize,
        /// Observed byte.
        actual: u8,
        /// Expected byte.
        expected: u8,
    },
    /// Two lengths differ.
    LengthMismatch {
        /// Where.
        context: Context,
        /// Observed length.
        actual: usize,
        /// Expected length.
        expected: usize,
    },
    /// A size or counter is too large.
    ArithmeticOverflow {
        /// Where.
        context: Context,
        /// What overflowed.
        detail: &'static str,
    },
    /// A legal case was refused, or an illegal one accepted.
    FuzzVerdict {
        /// Where.
        context: Context,
        /// What went wrong.
        detail: &'static str,
    },
    /// Error of a kernel.
    T0(T0Error),
    /// Error of a weight format.
    Format(FormatError),
    /// Error of a graph.
    Ir(IrError),
    /// An op without a tolerance.
    UnknownOp {
        /// Name of the op.
        op: String,
    },
    /// A scheme that rows cannot be made for.
    UnsupportedScheme {
        /// The scheme.
        scheme: FormatScheme,
        /// Why.
        detail: &'static str,
    },
    /// Extents that do not suit a scheme.
    UnsupportedShape {
        /// Where.
        context: Context,
        /// What is wrong.
        detail: &'static str,
    },
    /// A legal case was refused.
    UnexpectedRefusal {
        /// Where.
        context: Context,
        /// The refusal.
        error: T0Error,
    },
    /// A case ran that must be refused.
    MissingRefusal {
        /// Where.
        context: Context,
        /// What ran.
        detail: &'static str,
    },
    /// A case without legal shapes.
    NoLegalShapes {
        /// Name of the op.
        op: &'static str,
    },
    /// A value that cannot be encoded.
    EncodeFailure {
        /// Where.
        context: Context,
        /// What could not be encoded.
        detail: &'static str,
    },
}

/// Value of a [`HarnessError`].
#[allow(inconsistent_fields)]
pub enum HarnessFault {
    /// See [`HarnessError::GoldenMismatch`].
    GoldenMismatch {
        context: ContextView,
        index: usize,
        actual: u64,
        expected: u64,
        abs: u64,
        rel: u64,
    },
    /// See [`HarnessError::BitMismatch`].
    BitMismatch { context: ContextView, index: usize, actual: u8, expected: u8 },
    /// See [`HarnessError::LengthMismatch`].
    LengthMismatch { context: ContextView, actual: usize, expected: usize },
    /// See [`HarnessError::ArithmeticOverflow`].
    ArithmeticOverflow { context: ContextView, detail: &'static str },
    /// See [`HarnessError::FuzzVerdict`].
    FuzzVerdict { context: ContextView, detail: &'static str },
    /// See [`HarnessError::T0`].
    T0(ErrorView),
    /// See [`HarnessError::Format`].
    Format(FormatError),
    /// See [`HarnessError::Ir`].
    Ir(IrError),
    /// See [`HarnessError::UnknownOp`].
    UnknownOp { op: Seq<char> },
    /// See [`HarnessError::UnsupportedScheme`].
    UnsupportedScheme { scheme: FormatScheme, detail: &'static str },
    /// See [`HarnessError::UnsupportedShape`].
    UnsupportedShape { context: ContextView, detail: &'static str },
    /// See [`HarnessError::UnexpectedRefusal`].
    UnexpectedRefusal { context: ContextView, error: ErrorView },
    /// See [`HarnessError::MissingRefusal`].
    MissingRefusal { context: ContextView, detail: &'static str },
    /// See [`HarnessError::NoLegalShapes`].
    NoLegalShapes { op: &'static str },
    /// See [`HarnessError::EncodeFailure`].
    EncodeFailure { context: ContextView, detail: &'static str },
}

impl View for HarnessError {
    type V = HarnessFault;

    open spec fn view(&self) -> HarnessFault {
        match self {
            HarnessError::GoldenMismatch { context, index, actual, expected, abs, rel } => {
                HarnessFault::GoldenMismatch {
                    context: context@,
                    index: *index,
                    actual: *actual,
                    expected: *expected,
                    abs: *abs,
                    rel: *rel,
                }
            },
            HarnessError::BitMismatch { context, index, actual, expected } => {
                HarnessFault::BitMismatch {
                    context: context@,
                    index: *index,
                    actual: *actual,
                    expected: *expected,
                }
            },
            HarnessError::LengthMismatch { context, actual, expected } => {
                HarnessFault::LengthMismatch {
                    context: context@,
                    actual: *actual,
                    expected: *expected,
                }
            },
            HarnessError::ArithmeticOverflow { context, detail } => {
                HarnessFault::ArithmeticOverflow { context: context@, detail: *detail }
            },
            HarnessError::FuzzVerdict { context, detail } => HarnessFault::FuzzVerdict {
                context: context@,
                detail: *detail,
            },
            HarnessError::T0(e) => HarnessFault::T0((*e).view()),
            HarnessError::Format(e) => HarnessFault::Format(*e),
            HarnessError::Ir(e) => HarnessFault::Ir(*e),
            HarnessError::UnknownOp { op } => HarnessFault::UnknownOp { op: op@ },
            HarnessError::UnsupportedScheme { scheme, detail } => {
                HarnessFault::UnsupportedScheme { scheme: *scheme, detail: *detail }
            },
            HarnessError::UnsupportedShape { context, detail } => HarnessFault::UnsupportedShape {
                context: context@,
                detail: *detail,
            },
            HarnessError::UnexpectedRefusal { context, error } => {
                HarnessFault::UnexpectedRefusal { context: context@, error: (*error).view() }
            },
            HarnessError::MissingRefusal { context, detail } => HarnessFault::MissingRefusal {
                context: context@,
                detail: *detail,
            },
            HarnessError::NoLegalShapes { op } => HarnessFault::NoLegalShapes { op: *op },
            HarnessError::EncodeFailure { context, detail } => HarnessFault::EncodeFailure {
                context: context@,
                detail: *detail,
            },
        }
    }
}

/// A result with its error replaced by the error's value.
pub open spec fn trial<T>(r: Result<T, HarnessError>) -> Result<T, HarnessFault> {
    match r {
        Ok(t) => Ok(t),
        Err(e) => Err(e@),
    }
}

/// Hash of bytes by the 64-bit variant of XXH3 with its default secret and seed
/// zero.
pub uninterp spec fn xxh3(bytes: Seq<u8>) -> u64;

/// Calls `xxhash_rust::xxh3::xxh3_64`. Its result is claimed to depend on the
/// bytes alone; what it is, is not stated.
#[verifier::external_body]
fn hash_bytes(bytes: &[u8]) -> (r: u64)
    ensures
        r == xxh3(bytes@),
{
    xxhash_rust::xxh3::xxh3_64(bytes)
}

/// The eight bytes of an integer, lowest first.
pub open spec fn le64(v: u64) -> Seq<u8> {
    seq![
        (v % 0x100) as u8,
        (v / 0x100 % 0x100) as u8,
        (v / 0x1_0000 % 0x100) as u8,
        (v / 0x100_0000 % 0x100) as u8,
        (v / 0x1_0000_0000 % 0x100) as u8,
        (v / 0x100_0000_0000 % 0x100) as u8,
        (v / 0x1_0000_0000_0000 % 0x100) as u8,
        (v / 0x100_0000_0000_0000 % 0x100) as u8,
    ]
}

/// Adds the eight bytes of an integer, lowest first.
pub fn push_le64(out: &mut Vec<u8>, v: u64)
    ensures
        final(out)@ == old(out)@ + le64(v),
{
    out.push((v % 0x100) as u8);
    out.push((v / 0x100 % 0x100) as u8);
    out.push((v / 0x1_0000 % 0x100) as u8);
    out.push((v / 0x100_0000 % 0x100) as u8);
    out.push((v / 0x1_0000_0000 % 0x100) as u8);
    out.push((v / 0x100_0000_0000 % 0x100) as u8);
    out.push((v / 0x1_0000_0000_0000 % 0x100) as u8);
    out.push((v / 0x100_0000_0000_0000 % 0x100) as u8);
    assert(out@ =~= old(out)@ + le64(v));
}

/// Tag in front of every seed's bytes: `a1.10` and a bar.
pub open spec fn seed_tag() -> Seq<u8> {
    seq![0x61u8, 0x31u8, 0x2Eu8, 0x31u8, 0x30u8, 0x7Cu8]
}

/// Bytes that the seed of a trial is the hash of: the tag, the name of the op, a
/// bar, the index of the trial and the master seed.
pub open spec fn seed_bytes(op_name: &str, case_idx: u64, master: u64) -> Seq<u8> {
    seed_tag() + op_name.spec_bytes() + seq![0x7Cu8] + le64(case_idx) + le64(master)
}

/// Writes the bytes that the seed of a trial is the hash of.
pub fn seed_input(op_name: &str, case_idx: u64, master: u64) -> (r: Vec<u8>)
    ensures
        r@ == seed_bytes(op_name, case_idx, master),
{
    let mut out: Vec<u8> = vec![0x61u8, 0x31u8, 0x2Eu8, 0x31u8, 0x30u8, 0x7Cu8];
    assert(out@ =~= seed_tag());
    let name = op_name.as_bytes();
    let mut i: usize = 0;
    while i < name.len()
        invariant
            i <= name@.len(),
            out@ =~= seed_tag() + name@.take(i as int),
        decreases name@.len() - i,
    {
        out.push(name[i]);
        i += 1;
    }
    assert(name@.take(i as int) =~= name@);
    out.push(0x7C);
    assert(out@ =~= seed_tag() + op_name.spec_bytes() + seq![0x7Cu8]);
    push_le64(&mut out, case_idx);
    push_le64(&mut out, master);
    out
}

/// Seed of a trial: the hash of its bytes.
pub fn seed_for(op_name: &str, case_idx: u64, master: u64) -> (r: u64)
    ensures
        r == xxh3(seed_bytes(op_name, case_idx, master)),
{
    let bytes = seed_input(op_name, case_idx, master);
    hash_bytes(bytes.as_slice())
}

/// Number of a trial of a shape among all trials of an op.
pub open spec fn case_number(op_name: Seq<char>, shape_idx: int, case_idx: int) -> Result<
    u64,
    HarnessFault,
> {
    if shape_idx * 32 + case_idx > u64::MAX {
        Err(
            HarnessFault::ArithmeticOverflow {
                context: named(op_name),
                detail: "shape_idx * CASES_PER_SHAPE + case_idx overflows u64",
            },
        )
    } else {
        Ok((shape_idx * 32 + case_idx) as u64)
    }
}

/// Seed of a trial of a shape, or the error of a number that is too large.
pub open spec fn case_seed_result(op_name: &str, shape_idx: int, case_idx: int) -> Result<
    u64,
    HarnessFault,
> {
    match case_number(op_name@, shape_idx, case_idx) {
        Err(e) => Err(e),
        Ok(n) => Ok(xxh3(seed_bytes(op_name, n, MASTER_SEED))),
    }
}

/// Computes the number of a trial of a shape.
pub fn case_index(op_name: &str, shape_idx: usize, case_idx: u64) -> (r: Result<u64, HarnessError>)
    ensures
        trial(r) == case_number(op_name@, shape_idx as int, case_idx as int),
{
    match (shape_idx as u64).checked_mul(CASES_PER_SHAPE) {
        Some(base) => match base.checked_add(case_idx) {
            Some(n) => {
                return Ok(n);
            },
            None => {},
        },
        None => {},
    }
    Err(
        HarnessError::ArithmeticOverflow {
            context: Context::named(op_name),
            detail: "shape_idx * CASES_PER_SHAPE + case_idx overflows u64",
        },
    )
}

/// Seed of a trial of a shape.
pub fn case_seed(op_name: &str, shape_idx: usize, case_idx: u64) -> (r: Result<u64, HarnessError>)
    ensures
        trial(r) == case_seed_result(op_name, shape_idx as int, case_idx as int),
{
    match case_index(op_name, shape_idx, case_idx) {
        Ok(n) => Ok(seed_for(op_name, n, MASTER_SEED)),
        Err(e) => Err(e),
    }
}

/// Different trials of shapes have different numbers.
pub proof fn law_cases_apart(
    op_name: Seq<char>,
    shape: int,
    case: int,
    other_shape: int,
    other_case: int,
)
    requires
        0 <= shape,
        0 <= case < CASES_PER_SHAPE,
        0 <= other_shape,
        0 <= other_case < CASES_PER_SHAPE,
        case_number(op_name, shape, case) is Ok,
        case_number(op_name, shape, case) == case_number(op_name, other_shape, other_case),
    ensures
        shape == other_shape,
        case == other_case,
{
}

/// Bytes of seeds differ wherever the trials or the master seeds do.
pub proof fn law_seed_bytes_apart(
    op_name: &str,
    case: u64,
    master: u64,
    other_case: u64,
    other_master: u64,
)
    requires
        seed_bytes(op_name, case, master) == seed_bytes(op_name, other_case, other_master),
    ensures
        case == other_case,
        master == other_master,
{
    let a = seed_bytes(op_name, case, master);
    let b = seed_bytes(op_name, other_case, other_master);
    let at = seed_tag().len() + op_name.spec_bytes().len() + 1;
    assert forall|i: int| 0 <= i < 8 implies le64(case)[i] == le64(other_case)[i] by {
        assert(a[at + i] == le64(case)[i]);
        assert(b[at + i] == le64(other_case)[i]);
    }
    assert forall|i: int| 0 <= i < 8 implies le64(master)[i] == le64(other_master)[i] by {
        assert(a[at + 8 + i] == le64(master)[i]);
        assert(b[at + 8 + i] == le64(other_master)[i]);
    }
    lemma_le64(case, other_case);
    lemma_le64(master, other_master);
}

/// An integer is determined by its bytes.
proof fn lemma_le64(a: u64, b: u64)
    requires
        forall|i: int| 0 <= i < 8 ==> le64(a)[i] == le64(b)[i],
    ensures
        a == b,
{
    assert(le64(a)[0] == le64(b)[0]);
    assert(le64(a)[1] == le64(b)[1]);
    assert(le64(a)[2] == le64(b)[2]);
    assert(le64(a)[3] == le64(b)[3]);
    assert(le64(a)[4] == le64(b)[4]);
    assert(le64(a)[5] == le64(b)[5]);
    assert(le64(a)[6] == le64(b)[6]);
    assert(le64(a)[7] == le64(b)[7]);
    assert(a == b) by (bit_vector)
        requires
            a % 0x100 == b % 0x100,
            a / 0x100 % 0x100 == b / 0x100 % 0x100,
            a / 0x1_0000 % 0x100 == b / 0x1_0000 % 0x100,
            a / 0x100_0000 % 0x100 == b / 0x100_0000 % 0x100,
            a / 0x1_0000_0000 % 0x100 == b / 0x1_0000_0000 % 0x100,
            a / 0x100_0000_0000 % 0x100 == b / 0x100_0000_0000 % 0x100,
            a / 0x1_0000_0000_0000 % 0x100 == b / 0x1_0000_0000_0000 % 0x100,
            a / 0x100_0000_0000_0000 % 0x100 == b / 0x100_0000_0000_0000 % 0x100,
    ;
}

/// First byte from `from` on in which two strings of one length differ.
pub open spec fn first_difference(a: Seq<u8>, b: Seq<u8>, from: int) -> Option<int>
    decreases a.len() - from,
{
    if from >= a.len() {
        None
    } else if a[from] != b[from] {
        Some(from)
    } else {
        first_difference(a, b, from + 1)
    }
}

/// The failure of two byte strings that should be equal.
pub open spec fn bits_fault(a: Seq<u8>, b: Seq<u8>, context: ContextView) -> Option<HarnessFault> {
    if a.len() != b.len() {
        Some(
            HarnessFault::LengthMismatch {
                context,
                actual: a.len() as usize,
                expected: b.len() as usize,
            },
        )
    } else {
        match first_difference(a, b, 0) {
            None => None,
            Some(i) => Some(
                HarnessFault::BitMismatch {
                    context,
                    index: i as usize,
                    actual: a[i],
                    expected: b[i],
                },
            ),
        }
    }
}

/// Compares two byte strings.
pub fn compare_bits(a: &[u8], b: &[u8], context: &Context) -> (r: Result<(), HarnessError>)
    ensures
        match bits_fault(a@, b@, context@) {
            None => r is Ok,
            Some(e) => r is Err && r->Err_0@ == e,
        },
{
    if a.len() != b.len() {
        return Err(
            HarnessError::LengthMismatch {
                context: context.copied(),
                actual: a.len(),
                expected: b.len(),
            },
        );
    }
    let mut i: usize = 0;
    while i < a.len()
        invariant
            i <= a@.len(),
            a@.len() == b@.len(),
            first_difference(a@, b@, 0) == first_difference(a@, b@, i as int),
        decreases a@.len() - i,
    {
        if a[i] != b[i] {
            return Err(
                HarnessError::BitMismatch {
                    context: context.copied(),
                    index: i,
                    actual: a[i],
                    expected: b[i],
                },
            );
        }
        i += 1;
    }
    Ok(())
}

/// Checks that two byte strings are equal; a failure names the first byte that
/// differs.
pub fn check_bits_equal(a: &[u8], b: &[u8], context: &str) -> (r: Result<(), HarnessError>)
    ensures
        match bits_fault(a@, b@, named(context@)) {
            None => r is Ok,
            Some(e) => r is Err && r->Err_0@ == e,
        },
{
    compare_bits(a, b, &Context::named(context))
}

/// Byte strings pass exactly if they are equal.
pub proof fn law_bits_equal(a: Seq<u8>, b: Seq<u8>, context: ContextView)
    ensures
        bits_fault(a, b, context) is None <==> a == b,
{
    if a.len() == b.len() {
        lemma_first_difference(a, b, 0);
        if first_difference(a, b, 0) is None {
            assert(a =~= b);
        }
    }
}

proof fn lemma_first_difference(a: Seq<u8>, b: Seq<u8>, from: int)
    requires
        a.len() == b.len(),
        0 <= from,
    ensures
        match first_difference(a, b, from) {
            None => forall|i: int| from <= i < a.len() ==> a[i] == b[i],
            Some(i) => from <= i < a.len() && a[i] != b[i] && forall|j: int|
                from <= j < i ==> a[j] == b[j],
        },
    decreases a.len() - from,
{
    if from < a.len() && a[from] == b[from] {
        lemma_first_difference(a, b, from + 1);
    }
}

/// Product of three extents.
pub fn checked_extent3(a: usize, b: usize, c: usize, context: &str) -> (r: Result<
    usize,
    HarnessError,
>)
    ensures
        trial(r) == if a * b > usize::MAX || a * b * c > usize::MAX {
            Err::<usize, HarnessFault>(
                HarnessFault::ArithmeticOverflow {
                    context: named(context@),
                    detail: "a * b * c overflows usize",
                },
            )
        } else {
            Ok((a * b * c) as usize)
        },
{
    match a.checked_mul(b) {
        Some(v) => match v.checked_mul(c) {
            Some(w) => {
                return Ok(w);
            },
            None => {},
        },
        None => {},
    }
    Err(
        HarnessError::ArithmeticOverflow {
            context: Context::named(context),
            detail: "a * b * c overflows usize",
        },
    )
}

/// Sum of two counters.
pub fn checked_add_u64(a: u64, b: u64, context: &str) -> (r: Result<u64, HarnessError>)
    ensures
        trial(r) == if a + b > u64::MAX {
            Err::<u64, HarnessFault>(
                HarnessFault::ArithmeticOverflow {
                    context: named(context@),
                    detail: "u64 counter overflows",
                },
            )
        } else {
            Ok((a + b) as u64)
        },
{
    match a.checked_add(b) {
        Some(v) => Ok(v),
        None => Err(
            HarnessError::ArithmeticOverflow {
                context: Context::named(context),
                detail: "u64 counter overflows",
            },
        ),
    }
}

/// Token counts at the edges of buckets: a single token, one more than a bucket
/// of 4, one more than a bucket of 32, and the largest bucket.
pub fn bucket_edge_counts() -> (r: [usize; 4])
    ensures
        r@ =~= seq![1usize, 5, 33, MAX_BUCKET],
{
    [1, 5, 33, MAX_BUCKET]
}

/// The tolerance that was looked up for an op, or the error of an op without
/// one.
pub fn tolerance_for<T>(op_name: &str, row: Option<T>) -> (r: Result<T, HarnessError>)
    ensures
        trial(r) == match row {
            Some(t) => Ok::<T, HarnessFault>(t),
            None => Err(HarnessFault::UnknownOp { op: op_name@ }),
        },
{
    match row {
        Some(t) => Ok(t),
        None => Err(HarnessError::UnknownOp { op: op_name.to_owned() }),
    }
}

/// The four bytes of each single, lowest first.
pub open spec fn word_bytes(values: Seq<u32>) -> Seq<u8>
    decreases values.len(),
{
    if values.len() == 0 {
        Seq::empty()
    } else {
        word_bytes(values.drop_last()) + le_word(values.last())
    }
}

/// The four bytes of a word, lowest first.
pub open spec fn le_word(v: u32) -> Seq<u8> {
    seq![
        (v % 0x100) as u8,
        (v / 0x100 % 0x100) as u8,
        (v / 0x1_0000 % 0x100) as u8,
        (v / 0x100_0000) as u8,
    ]
}

/// Writes the bytes of words.
pub fn words_to_bytes(values: &[u32]) -> (r: Vec<u8>)
    ensures
        r@ == word_bytes(values@),
{
    let mut out: Vec<u8> = Vec::new();
    let mut i: usize = 0;
    while i < values.len()
        invariant
            i <= values@.len(),
            out@ == word_bytes(values@.take(i as int)),
        decreases values@.len() - i,
    {
        let ghost before = out@;
        let v: u32 = values[i];
        out.push((v % 0x100) as u8);
        out.push((v / 0x100 % 0x100) as u8);
        out.push((v / 0x1_0000 % 0x100) as u8);
        out.push((v / 0x100_0000) as u8);
        assert(values@.take(i + 1).drop_last() =~= values@.take(i as int));
        assert(out@ =~= before + le_word(v));
        i += 1;
    }
    assert(values@.take(i as int) =~= values@);
    out
}

/// The failure of asking for a row that a matrix does not have.
pub open spec fn row_fault(total: int, row: int, cols: int, context: ContextView) -> Option<
    HarnessFault,
> {
    if cols == 0 {
        Some(HarnessFault::ArithmeticOverflow { context, detail: "column count is zero" })
    } else if total % cols != 0 {
        Some(
            HarnessFault::LengthMismatch {
                context,
                actual: total as usize,
                expected: (total - total % cols) as usize,
            },
        )
    } else if row >= total / cols {
        Some(
            HarnessFault::LengthMismatch {
                context,
                actual: row as usize,
                expected: (total / cols) as usize,
            },
        )
    } else {
        None
    }
}

/// Bytes of one row of a matrix of singles.
pub fn logical_row_bytes(full: &[u32], row: usize, cols: usize, context: &str) -> (r: Result<
    Vec<u8>,
    HarnessError,
>)
    ensures
        match row_fault(full@.len() as int, row as int, cols as int, named(context@)) {
            Some(e) => r is Err && r->Err_0@ == e,
            None => r is Ok && r->Ok_0@ == word_bytes(
                full@.subrange(row * cols, row * cols + cols),
            ),
        },
{
    let total: usize = full.len();
    if cols == 0 {
        return Err(
            HarnessError::ArithmeticOverflow {
                context: Context::named(context),
                detail: "column count is zero",
            },
        );
    }
    if total % cols != 0 {
        proof {
            vstd::arithmetic::div_mod::lemma_mod_decreases(total as nat, cols as nat);
        }
        return Err(
            HarnessError::LengthMismatch {
                context: Context::named(context),
                actual: total,
                expected: total - total % cols,
            },
        );
    }
    let rows: usize = total / cols;
    if row >= rows {
        return Err(
            HarnessError::LengthMismatch {
                context: Context::named(context),
                actual: row,
                expected: rows,
            },
        );
    }
    proof {
        vstd::arithmetic::div_mod::lemma_fundamental_div_mod(total as int, cols as int);
        assert(row * cols + cols <= total && 0 <= row * cols) by (nonlinear_arith)
            requires
                0 <= row < rows,
                total == cols * rows,
                0 < cols,
        ;
    }
    let start: usize = row * cols;
    Ok(words_to_bytes(vstd::slice::slice_subrange(full, start, start + cols)))
}

} // verus!
