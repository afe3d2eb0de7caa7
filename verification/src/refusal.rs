//! Refusals as bytes, so that two of them can be compared.
//!
//! An error is a list of tokens: the name of its variant, then its fields. A
//! refusal is the tokens' bytes behind a tag.
use vstd::prelude::*;
use vstd::string::StringSliceAdditionalSpecFns;
use crate::error::{Arg, Detail, DetailView, ErrorView, FormatError, IrError, T0Error};
use crate::harness::{le64, push_le64};
use crate::ir::{DType, LayoutId, QuantScheme, SchemeId, StateKind};

verus! {

/// A part of an error.
#[derive(Clone, Copy)]
pub enum Token {
    /// A text.
    Text(&'static str),
    /// A number.
    Word(u64),
}

/// Number of a value.
pub open spec fn dtype_number(v: DType) -> u64 {
    match v {
        DType::F32 => 0,
        DType::F16 => 1,
        DType::Bf16 => 2,
        DType::E4m3 => 3,
        DType::E5m2 => 4,
        DType::I8 => 5,
        DType::I32 => 6,
        DType::U32 => 7,
        DType::Bool => 8,
        DType::I4 => 9,
    }
}

fn number_dtype(v: DType) -> (r: u64)
    ensures
        r == dtype_number(v),
{
    match v {
        DType::F32 => 0,
        DType::F16 => 1,
        DType::Bf16 => 2,
        DType::E4m3 => 3,
        DType::E5m2 => 4,
        DType::I8 => 5,
        DType::I32 => 6,
        DType::U32 => 7,
        DType::Bool => 8,
        DType::I4 => 9,
    }
}

/// Number of a value.
pub open spec fn layout_number(v: LayoutId) -> u64 {
    match v {
        LayoutId::Contiguous => 0,
        LayoutId::L0 => 1,
        LayoutId::L1 => 2,
        LayoutId::L1s => 3,
        LayoutId::Other(n) => (4 + n) as u64,
    }
}

fn number_layout(v: LayoutId) -> (r: u64)
    ensures
        r == layout_number(v),
{
    match v {
        LayoutId::Contiguous => 0,
        LayoutId::L0 => 1,
        LayoutId::L1 => 2,
        LayoutId::L1s => 3,
        LayoutId::Other(n) => 4 + n as u64,
    }
}

/// Number of a value.
pub open spec fn scheme_number(v: SchemeId) -> u64 {
    match v {
        SchemeId::I8R => 0,
        SchemeId::I8B128 => 1,
        SchemeId::E4M3B128 => 2,
        SchemeId::I4K => 3,
        SchemeId::Reserved(n) => (0x1_0000 + n) as u64,
        SchemeId::Unknown(n) => (0x2_0000 + n) as u64,
    }
}

fn number_scheme(v: SchemeId) -> (r: u64)
    ensures
        r == scheme_number(v),
        r < 0x3_0000,
{
    match v {
        SchemeId::I8R => 0,
        SchemeId::I8B128 => 1,
        SchemeId::E4M3B128 => 2,
        SchemeId::I4K => 3,
        SchemeId::Reserved(n) => 0x1_0000 + n as u64,
        SchemeId::Unknown(n) => 0x2_0000 + n as u64,
    }
}

/// Number of a value.
pub open spec fn quant_number(v: QuantScheme) -> u64 {
    match v {
        QuantScheme::Unquantized => 0,
        QuantScheme::PerRow => 1,
        QuantScheme::PerToken => 2,
        QuantScheme::PerBlock32 => 3,
        QuantScheme::Scheme(s) => (4 + scheme_number(s)) as u64,
    }
}

fn number_quant(v: QuantScheme) -> (r: u64)
    ensures
        r == quant_number(v),
{
    match v {
        QuantScheme::Unquantized => 0,
        QuantScheme::PerRow => 1,
        QuantScheme::PerToken => 2,
        QuantScheme::PerBlock32 => 3,
        QuantScheme::Scheme(s) => 4 + number_scheme(s),
    }
}

/// Number of a value.
pub open spec fn state_number(v: StateKind) -> u64 {
    match v {
        StateKind::KvPaged => 0,
        StateKind::KvLatent => 1,
        StateKind::Recurrent => 2,
        StateKind::ConvWindow => 3,
    }
}

fn number_state(v: StateKind) -> (r: u64)
    ensures
        r == state_number(v),
{
    match v {
        StateKind::KvPaged => 0,
        StateKind::KvLatent => 1,
        StateKind::Recurrent => 2,
        StateKind::ConvWindow => 3,
    }
}

/// Tokens of a weight format's error.
pub open spec fn format_tokens(e: FormatError) -> Seq<Token> {
    match e {
        FormatError::UnknownScheme { id } => seq![Token::Text("UnknownScheme"), Token::Word(id as u64)],
        FormatError::ReservedScheme { id } => seq![
            Token::Text("ReservedScheme"),
            Token::Word(id as u64),
        ],
        FormatError::Overflow => seq![Token::Text("Overflow")],
        FormatError::Record { index } => seq![Token::Text("Record"), Token::Word(index)],
        FormatError::Geometry => seq![Token::Text("Geometry")],
    }
}

fn push_format(out: &mut Vec<Token>, e: FormatError)
    ensures
        final(out)@ == old(out)@ + format_tokens(e),
{
    match e {
        FormatError::UnknownScheme { id } => {
            out.push(Token::Text("UnknownScheme"));
            out.push(Token::Word(id as u64));
        },
        FormatError::ReservedScheme { id } => {
            out.push(Token::Text("ReservedScheme"));
            out.push(Token::Word(id as u64));
        },
        FormatError::Overflow => {
            out.push(Token::Text("Overflow"));
        },
        FormatError::Record { index } => {
            out.push(Token::Text("Record"));
            out.push(Token::Word(index));
        },
        FormatError::Geometry => {
            out.push(Token::Text("Geometry"));
        },
    }
    assert(out@ =~= old(out)@ + format_tokens(e));
}

/// Tokens of a quoted value.
pub open spec fn arg_tokens(a: Arg) -> Seq<Token> {
    match a {
        Arg::Int(v) => seq![Token::Text("Int"), Token::Word(v)],
        Arg::Real(v) => seq![Token::Text("Real"), Token::Word(v as u64)],
        Arg::Type(v) => seq![Token::Text("Type"), Token::Word(dtype_number(v))],
        Arg::Scheme(v) => seq![Token::Text("Scheme"), Token::Word(scheme_number(v))],
        Arg::Quant(v) => seq![Token::Text("Quant"), Token::Word(quant_number(v))],
        Arg::State(v) => seq![Token::Text("State"), Token::Word(state_number(v))],
        Arg::Flag(v) => seq![
            Token::Text("Flag"),
            Token::Word(
                if v {
                    1
                } else {
                    0
                },
            ),
        ],
    }
}

fn push_arg(out: &mut Vec<Token>, a: Arg)
    ensures
        final(out)@ == old(out)@ + arg_tokens(a),
{
    let (name, word): (&'static str, u64) = match a {
        Arg::Int(v) => ("Int", v),
        Arg::Real(v) => ("Real", v as u64),
        Arg::Type(v) => ("Type", number_dtype(v)),
        Arg::Scheme(v) => ("Scheme", number_scheme(v)),
        Arg::Quant(v) => ("Quant", number_quant(v)),
        Arg::State(v) => ("State", number_state(v)),
        Arg::Flag(v) => (
            "Flag",
            if v {
                1
            } else {
                0
            },
        ),
    };
    out.push(Token::Text(name));
    out.push(Token::Word(word));
    assert(out@ =~= old(out)@ + arg_tokens(a));
}

/// Tokens of the first quoted values.
pub open spec fn args_tokens(s: Seq<Arg>, n: int) -> Seq<Token>
    decreases n,
{
    if n <= 0 {
        Seq::empty()
    } else {
        args_tokens(s, n - 1) + arg_tokens(s[n - 1])
    }
}

/// A list: its length, then its members.
pub open spec fn word_tokens(s: Seq<usize>) -> Seq<Token> {
    seq![Token::Word(s.len() as u64)] + Seq::new(s.len(), |i: int| Token::Word(s[i] as u64))
}

fn push_words(out: &mut Vec<Token>, s: &Vec<usize>)
    ensures
        final(out)@ == old(out)@ + word_tokens(s@),
{
    out.push(Token::Word(s.len() as u64));
    let ghost mid = out@;
    for i in 0..s.len()
        invariant
            out@ =~= mid + Seq::new(i as nat, |i: int| Token::Word(s@[i] as u64)),
    {
        out.push(Token::Word(s[i] as u64));
    }
    assert(out@ =~= old(out)@ + word_tokens(s@));
}

/// A list: its length, then its members.
pub open spec fn dtype_tokens(s: Seq<DType>) -> Seq<Token> {
    seq![Token::Word(s.len() as u64)] + Seq::new(s.len(), |i: int| Token::Word(dtype_number(s[i])))
}

fn push_dtypes(out: &mut Vec<Token>, s: &Vec<DType>)
    ensures
        final(out)@ == old(out)@ + dtype_tokens(s@),
{
    out.push(Token::Word(s.len() as u64));
    let ghost mid = out@;
    for i in 0..s.len()
        invariant
            out@ =~= mid + Seq::new(i as nat, |i: int| Token::Word(dtype_number(s@[i]))),
    {
        out.push(Token::Word(number_dtype(s[i])));
    }
    assert(out@ =~= old(out)@ + dtype_tokens(s@));
}

/// A list: its length, then its members.
pub open spec fn quant_tokens(s: Seq<QuantScheme>) -> Seq<Token> {
    seq![Token::Word(s.len() as u64)] + Seq::new(s.len(), |i: int| Token::Word(quant_number(s[i])))
}

fn push_quants(out: &mut Vec<Token>, s: &Vec<QuantScheme>)
    ensures
        final(out)@ == old(out)@ + quant_tokens(s@),
{
    out.push(Token::Word(s.len() as u64));
    let ghost mid = out@;
    for i in 0..s.len()
        invariant
            out@ =~= mid + Seq::new(i as nat, |i: int| Token::Word(quant_number(s@[i]))),
    {
        out.push(Token::Word(number_quant(s[i])));
    }
    assert(out@ =~= old(out)@ + quant_tokens(s@));
}

/// A list: its length, then its members.
pub open spec fn layout_tokens(s: Seq<LayoutId>) -> Seq<Token> {
    seq![Token::Word(s.len() as u64)] + Seq::new(s.len(), |i: int| Token::Word(layout_number(s[i])))
}

fn push_layouts(out: &mut Vec<Token>, s: &Vec<LayoutId>)
    ensures
        final(out)@ == old(out)@ + layout_tokens(s@),
{
    out.push(Token::Word(s.len() as u64));
    let ghost mid = out@;
    for i in 0..s.len()
        invariant
            out@ =~= mid + Seq::new(i as nat, |i: int| Token::Word(layout_number(s@[i]))),
    {
        out.push(Token::Word(number_layout(s[i])));
    }
    assert(out@ =~= old(out)@ + layout_tokens(s@));
}

/// Tokens of a detail.
pub open spec fn detail_tokens(d: DetailView) -> Seq<Token> {
    seq![Token::Text(d.text), Token::Text(d.subject), Token::Word(d.args.len() as u64)]
        + args_tokens(d.args, d.args.len() as int) + word_tokens(d.dims)
}

fn push_detail(out: &mut Vec<Token>, d: &Detail)
    ensures
        final(out)@ == old(out)@ + detail_tokens(d@),
{
    out.push(Token::Text(d.text));
    out.push(Token::Text(d.subject));
    out.push(Token::Word(d.args.len() as u64));
    let ghost mid = out@;
    assert(mid + args_tokens(d.args@, 0) =~= mid);
    for i in 0..d.args.len()
        invariant
            out@ == mid + args_tokens(d.args@, i as int),
    {
        push_arg(out, d.args[i]);
        assert(out@ =~= mid + args_tokens(d.args@, i + 1));
    }
    push_words(out, &d.dims);
    assert(out@ =~= old(out)@ + detail_tokens(d@));
}

/// Tokens of an error.
pub open spec fn error_tokens(e: ErrorView) -> Seq<Token>
    decreases e, 0int,
{
    match e {
        ErrorView::Ir(e) => match e {
            IrError::GraphCycle { node } => seq![Token::Text("Ir"), Token::Word(node as u64)],
        },
        ErrorView::Format(e) => seq![Token::Text("Format")] + format_tokens(e),
        ErrorView::QuantMismatch { tensor, expected, got } => seq![Token::Text("QuantMismatch"), Token::Text(tensor)] + quant_tokens(expected) + seq![Token::Word(quant_number(got))],
        ErrorView::LayoutMismatch { tensor, expected, got } => seq![Token::Text("LayoutMismatch"), Token::Text(tensor)] + layout_tokens(expected) + seq![Token::Word(layout_number(got))],
        ErrorView::RowIndexOutOfRange { op, tensor, position, index, upper_bound } => seq![Token::Text("RowIndexOutOfRange"), Token::Text(op), Token::Text(tensor), Token::Word(position as u64), Token::Word(index as u64), Token::Word(upper_bound as u64)],
        ErrorView::ArithmeticOverflow { op, detail } => seq![Token::Text("ArithmeticOverflow"), Token::Text(op)] + detail_tokens(detail),
        ErrorView::RankMismatch { tensor, expected, got, shape } => seq![Token::Text("RankMismatch"), Token::Text(tensor), Token::Word(expected as u64), Token::Word(got as u64)] + word_tokens(shape),
        ErrorView::DTypeMismatch { tensor, expected, got } => seq![Token::Text("DTypeMismatch"), Token::Text(tensor)] + dtype_tokens(expected) + seq![Token::Word(dtype_number(got))],
        ErrorView::BufferLengthMismatch { tensor, buffer_len, expected_len, shape } => seq![Token::Text("BufferLengthMismatch"), Token::Text(tensor), Token::Word(buffer_len as u64), Token::Word(expected_len as u64)] + word_tokens(shape),
        ErrorView::DimensionMismatch { dim_name, expected_from, expected, tensor, got } => seq![Token::Text("DimensionMismatch"), Token::Text(dim_name), Token::Text(expected_from), Token::Word(expected as u64), Token::Text(tensor), Token::Word(got as u64)],
        ErrorView::InvalidAttribute { op, attribute, reason } => seq![Token::Text("InvalidAttribute"), Token::Text(op), Token::Text(attribute)] + detail_tokens(reason),
        ErrorView::MissingOperand { op, operand, detail } => seq![Token::Text("MissingOperand"), Token::Text(op), Token::Text(operand)] + detail_tokens(detail),
        ErrorView::UnsupportedCast { from, to } => seq![Token::Text("UnsupportedCast"), Token::Word(dtype_number(from)), Token::Word(dtype_number(to))],
        ErrorView::BackingRepresentationMismatch { op, dtype } => seq![Token::Text("BackingRepresentationMismatch"), Token::Text(op), Token::Word(dtype_number(dtype))],
        ErrorView::ShapeLengthMismatch { op, tensor, expected, got, detail } => seq![Token::Text("ShapeLengthMismatch"), Token::Text(op), Token::Text(tensor), Token::Word(expected as u64), Token::Word(got as u64)] + detail_tokens(detail),
        ErrorView::EmptyInput { op, tensor } => seq![Token::Text("EmptyInput"), Token::Text(op), Token::Text(tensor)],
        ErrorView::AllTokensMasked { seq, query, vocab_size } => seq![Token::Text("AllTokensMasked"), Token::Word(seq as u64), Token::Word(query as u64), Token::Word(vocab_size as u64)],
        ErrorView::InvalidDistribution { op, seq, pos, sum } => seq![Token::Text("InvalidDistribution"), Token::Text(op), Token::Word(seq as u64), Token::Word(pos as u64), Token::Word(sum as u64)],
        ErrorView::TokenOutOfRange { op, tensor, position, token, vocab_size } => seq![Token::Text("TokenOutOfRange"), Token::Text(op), Token::Text(tensor), Token::Word(position as u64), Token::Word(token as u64), Token::Word(vocab_size as u64)],
        ErrorView::InvalidProbability { op, seq, pos, token, value } => seq![Token::Text("InvalidProbability"), Token::Text(op), Token::Word(seq as u64), Token::Word(pos as u64), Token::Word(token as u64), Token::Word(value as u64)],
        ErrorView::InvalidLogit { op, seq, query, token, value } => seq![Token::Text("InvalidLogit"), Token::Text(op), Token::Word(seq as u64), Token::Word(query as u64), Token::Word(token as u64), Token::Word(value as u64)],
        ErrorView::SeqIdOutOfRange { op, seq_id, max } => seq![Token::Text("SeqIdOutOfRange"), Token::Text(op), Token::Word(seq_id), Token::Word(max)],
        ErrorView::DrawIndexOverflow { op, draw_index, advance } => seq![Token::Text("DrawIndexOverflow"), Token::Text(op), Token::Word(draw_index as u64), Token::Word(advance as u64)],
        ErrorView::InvalidTree { seq, detail } => seq![Token::Text("InvalidTree"), Token::Word(seq as u64)] + detail_tokens(detail),
        ErrorView::Multiple { problems } => seq![
            Token::Text("Multiple"),
            Token::Word(problems.len() as u64),
        ] + list_tokens(problems, problems.len() as int),
    }
}

/// Tokens of the first of several errors.
pub open spec fn list_tokens(problems: Seq<ErrorView>, n: int) -> Seq<Token>
    decreases problems, n,
    when n <= problems.len()
{
    if n <= 0 {
        Seq::empty()
    } else {
        list_tokens(problems, n - 1) + error_tokens(problems[n - 1])
    }
}

fn push_tokens(out: &mut Vec<Token>, error: &T0Error)
    ensures
        final(out)@ == old(out)@ + error_tokens(error.view()),
    decreases error,
{
    match error {
        T0Error::Ir(e) => match e {
            IrError::GraphCycle { node } => {
                out.push(Token::Text("Ir"));
                out.push(Token::Word(*node as u64));
            },
        },
        T0Error::Format(e) => {
            out.push(Token::Text("Format"));
            push_format(out, *e);
        },
        T0Error::QuantMismatch { tensor, expected, got } => {
            out.push(Token::Text("QuantMismatch"));
            out.push(Token::Text(*tensor));
            push_quants(out, expected);
            out.push(Token::Word(number_quant(*got)));
        },
        T0Error::LayoutMismatch { tensor, expected, got } => {
            out.push(Token::Text("LayoutMismatch"));
            out.push(Token::Text(*tensor));
            push_layouts(out, expected);
            out.push(Token::Word(number_layout(*got)));
        },
        T0Error::RowIndexOutOfRange { op, tensor, position, index, upper_bound } => {
            out.push(Token::Text("RowIndexOutOfRange"));
            out.push(Token::Text(*op));
            out.push(Token::Text(*tensor));
            out.push(Token::Word(*position as u64));
            out.push(Token::Word(*index as u64));
            out.push(Token::Word(*upper_bound as u64));
        },
        T0Error::ArithmeticOverflow { op, detail } => {
            out.push(Token::Text("ArithmeticOverflow"));
            out.push(Token::Text(*op));
            push_detail(out, detail);
        },
        T0Error::RankMismatch { tensor, expected, got, shape } => {
            out.push(Token::Text("RankMismatch"));
            out.push(Token::Text(*tensor));
            out.push(Token::Word(*expected as u64));
            out.push(Token::Word(*got as u64));
            push_words(out, shape);
        },
        T0Error::DTypeMismatch { tensor, expected, got } => {
            out.push(Token::Text("DTypeMismatch"));
            out.push(Token::Text(*tensor));
            push_dtypes(out, expected);
            out.push(Token::Word(number_dtype(*got)));
        },
        T0Error::BufferLengthMismatch { tensor, buffer_len, expected_len, shape } => {
            out.push(Token::Text("BufferLengthMismatch"));
            out.push(Token::Text(*tensor));
            out.push(Token::Word(*buffer_len as u64));
            out.push(Token::Word(*expected_len as u64));
            push_words(out, shape);
        },
        T0Error::DimensionMismatch { dim_name, expected_from, expected, tensor, got } => {
            out.push(Token::Text("DimensionMismatch"));
            out.push(Token::Text(*dim_name));
            out.push(Token::Text(*expected_from));
            out.push(Token::Word(*expected as u64));
            out.push(Token::Text(*tensor));
            out.push(Token::Word(*got as u64));
        },
        T0Error::InvalidAttribute { op, attribute, reason } => {
            out.push(Token::Text("InvalidAttribute"));
            out.push(Token::Text(*op));
            out.push(Token::Text(*attribute));
            push_detail(out, reason);
        },
        T0Error::MissingOperand { op, operand, detail } => {
            out.push(Token::Text("MissingOperand"));
            out.push(Token::Text(*op));
            out.push(Token::Text(*operand));
            push_detail(out, detail);
        },
        T0Error::UnsupportedCast { from, to } => {
            out.push(Token::Text("UnsupportedCast"));
            out.push(Token::Word(number_dtype(*from)));
            out.push(Token::Word(number_dtype(*to)));
        },
        T0Error::BackingRepresentationMismatch { op, dtype } => {
            out.push(Token::Text("BackingRepresentationMismatch"));
            out.push(Token::Text(*op));
            out.push(Token::Word(number_dtype(*dtype)));
        },
        T0Error::ShapeLengthMismatch { op, tensor, expected, got, detail } => {
            out.push(Token::Text("ShapeLengthMismatch"));
            out.push(Token::Text(*op));
            out.push(Token::Text(*tensor));
            out.push(Token::Word(*expected as u64));
            out.push(Token::Word(*got as u64));
            push_detail(out, detail);
        },
        T0Error::EmptyInput { op, tensor } => {
            out.push(Token::Text("EmptyInput"));
            out.push(Token::Text(*op));
            out.push(Token::Text(*tensor));
        },
        T0Error::AllTokensMasked { seq, query, vocab_size } => {
            out.push(Token::Text("AllTokensMasked"));
            out.push(Token::Word(*seq as u64));
            out.push(Token::Word(*query as u64));
            out.push(Token::Word(*vocab_size as u64));
        },
        T0Error::InvalidDistribution { op, seq, pos, sum } => {
            out.push(Token::Text("InvalidDistribution"));
            out.push(Token::Text(*op));
            out.push(Token::Word(*seq as u64));
            out.push(Token::Word(*pos as u64));
            out.push(Token::Word(*sum as u64));
        },
        T0Error::TokenOutOfRange { op, tensor, position, token, vocab_size } => {
            out.push(Token::Text("TokenOutOfRange"));
            out.push(Token::Text(*op));
            out.push(Token::Text(*tensor));
            out.push(Token::Word(*position as u64));
            out.push(Token::Word(*token as u64));
            out.push(Token::Word(*vocab_size as u64));
        },
        T0Error::InvalidProbability { op, seq, pos, token, value } => {
            out.push(Token::Text("InvalidProbability"));
            out.push(Token::Text(*op));
            out.push(Token::Word(*seq as u64));
            out.push(Token::Word(*pos as u64));
            out.push(Token::Word(*token as u64));
            out.push(Token::Word(*value as u64));
        },
        T0Error::InvalidLogit { op, seq, query, token, value } => {
            out.push(Token::Text("InvalidLogit"));
            out.push(Token::Text(*op));
            out.push(Token::Word(*seq as u64));
            out.push(Token::Word(*query as u64));
            out.push(Token::Word(*token as u64));
            out.push(Token::Word(*value as u64));
        },
        T0Error::SeqIdOutOfRange { op, seq_id, max } => {
            out.push(Token::Text("SeqIdOutOfRange"));
            out.push(Token::Text(*op));
            out.push(Token::Word(*seq_id));
            out.push(Token::Word(*max));
        },
        T0Error::DrawIndexOverflow { op, draw_index, advance } => {
            out.push(Token::Text("DrawIndexOverflow"));
            out.push(Token::Text(*op));
            out.push(Token::Word(*draw_index as u64));
            out.push(Token::Word(*advance as u64));
        },
        T0Error::InvalidTree { seq, detail } => {
            out.push(Token::Text("InvalidTree"));
            out.push(Token::Word(*seq as u64));
            push_detail(out, detail);
        },
        T0Error::Multiple { problems } => {
            out.push(Token::Text("Multiple"));
            out.push(Token::Word(problems.len() as u64));
            let ghost mid = out@;
            let ghost all = error.view()->problems;
            assert(mid + list_tokens(all, 0) =~= mid);
            for i in 0..problems.len()
                invariant
                    error == (&T0Error::Multiple { problems: *problems }),
                    all == error.view()->problems,
                    all.len() == problems@.len(),
                    out@ == mid + list_tokens(all, i as int),
                decreases problems@.len() - i,
            {
                push_tokens(out, &problems[i]);
                assert(all[i as int] == problems@[i as int].view());
                assert(out@ =~= mid + list_tokens(all, i + 1));
            }
        },
    }
    assert(out@ =~= old(out)@ + error_tokens(error.view()));
}

/// Bytes of a token: a text behind its length, or a number.
pub open spec fn token_bytes(t: Token) -> Seq<u8> {
    match t {
        Token::Text(s) => le64(s.spec_bytes().len() as u64) + s.spec_bytes(),
        Token::Word(w) => le64(w),
    }
}

/// Bytes of the first tokens.
pub open spec fn tokens_bytes(s: Seq<Token>, n: int) -> Seq<u8>
    decreases n,
{
    if n <= 0 {
        Seq::empty()
    } else {
        tokens_bytes(s, n - 1) + token_bytes(s[n - 1])
    }
}

/// Tag in front of every refusal: `refused:`.
pub open spec fn refusal_tag() -> Seq<u8> {
    seq![0x72u8, 0x65u8, 0x66u8, 0x75u8, 0x73u8, 0x65u8, 0x64u8, 0x3Au8]
}

/// Bytes of a refusal.
pub open spec fn refusal_bytes(e: ErrorView) -> Seq<u8> {
    let tokens = error_tokens(e);
    refusal_tag() + tokens_bytes(tokens, tokens.len() as int)
}

fn push_text(out: &mut Vec<u8>, s: &'static str)
    ensures
        final(out)@ == old(out)@ + s.spec_bytes(),
{
    let bytes = s.as_bytes();
    for i in 0..bytes.len()
        invariant
            out@ =~= old(out)@ + bytes@.take(i as int),
    {
        out.push(bytes[i]);
    }
    assert(bytes@.take(bytes@.len() as int) =~= bytes@);
}

/// Gives the bytes of a refusal.
pub fn refusal_marker(error: &T0Error) -> (r: Vec<u8>)
    ensures
        r@ == refusal_bytes(error.view()),
{
    let mut tokens: Vec<Token> = Vec::new();
    push_tokens(&mut tokens, error);
    assert(tokens@ =~= error_tokens(error.view()));
    let mut out: Vec<u8> = vec![0x72u8, 0x65u8, 0x66u8, 0x75u8, 0x73u8, 0x65u8, 0x64u8, 0x3Au8];
    assert(out@ =~= refusal_tag());
    for i in 0..tokens.len()
        invariant
            out@ =~= refusal_tag() + tokens_bytes(tokens@, i as int),
    {
        match tokens[i] {
            Token::Text(s) => {
                push_le64(&mut out, s.as_bytes().len() as u64);
                push_text(&mut out, s);
            },
            Token::Word(w) => {
                push_le64(&mut out, w);
            },
        }
    }
    out
}

} // verus!
