//! The field interpreter: resolves offsets and lengths, reads typed values out of a
//! buffer, and expands a schema into one row per field occurrence.
use vstd::prelude::*;
use crate::ast::{copy_opt_string, copy_opt_when, Endianness, FieldDef, FieldItem, FieldType, IntExpr, IntExprOp, LengthSpec, OffsetKind, RepeatInfo, Schema, StructInstanceDef, StructureDef, WhenCondition, WhenOp};
use crate::buffer::{FileBuffer, range_fits};
use crate::error::{BufferError, InterpretError, interpret_error_text};
use crate::text::{decimal, u64_to_decimal};

verus! {

/// A value read from the buffer. A 32-bit float is carried as its IEEE-754 bit pattern.
#[derive(Debug, Clone)]
pub enum FieldValue {
    UInt(u64),
    Int(i64),
    Float(u32),
    Bytes(Vec<u8>),
    Ascii(String),
}

/// The mathematical content of a [`FieldValue`].
pub enum FieldValueView {
    UInt(u64),
    Int(i64),
    Float(u32),
    Bytes(Seq<u8>),
    Ascii(Seq<char>),
}

impl View for FieldValue {
    type V = FieldValueView;

    open spec fn view(&self) -> FieldValueView {
        match self {
            FieldValue::UInt(v) => FieldValueView::UInt(*v),
            FieldValue::Int(v) => FieldValueView::Int(*v),
            FieldValue::Float(v) => FieldValueView::Float(*v),
            FieldValue::Bytes(b) => FieldValueView::Bytes(b@),
            FieldValue::Ascii(s) => FieldValueView::Ascii(s@),
        }
    }
}

/// The numeric value a field contributes to later references.
#[derive(Debug, Clone, Copy, PartialEq, Eq, Structural)]
pub enum NumericContextValue {
    Unsigned(u64),
    Signed(i64),
}

/// What a successfully read field contributes to later references.
#[derive(Debug, Clone, Copy, PartialEq, Eq, Structural)]
pub enum ContextValue {
    Numeric(NumericContextValue),
    NonNumeric,
}

/// One named value known to later fields.
#[derive(Debug)]
pub struct ContextEntry {
    pub name: String,
    pub value: ContextValue,
}

/// The values known so far, in the order they were read; a later entry hides an earlier
/// one of the same name.
pub type Context = Seq<(Seq<char>, ContextValue)>;

/// The context an interpreter holds as entries.
pub open spec fn context_view(entries: Seq<ContextEntry>) -> Context {
    entries.map_values(|e: ContextEntry| (e.name@, e.value))
}

/// The most recent value recorded under `name`.
pub open spec fn ctx_lookup(ctx: Context, name: Seq<char>) -> Option<ContextValue>
    decreases ctx.len(),
{
    if ctx.len() == 0 {
        None
    } else if ctx.last().0 == name {
        Some(ctx.last().1)
    } else {
        ctx_lookup(ctx.drop_last(), name)
    }
}

/// What a read value contributes to the context.
pub open spec fn context_value_of(v: FieldValueView) -> ContextValue {
    match v {
        FieldValueView::UInt(u) => ContextValue::Numeric(NumericContextValue::Unsigned(u)),
        FieldValueView::Int(i) => ContextValue::Numeric(NumericContextValue::Signed(i)),
        _ => ContextValue::NonNumeric,
    }
}

/// Looks up the most recent value recorded under `name`.
pub fn lookup_context(entries: &Vec<ContextEntry>, name: &String) -> (r: Option<ContextValue>)
    ensures
        r == ctx_lookup(context_view(entries@), name@),
{
    let ghost ctx = context_view(entries@);
    let mut i = entries.len();
    assert(ctx.subrange(0, i as int) =~= ctx);
    while i > 0
        invariant
            i <= entries.len(),
            ctx == context_view(entries@),
            ctx_lookup(ctx, name@) == ctx_lookup(ctx.subrange(0, i as int), name@),
        decreases i,
    {
        let ghost sub = ctx.subrange(0, i as int);
        assert(sub.drop_last() =~= ctx.subrange(0, i - 1));
        if crate::text::str_equal(entries[i - 1].name.as_str(), name.as_str()) {
            return Some(entries[i - 1].value);
        }
        i -= 1;
    }
    assert(ctx.subrange(0, 0).len() == 0);
    None
}

/// The value a reference inside an expression stands for.
pub open spec fn spec_expression_reference(name: String, ctx: Context) -> Result<i64, InterpretError> {
    match ctx_lookup(ctx, name@) {
        None => Err(InterpretError::MissingExpressionReference { field: name }),
        Some(ContextValue::NonNumeric) => Err(InterpretError::InvalidExpressionReferenceType { field: name }),
        Some(ContextValue::Numeric(NumericContextValue::Unsigned(v))) =>
            if v <= i64::MAX { Ok(v as i64) } else { Err(InterpretError::ExpressionReferenceOverflow { field: name }) },
        Some(ContextValue::Numeric(NumericContextValue::Signed(v))) => Ok(v),
    }
}

/// The value of an integer expression, with `i64` overflow as an error.
pub open spec fn spec_eval_int_expr(expr: IntExpr, ctx: Context) -> Result<i64, InterpretError>
    decreases expr,
{
    match expr {
        IntExpr::Const { value } => Ok(value),
        IntExpr::FieldRef { field } => spec_expression_reference(field, ctx),
        IntExpr::Binary { op, left, right } => match spec_eval_int_expr(*left, ctx) {
            Err(e) => Err(e),
            Ok(l) => match spec_eval_int_expr(*right, ctx) {
                Err(e) => Err(e),
                Ok(r) => {
                    let v: int = match op {
                        IntExprOp::Add => l + r,
                        IntExprOp::Sub => l - r,
                    };
                    if i64::MIN <= v <= i64::MAX { Ok(v as i64) } else { Err(InterpretError::ExpressionOverflow) }
                },
            },
        },
    }
}

fn resolve_expression_reference(referenced: &String, entries: &Vec<ContextEntry>) -> (r: Result<i64, InterpretError>)
    ensures
        r == spec_expression_reference(*referenced, context_view(entries@)),
{
    match lookup_context(entries, referenced) {
        None => Err(InterpretError::MissingExpressionReference { field: referenced.clone() }),
        Some(ContextValue::NonNumeric) => Err(InterpretError::InvalidExpressionReferenceType { field: referenced.clone() }),
        Some(ContextValue::Numeric(NumericContextValue::Unsigned(v))) => {
            if v <= i64::MAX as u64 {
                Ok(v as i64)
            } else {
                Err(InterpretError::ExpressionReferenceOverflow { field: referenced.clone() })
            }
        },
        Some(ContextValue::Numeric(NumericContextValue::Signed(v))) => Ok(v),
    }
}

/// Evaluates an integer expression against the values read so far.
pub fn eval_int_expr(expr: &IntExpr, entries: &Vec<ContextEntry>) -> (r: Result<i64, InterpretError>)
    ensures
        r == spec_eval_int_expr(*expr, context_view(entries@)),
    decreases expr,
{
    match expr {
        IntExpr::Const { value } => Ok(*value),
        IntExpr::FieldRef { field } => resolve_expression_reference(field, entries),
        IntExpr::Binary { op, left, right } => {
            let l = eval_int_expr(left, entries)?;
            let r = eval_int_expr(right, entries)?;
            match op {
                IntExprOp::Add => {
                    if (r > 0 && l > i64::MAX - r) || (r < 0 && l < i64::MIN - r) {
                        Err(InterpretError::ExpressionOverflow)
                    } else {
                        Ok(l + r)
                    }
                },
                IntExprOp::Sub => {
                    if (r < 0 && l > i64::MAX + r) || (r > 0 && l < i64::MIN + r) {
                        Err(InterpretError::ExpressionOverflow)
                    } else {
                        Ok(l - r)
                    }
                },
            }
        },
    }
}

/// The length a dynamic length reference stands for.
pub open spec fn spec_dynamic_length(name: String, ctx: Context) -> Result<usize, InterpretError> {
    match ctx_lookup(ctx, name@) {
        None => Err(InterpretError::MissingLengthReference { field: name }),
        Some(ContextValue::NonNumeric) => Err(InterpretError::InvalidLengthReferenceType { field: name }),
        Some(ContextValue::Numeric(NumericContextValue::Unsigned(v))) =>
            if v <= usize::MAX { Ok(v as usize) } else { Err(InterpretError::LengthOverflow { field: name }) },
        Some(ContextValue::Numeric(NumericContextValue::Signed(v))) =>
            if v < 0 { Err(InterpretError::NegativeLengthReference { field: name }) }
            else if v <= usize::MAX { Ok(v as usize) }
            else { Err(InterpretError::LengthOverflow { field: name }) },
    }
}

/// The offset a dynamic offset reference stands for.
pub open spec fn spec_dynamic_offset(name: String, ctx: Context) -> Result<u64, InterpretError> {
    match ctx_lookup(ctx, name@) {
        None => Err(InterpretError::MissingOffsetReference { field: name }),
        Some(ContextValue::NonNumeric) => Err(InterpretError::InvalidOffsetReferenceType { field: name }),
        Some(ContextValue::Numeric(NumericContextValue::Unsigned(v))) => Ok(v),
        Some(ContextValue::Numeric(NumericContextValue::Signed(v))) =>
            if v < 0 { Err(InterpretError::NegativeOffsetReference { field: name }) } else { Ok(v as u64) },
    }
}

/// The length an expression length stands for: positive and within `usize`.
pub open spec fn spec_length_expr(expr: IntExpr, ctx: Context) -> Result<usize, InterpretError> {
    match spec_eval_int_expr(expr, ctx) {
        Err(e) => Err(e),
        Ok(v) => if v < 0 { Err(InterpretError::NegativeExpressionLength) }
            else if v == 0 { Err(InterpretError::ZeroExpressionLength) }
            else if v <= usize::MAX { Ok(v as usize) }
            else { Err(InterpretError::ExpressionLengthOverflow) },
    }
}

/// The offset an expression offset stands for: non-negative.
pub open spec fn spec_offset_expr(expr: IntExpr, ctx: Context) -> Result<u64, InterpretError> {
    match spec_eval_int_expr(expr, ctx) {
        Err(e) => Err(e),
        Ok(v) => if v < 0 { Err(InterpretError::NegativeExpressionOffset) } else { Ok(v as u64) },
    }
}

/// The byte width of a numeric field type, or `None` for `bytes` and `ascii`.
pub open spec fn numeric_width(ty: FieldType) -> Option<usize> {
    match ty {
        FieldType::U8 => Some(1usize),
        FieldType::U16 => Some(2usize),
        FieldType::U32 | FieldType::I32 | FieldType::F32 => Some(4usize),
        FieldType::U64 => Some(8usize),
        FieldType::Bytes | FieldType::Ascii => None,
    }
}

/// The byte length of a field whose length needs no earlier values.
pub open spec fn spec_fixed_field_byte_len(field: FieldDef) -> Result<usize, InterpretError> {
    match numeric_width(field.ty) {
        Some(w) => Ok(w),
        None => match field.length {
            Some(LengthSpec::Literal(l)) =>
                if l <= usize::MAX { Ok(l as usize) } else { Err(InterpretError::LengthOverflow { field: field.name }) },
            Some(LengthSpec::FieldRef { .. }) | Some(LengthSpec::Expr { .. }) => Err(InterpretError::Unsupported),
            None => Ok(0usize),
        },
    }
}

/// The byte length of a field, given the values read so far.
pub open spec fn spec_field_byte_len(field: FieldDef, ctx: Context) -> Result<usize, InterpretError> {
    match numeric_width(field.ty) {
        Some(w) => Ok(w),
        None => match field.length {
            Some(LengthSpec::Literal(l)) =>
                if l <= usize::MAX { Ok(l as usize) } else { Err(InterpretError::LengthOverflow { field: field.name }) },
            Some(LengthSpec::FieldRef { field: r }) => spec_dynamic_length(r, ctx),
            Some(LengthSpec::Expr { expr }) => spec_length_expr(expr, ctx),
            None => Ok(0usize),
        },
    }
}

/// Where an offset points, given the values read so far and the base of the enclosing
/// structure instance, if any.
pub open spec fn spec_offset(offset: OffsetKind, ctx: Context, base: Option<u64>) -> Result<u64, InterpretError> {
    match offset {
        OffsetKind::Absolute(o) => Ok(o),
        OffsetKind::Relative(r) => match base {
            None => Err(InterpretError::RelativeOffsetWithoutBase),
            Some(b) => if b + r <= u64::MAX { Ok((b + r) as u64) } else { Err(InterpretError::OffsetOverflow) },
        },
        OffsetKind::FieldRef(r) => spec_dynamic_offset(r, ctx),
        OffsetKind::Expr(e) => spec_offset_expr(e, ctx),
    }
}

/// Where occurrence `index` of a field starts: its base offset plus `index` times its
/// fixed byte length.
pub open spec fn spec_repeated_offset(field: FieldDef, index: u64, ctx: Context, base: Option<u64>) -> Result<u64, InterpretError> {
    match spec_offset(field.offset, ctx, base) {
        Err(e) => Err(e),
        Ok(b) => if index == 0 { Ok(b) } else {
            match spec_fixed_field_byte_len(field) {
                Err(e) => Err(e),
                Ok(stride) => if b + index * stride <= u64::MAX {
                    Ok((b + index * stride) as u64)
                } else {
                    Err(InterpretError::OffsetOverflow)
                },
            }
        },
    }
}

fn resolve_dynamic_length(referenced: &String, entries: &Vec<ContextEntry>) -> (r: Result<usize, InterpretError>)
    ensures
        r == spec_dynamic_length(*referenced, context_view(entries@)),
{
    match lookup_context(entries, referenced) {
        None => Err(InterpretError::MissingLengthReference { field: referenced.clone() }),
        Some(ContextValue::NonNumeric) => Err(InterpretError::InvalidLengthReferenceType { field: referenced.clone() }),
        Some(ContextValue::Numeric(NumericContextValue::Unsigned(v))) => {
            if v <= usize::MAX as u64 {
                Ok(v as usize)
            } else {
                Err(InterpretError::LengthOverflow { field: referenced.clone() })
            }
        },
        Some(ContextValue::Numeric(NumericContextValue::Signed(v))) => {
            if v < 0 {
                Err(InterpretError::NegativeLengthReference { field: referenced.clone() })
            } else if v as u64 <= usize::MAX as u64 {
                Ok(v as usize)
            } else {
                Err(InterpretError::LengthOverflow { field: referenced.clone() })
            }
        },
    }
}

fn resolve_dynamic_offset(referenced: &String, entries: &Vec<ContextEntry>) -> (r: Result<u64, InterpretError>)
    ensures
        r == spec_dynamic_offset(*referenced, context_view(entries@)),
{
    match lookup_context(entries, referenced) {
        None => Err(InterpretError::MissingOffsetReference { field: referenced.clone() }),
        Some(ContextValue::NonNumeric) => Err(InterpretError::InvalidOffsetReferenceType { field: referenced.clone() }),
        Some(ContextValue::Numeric(NumericContextValue::Unsigned(v))) => Ok(v),
        Some(ContextValue::Numeric(NumericContextValue::Signed(v))) => {
            if v < 0 {
                Err(InterpretError::NegativeOffsetReference { field: referenced.clone() })
            } else {
                Ok(v as u64)
            }
        },
    }
}

fn resolve_length_expr(expr: &IntExpr, entries: &Vec<ContextEntry>) -> (r: Result<usize, InterpretError>)
    ensures
        r == spec_length_expr(*expr, context_view(entries@)),
{
    let value = eval_int_expr(expr, entries)?;
    if value < 0 {
        return Err(InterpretError::NegativeExpressionLength);
    }
    if value == 0 {
        return Err(InterpretError::ZeroExpressionLength);
    }
    if value as u64 > usize::MAX as u64 {
        return Err(InterpretError::ExpressionLengthOverflow);
    }
    Ok(value as usize)
}

fn resolve_offset_expr(expr: &IntExpr, entries: &Vec<ContextEntry>) -> (r: Result<u64, InterpretError>)
    ensures
        r == spec_offset_expr(*expr, context_view(entries@)),
{
    let value = eval_int_expr(expr, entries)?;
    if value < 0 {
        return Err(InterpretError::NegativeExpressionOffset);
    }
    Ok(value as u64)
}

fn fixed_field_byte_len(field: &FieldDef) -> (r: Result<usize, InterpretError>)
    ensures
        r == spec_fixed_field_byte_len(*field),
{
    match field.ty {
        FieldType::U8 => Ok(1),
        FieldType::U16 => Ok(2),
        FieldType::U32 | FieldType::I32 | FieldType::F32 => Ok(4),
        FieldType::U64 => Ok(8),
        FieldType::Bytes | FieldType::Ascii => match &field.length {
            Some(LengthSpec::Literal(length)) => {
                if *length <= usize::MAX as u64 {
                    Ok(*length as usize)
                } else {
                    Err(InterpretError::LengthOverflow { field: field.name.clone() })
                }
            },
            Some(LengthSpec::FieldRef { .. }) => Err(InterpretError::Unsupported),
            Some(LengthSpec::Expr { .. }) => Err(InterpretError::Unsupported),
            None => Ok(0),
        },
    }
}

fn resolve_field_byte_len(field: &FieldDef, entries: &Vec<ContextEntry>) -> (r: Result<usize, InterpretError>)
    ensures
        r == spec_field_byte_len(*field, context_view(entries@)),
{
    match field.ty {
        FieldType::Bytes | FieldType::Ascii => match &field.length {
            Some(LengthSpec::Literal(length)) => {
                if *length <= usize::MAX as u64 {
                    Ok(*length as usize)
                } else {
                    Err(InterpretError::LengthOverflow { field: field.name.clone() })
                }
            },
            Some(LengthSpec::FieldRef { field: referenced }) => resolve_dynamic_length(referenced, entries),
            Some(LengthSpec::Expr { expr }) => resolve_length_expr(expr, entries),
            None => Ok(0),
        },
        _ => fixed_field_byte_len(field),
    }
}

fn resolve_offset(offset: &OffsetKind, entries: &Vec<ContextEntry>, base: Option<u64>) -> (r: Result<u64, InterpretError>)
    ensures
        r == spec_offset(*offset, context_view(entries@), base),
{
    match offset {
        OffsetKind::Absolute(o) => Ok(*o),
        OffsetKind::Relative(rel) => match base {
            None => Err(InterpretError::RelativeOffsetWithoutBase),
            Some(b) => {
                if b > u64::MAX - *rel {
                    Err(InterpretError::OffsetOverflow)
                } else {
                    Ok(b + *rel)
                }
            },
        },
        OffsetKind::FieldRef(referenced) => resolve_dynamic_offset(referenced, entries),
        OffsetKind::Expr(expr) => resolve_offset_expr(expr, entries),
    }
}

fn resolve_repeated_offset(field: &FieldDef, index: u64, entries: &Vec<ContextEntry>, base: Option<u64>) -> (r: Result<u64, InterpretError>)
    ensures
        r == spec_repeated_offset(*field, index, context_view(entries@), base),
{
    let base_offset = resolve_offset(&field.offset, entries, base)?;
    if index == 0 {
        return Ok(base_offset);
    }
    let stride = fixed_field_byte_len(field)? as u64;
    let repeated = match index.checked_mul(stride) {
        Some(v) => v,
        None => {
            proof {
                assert(index * stride > u64::MAX);
                assert(base_offset + index * stride > u64::MAX);
            }
            return Err(InterpretError::OffsetOverflow);
        },
    };
    match base_offset.checked_add(repeated) {
        Some(v) => Ok(v),
        None => Err(InterpretError::OffsetOverflow),
    }
}

/// The unsigned value of bytes read least significant first.
pub open spec fn le_value(s: Seq<u8>) -> nat
    decreases s.len(),
{
    if s.len() == 0 { 0 } else { (s[0] as nat) + 256 * le_value(s.drop_first()) }
}

/// The unsigned value of bytes read most significant first.
pub open spec fn be_value(s: Seq<u8>) -> nat
    decreases s.len(),
{
    if s.len() == 0 { 0 } else { be_value(s.drop_last()) * 256 + (s.last() as nat) }
}

/// The unsigned value of bytes in the given byte order.
pub open spec fn bytes_value(s: Seq<u8>, e: Endianness) -> nat {
    match e {
        Endianness::Little => le_value(s),
        Endianness::Big => be_value(s),
    }
}

/// 256 to the power `n`.
pub open spec fn pow256(n: nat) -> nat
    decreases n,
{
    if n == 0 { 1 } else { 256 * pow256((n - 1) as nat) }
}

proof fn lemma_pow256_mono(a: nat, b: nat)
    requires
        a <= b,
    ensures
        pow256(a) <= pow256(b),
    decreases b,
{
    if a < b {
        lemma_pow256_mono(a, (b - 1) as nat);
    }
}

proof fn lemma_pow256_8()
    ensures
        pow256(8) == 0x1_0000_0000_0000_0000,
{
    reveal_with_fuel(pow256, 9);
}

/// The two's-complement reading of a 32-bit pattern.
pub open spec fn as_signed32(v: nat) -> int {
    if v < 0x8000_0000 { v as int } else { v - 0x1_0000_0000 }
}

/// The unsigned value of at most eight bytes in the given byte order.
fn read_unsigned(bytes: &[u8], endianness: Endianness) -> (v: u64)
    requires
        bytes@.len() <= 8,
    ensures
        v as nat == bytes_value(bytes@, endianness),
{
    let n = bytes.len();
    let mut acc: u64 = 0;
    proof { lemma_pow256_8(); }
    match endianness {
        Endianness::Little => {
            let mut i = n;
            assert(bytes@.subrange(n as int, n as int).len() == 0);
            while i > 0
                invariant
                    i <= n,
                    n == bytes@.len(),
                    n <= 8,
                    pow256(8) == 0x1_0000_0000_0000_0000,
                    acc as nat == le_value(bytes@.subrange(i as int, n as int)),
                    (acc as nat) < pow256((n - i) as nat),
                decreases i,
            {
                let ghost k = (n - i) as nat;
                proof { lemma_pow256_mono(k + 1, 8); }
                let ghost next = bytes@.subrange(i - 1, n as int);
                assert(next.drop_first() =~= bytes@.subrange(i as int, n as int));
                acc = acc * 256 + bytes[i - 1] as u64;
                i -= 1;
            }
            assert(bytes@.subrange(0, n as int) =~= bytes@);
        },
        Endianness::Big => {
            let mut i: usize = 0;
            assert(bytes@.subrange(0, 0).len() == 0);
            while i < n
                invariant
                    i <= n,
                    n == bytes@.len(),
                    n <= 8,
                    pow256(8) == 0x1_0000_0000_0000_0000,
                    acc as nat == be_value(bytes@.subrange(0, i as int)),
                    (acc as nat) < pow256(i as nat),
                decreases n - i,
            {
                proof { lemma_pow256_mono((i + 1) as nat, 8); }
                let ghost next = bytes@.subrange(0, i + 1);
                assert(next.drop_last() =~= bytes@.subrange(0, i as int));
                acc = acc * 256 + bytes[i] as u64;
                i += 1;
            }
            assert(bytes@.subrange(0, n as int) =~= bytes@);
        },
    }
    acc
}

fn width_error(expected: usize, actual: usize) -> (e: InterpretError)
    ensures
        e == (InterpretError::InvalidNumericByteWidth { expected, actual }),
{
    InterpretError::InvalidNumericByteWidth { expected, actual }
}

/// A `u16` from exactly two bytes.
pub fn read_u16(bytes: &[u8], endianness: Endianness) -> (r: Result<u16, InterpretError>)
    ensures
        bytes@.len() == 2 ==> r == Ok::<u16, InterpretError>(bytes_value(bytes@, endianness) as u16)
            && bytes_value(bytes@, endianness) < 0x1_0000,
        bytes@.len() != 2 ==> r == Err::<u16, InterpretError>(
            InterpretError::InvalidNumericByteWidth { expected: 2, actual: bytes@.len() as usize }),
{
    if bytes.len() != 2 {
        return Err(width_error(2, bytes.len()));
    }
    let v = read_unsigned(bytes, endianness);
    proof {
        reveal_with_fuel(le_value, 3);
        reveal_with_fuel(be_value, 3);
    }
    Ok(v as u16)
}

/// A `u32` from exactly four bytes.
pub fn read_u32(bytes: &[u8], endianness: Endianness) -> (r: Result<u32, InterpretError>)
    ensures
        bytes@.len() == 4 ==> r == Ok::<u32, InterpretError>(bytes_value(bytes@, endianness) as u32)
            && bytes_value(bytes@, endianness) < 0x1_0000_0000,
        bytes@.len() != 4 ==> r == Err::<u32, InterpretError>(
            InterpretError::InvalidNumericByteWidth { expected: 4, actual: bytes@.len() as usize }),
{
    if bytes.len() != 4 {
        return Err(width_error(4, bytes.len()));
    }
    let v = read_unsigned(bytes, endianness);
    proof {
        reveal_with_fuel(le_value, 5);
        reveal_with_fuel(be_value, 5);
    }
    Ok(v as u32)
}

/// A `u64` from exactly eight bytes.
pub fn read_u64(bytes: &[u8], endianness: Endianness) -> (r: Result<u64, InterpretError>)
    ensures
        bytes@.len() == 8 ==> r == Ok::<u64, InterpretError>(bytes_value(bytes@, endianness) as u64),
        bytes@.len() != 8 ==> r == Err::<u64, InterpretError>(
            InterpretError::InvalidNumericByteWidth { expected: 8, actual: bytes@.len() as usize }),
{
    if bytes.len() != 8 {
        return Err(width_error(8, bytes.len()));
    }
    let v = read_unsigned(bytes, endianness);
    Ok(v)
}

/// An `i32` (two's complement) from exactly four bytes.
pub fn read_i32(bytes: &[u8], endianness: Endianness) -> (r: Result<i32, InterpretError>)
    ensures
        bytes@.len() == 4 ==> (r matches Ok(v) && v as int == as_signed32(bytes_value(bytes@, endianness))),
        bytes@.len() != 4 ==> r == Err::<i32, InterpretError>(
            InterpretError::InvalidNumericByteWidth { expected: 4, actual: bytes@.len() as usize }),
{
    let u = read_u32(bytes, endianness)?;
    if u < 0x8000_0000 {
        Ok(u as i32)
    } else {
        Ok((u as i64 - 0x1_0000_0000i64) as i32)
    }
}

/// The characters of `bytes` read as UTF-8, with each invalid sequence replaced by U+FFFD.
pub uninterp spec fn utf8_lossy(bytes: Seq<u8>) -> Seq<char>;

/// The text of an ascii field holding `bytes`: the decoded characters when the bytes are
/// valid UTF-8, else their lossy decoding.
pub open spec fn ascii_field_text(bytes: Seq<u8>) -> Seq<char> {
    if vstd::utf8::valid_utf8(bytes) { vstd::utf8::decode_utf8(bytes) } else { utf8_lossy(bytes) }
}

/// `String::from_utf8_lossy`, owned. Claims the result is the named lossy decoding of the
/// bytes, and, for valid UTF-8 input, exactly the decoded characters.
#[verifier::external_body]
fn decode_utf8_lossy(bytes: &[u8]) -> (s: String)
    ensures
        s@ == utf8_lossy(bytes@),
        vstd::utf8::valid_utf8(bytes@) ==> s@ == vstd::utf8::decode_utf8(bytes@),
{
    String::from_utf8_lossy(bytes).to_string()
}

/// A copy of a byte slice (`<[u8]>::to_vec`).
#[verifier::external_body]
fn bytes_to_vec(bytes: &[u8]) -> (v: Vec<u8>)
    ensures
        v@ == bytes@,
{
    bytes.to_vec()
}

/// The byte order a field is read in: its own, else the schema's, else little endian.
pub open spec fn effective_endianness(field: Option<Endianness>, schema: Option<Endianness>) -> Endianness {
    match field {
        Some(e) => e,
        None => match schema {
            Some(e) => e,
            None => Endianness::Little,
        },
    }
}

/// A numeric value of the given byte width, or the width error.
pub open spec fn spec_width_check(bytes: Seq<u8>, width: usize) -> Option<InterpretError> {
    if bytes.len() != width {
        Some(InterpretError::InvalidNumericByteWidth { expected: width, actual: bytes.len() as usize })
    } else {
        None
    }
}

/// The value a field of type `ty` holds in `bytes`.
pub open spec fn spec_decode_value(bytes: Seq<u8>, ty: FieldType, e: Endianness) -> Result<FieldValueView, InterpretError> {
    match ty {
        FieldType::Bytes => Ok(FieldValueView::Bytes(bytes)),
        FieldType::Ascii => Ok(FieldValueView::Ascii(ascii_field_text(bytes))),
        _ => {
            let w = numeric_width(ty).unwrap();
            match spec_width_check(bytes, w) {
                Some(err) => Err(err),
                None => {
                    let v = bytes_value(bytes, e);
                    match ty {
                        FieldType::I32 => Ok(FieldValueView::Int(as_signed32(v) as i64)),
                        FieldType::F32 => Ok(FieldValueView::Float(v as u32)),
                        _ => Ok(FieldValueView::UInt(v as u64)),
                    }
                },
            }
        },
    }
}

/// The value read for `field` from `data` at `offset` over `len` bytes.
pub open spec fn spec_read_value(data: Seq<u8>, field: FieldDef, schema_e: Option<Endianness>, offset: u64, len: usize) -> Result<FieldValueView, InterpretError> {
    if !range_fits(data.len(), offset, len) {
        Err(InterpretError::Buffer(BufferError::OutOfBounds))
    } else {
        spec_decode_value(data.subrange(offset as int, offset + len), field.ty, effective_endianness(field.endianness, schema_e))
    }
}

/// The view of a read result.
pub open spec fn value_result_view(r: Result<FieldValue, InterpretError>) -> Result<FieldValueView, InterpretError> {
    match r {
        Ok(v) => Ok(v@),
        Err(e) => Err(e),
    }
}

fn decode_value(bytes: &[u8], ty: FieldType, e: Endianness) -> (r: Result<FieldValue, InterpretError>)
    ensures
        value_result_view(r) == spec_decode_value(bytes@, ty, e),
{
    match ty {
        FieldType::U8 => {
            if bytes.len() != 1 {
                return Err(width_error(1, bytes.len()));
            }
            proof { reveal_with_fuel(le_value, 2); reveal_with_fuel(be_value, 2); }
            let v = read_unsigned(bytes, e);
            Ok(FieldValue::UInt(v))
        },
        FieldType::U16 => {
            let v = read_u16(bytes, e)?;
            Ok(FieldValue::UInt(v as u64))
        },
        FieldType::U32 => {
            let v = read_u32(bytes, e)?;
            Ok(FieldValue::UInt(v as u64))
        },
        FieldType::U64 => {
            let v = read_u64(bytes, e)?;
            Ok(FieldValue::UInt(v))
        },
        FieldType::I32 => {
            let v = read_i32(bytes, e)?;
            Ok(FieldValue::Int(v as i64))
        },
        FieldType::F32 => {
            let v = read_u32(bytes, e)?;
            Ok(FieldValue::Float(v))
        },
        FieldType::Bytes => Ok(FieldValue::Bytes(bytes_to_vec(bytes))),
        FieldType::Ascii => Ok(FieldValue::Ascii(decode_utf8_lossy(bytes))),
    }
}

fn interpret_field_at<B: FileBuffer + ?Sized>(
    buffer: &B,
    field: &FieldDef,
    schema_endianness: Option<Endianness>,
    offset: u64,
    len: usize,
) -> (r: Result<FieldValue, InterpretError>)
    ensures
        value_result_view(r) == spec_read_value(buffer.contents(), *field, schema_endianness, offset, len),
{
    let bytes = match buffer.read_bytes(offset, len) {
        Ok(b) => b,
        Err(e) => return Err(InterpretError::Buffer(e)),
    };
    let endianness = match field.endianness {
        Some(e) => e,
        None => match schema_endianness {
            Some(e) => e,
            None => Endianness::Little,
        },
    };
    decode_value(bytes, field.ty, endianness)
}

/// The value of a single field read without any earlier values: its length, then its
/// offset, then the bytes.
pub open spec fn spec_interpret_field(data: Seq<u8>, field: FieldDef, schema_e: Option<Endianness>) -> Result<FieldValueView, InterpretError> {
    match spec_field_byte_len(field, Seq::empty()) {
        Err(e) => Err(e),
        Ok(len) => match spec_offset(field.offset, Seq::empty(), None) {
            Err(e) => Err(e),
            Ok(offset) => spec_read_value(data, field, schema_e, offset, len),
        },
    }
}

/// The schema-level byte order, if a schema is given.
pub open spec fn schema_endianness_of(schema: Option<&Schema>) -> Option<Endianness> {
    match schema {
        Some(s) => s.endianness,
        None => None,
    }
}

/// Reads one field on its own. The field's byte order wins over the schema's, which wins
/// over little endian.
pub fn interpret_field<B: FileBuffer + ?Sized>(
    buffer: &B,
    field: &FieldDef,
    schema: Option<&Schema>,
) -> (r: Result<FieldValue, InterpretError>)
    ensures
        value_result_view(r) == spec_interpret_field(buffer.contents(), *field, schema_endianness_of(schema)),
{
    let entries: Vec<ContextEntry> = Vec::new();
    proof { assert(context_view(entries@) =~= Seq::<(Seq<char>, ContextValue)>::empty()); }
    let len = resolve_field_byte_len(field, &entries)?;
    let offset = resolve_offset(&field.offset, &entries, None)?;
    let schema_endianness = match schema {
        Some(s) => s.endianness,
        None => None,
    };
    interpret_field_at(buffer, field, schema_endianness, offset, len)
}

/// One interpreted field occurrence.
#[derive(Debug)]
pub struct FieldEval {
    pub field: FieldDef,
    pub display_name: String,
    pub resolved_offset: u64,
    pub offset_valid: bool,
    pub byte_len: usize,
    pub value: Option<FieldValue>,
    pub error: Option<String>,
}

/// The mathematical content of a [`FieldEval`].
pub struct FieldEvalView {
    pub field: FieldDef,
    pub display_name: Seq<char>,
    pub resolved_offset: u64,
    pub offset_valid: bool,
    pub byte_len: usize,
    pub value: Option<FieldValueView>,
    pub error: Option<Seq<char>>,
}

impl View for FieldEval {
    type V = FieldEvalView;

    open spec fn view(&self) -> FieldEvalView {
        FieldEvalView {
            field: self.field,
            display_name: self.display_name@,
            resolved_offset: self.resolved_offset,
            offset_valid: self.offset_valid,
            byte_len: self.byte_len,
            value: match self.value {
                Some(v) => Some(v@),
                None => None,
            },
            error: match self.error {
                Some(e) => Some(e@),
                None => None,
            },
        }
    }
}

/// The rows of an interpretation as views.
pub open spec fn rows_view(rows: Seq<FieldEval>) -> Seq<FieldEvalView> {
    rows.map_values(|r: FieldEval| r@)
}

/// The rows produced so far and the values later fields may refer to.
pub struct InterpState {
    pub rows: Seq<FieldEvalView>,
    pub ctx: Context,
}

/// The state held by a row list and a context list.
pub open spec fn state_of(rows: Seq<FieldEval>, entries: Seq<ContextEntry>) -> InterpState {
    InterpState { rows: rows_view(rows), ctx: context_view(entries) }
}

/// A row that carries an error and no value.
pub open spec fn error_row(field: FieldDef, display: Seq<char>, offset: u64, offset_valid: bool, len: usize, e: InterpretError) -> FieldEvalView {
    FieldEvalView {
        field,
        display_name: display,
        resolved_offset: offset,
        offset_valid,
        byte_len: len,
        value: None,
        error: Some(interpret_error_text(e)),
    }
}

/// A row that carries a value.
pub open spec fn value_row(field: FieldDef, display: Seq<char>, offset: u64, len: usize, v: FieldValueView) -> FieldEvalView {
    FieldEvalView {
        field,
        display_name: display,
        resolved_offset: offset,
        offset_valid: true,
        byte_len: len,
        value: Some(v),
        error: None,
    }
}

/// `st` with one more row.
pub open spec fn with_row(st: InterpState, row: FieldEvalView) -> InterpState {
    InterpState { rows: st.rows.push(row), ctx: st.ctx }
}

/// The name of occurrence `index`: `root[index]` for repeated items, `root` otherwise.
pub open spec fn display_for(root: Seq<char>, repeated: bool, index: nat) -> Seq<char> {
    if repeated { root + "["@ + decimal(index) + "]"@ } else { root }
}

/// How many occurrences an item has.
pub open spec fn occurrence_count(r: Option<RepeatInfo>) -> nat {
    match r {
        Some(r) => r.count as nat,
        None => 1,
    }
}

/// `v` halved `n` times, rounding down.
pub open spec fn shift_down(v: nat, n: nat) -> nat
    decreases n,
{
    if n == 0 { v } else { shift_down(v, (n - 1) as nat) / 2 }
}

/// The numeric value of a context value as an integer.
pub open spec fn numeric_int(n: NumericContextValue) -> int {
    match n {
        NumericContextValue::Unsigned(u) => u as int,
        NumericContextValue::Signed(s) => s as int,
    }
}

/// Whether a condition holds for the values read so far.
pub open spec fn spec_condition(cond: WhenCondition, ctx: Context) -> Result<bool, InterpretError> {
    match ctx_lookup(ctx, cond.field@) {
        None => Err(InterpretError::MissingConditionReference { field: cond.field }),
        Some(ContextValue::NonNumeric) => Err(InterpretError::InvalidConditionReferenceType { field: cond.field }),
        Some(ContextValue::Numeric(n)) => match cond.op {
            WhenOp::Equals(v) => Ok(numeric_int(n) == v as int),
            WhenOp::NotEquals(v) => Ok(numeric_int(n) != v as int),
            WhenOp::BitSet(b) => if numeric_int(n) < 0 {
                Err(InterpretError::NegativeBitSetConditionSource { field: cond.field })
            } else {
                Ok(shift_down(numeric_int(n) as nat, b as nat) % 2 == 1)
            },
        },
    }
}

/// The state after occurrence `index` of `field`.
pub open spec fn occurrence_step(data: Seq<u8>, se: Option<Endianness>, field: FieldDef, root: Seq<char>, base: Option<u64>, index: nat, st: InterpState) -> InterpState {
    let display = display_for(root, field.repeat is Some, index);
    match spec_repeated_offset(field, index as u64, st.ctx, base) {
        Err(e) => with_row(st, error_row(field, display, 0, false, 0, e)),
        Ok(off) => match spec_field_byte_len(field, st.ctx) {
            Err(e) => with_row(st, error_row(field, display, off, true, 0, e)),
            Ok(len) => match spec_read_value(data, field, se, off, len) {
                Ok(v) => InterpState {
                    rows: st.rows.push(value_row(field, display, off, len, v)),
                    ctx: st.ctx.push((display, context_value_of(v))),
                },
                Err(e) => with_row(st, error_row(field, display, off, true, len, e)),
            },
        },
    }
}

/// The state after the first `n` occurrences of `field`.
pub open spec fn occurrences(data: Seq<u8>, se: Option<Endianness>, field: FieldDef, root: Seq<char>, base: Option<u64>, n: nat, st: InterpState) -> InterpState
    decreases n,
{
    if n == 0 {
        st
    } else {
        occurrence_step(data, se, field, root, base, (n - 1) as nat, occurrences(data, se, field, root, base, (n - 1) as nat, st))
    }
}

/// The state after a scalar field: nothing when its condition is false, one error row when
/// the condition cannot be decided, else one row per occurrence.
pub open spec fn spec_field_state(data: Seq<u8>, se: Option<Endianness>, field: FieldDef, root: Seq<char>, base: Option<u64>, st: InterpState) -> InterpState {
    match field.when {
        None => occurrences(data, se, field, root, base, occurrence_count(field.repeat), st),
        Some(c) => match spec_condition(c, st.ctx) {
            Err(e) => with_row(st, error_row(field, root, 0, false, 0, e)),
            Ok(false) => st,
            Ok(true) => occurrences(data, se, field, root, base, occurrence_count(field.repeat), st),
        },
    }
}

proof fn lemma_rows_push(rows: Seq<FieldEval>, x: FieldEval)
    ensures
        rows_view(rows.push(x)) == rows_view(rows).push(x@),
{
    assert(rows_view(rows.push(x)) =~= rows_view(rows).push(x@));
}

proof fn lemma_context_push(entries: Seq<ContextEntry>, x: ContextEntry)
    ensures
        context_view(entries.push(x)) == context_view(entries).push((x.name@, x.value)),
{
    assert(context_view(entries.push(x)) =~= context_view(entries).push((x.name@, x.value)));
}

fn push_row(rows: &mut Vec<FieldEval>, row: FieldEval)
    ensures
        rows_view(final(rows)@) == rows_view(old(rows)@).push(row@),
{
    proof { lemma_rows_push(rows@, row); }
    rows.push(row);
}

fn push_error_row(rows: &mut Vec<FieldEval>, field: &FieldDef, display: String, offset: u64, offset_valid: bool, len: usize, e: InterpretError)
    ensures
        rows_view(final(rows)@) == rows_view(old(rows)@).push(error_row(*field, display@, offset, offset_valid, len, e)),
{
    let message = e.to_string();
    let row = FieldEval {
        field: field.copy(),
        display_name: display,
        resolved_offset: offset,
        offset_valid,
        byte_len: len,
        value: None,
        error: Some(message),
    };
    push_row(rows, row);
}

/// The display name of occurrence `index` of an item named `root`.
fn display_name_for(root: &String, repeated: bool, index: u64) -> (s: String)
    ensures
        s@ == display_for(root@, repeated, index as nat),
{
    let mut s = root.clone();
    if repeated {
        s.append("[");
        let digits = u64_to_decimal(index);
        s.append(digits.as_str());
        s.append("]");
    }
    s
}

fn context_value_for(v: &FieldValue) -> (c: ContextValue)
    ensures
        c == context_value_of(v@),
{
    match v {
        FieldValue::UInt(u) => ContextValue::Numeric(NumericContextValue::Unsigned(*u)),
        FieldValue::Int(i) => ContextValue::Numeric(NumericContextValue::Signed(*i)),
        _ => ContextValue::NonNumeric,
    }
}

fn bit_is_set(v: u64, bit: u64) -> (r: bool)
    ensures
        r == (shift_down(v as nat, bit as nat) % 2 == 1),
{
    let mut x = v;
    let mut i: u64 = 0;
    while i < bit
        invariant
            i <= bit,
            x as nat == shift_down(v as nat, i as nat),
        decreases bit - i,
    {
        x = x / 2;
        i += 1;
    }
    x % 2 == 1
}

fn evaluate_condition(cond: &WhenCondition, entries: &Vec<ContextEntry>) -> (r: Result<bool, InterpretError>)
    ensures
        r == spec_condition(*cond, context_view(entries@)),
{
    match lookup_context(entries, &cond.field) {
        None => Err(InterpretError::MissingConditionReference { field: cond.field.clone() }),
        Some(ContextValue::NonNumeric) => Err(InterpretError::InvalidConditionReferenceType { field: cond.field.clone() }),
        Some(ContextValue::Numeric(n)) => match cond.op {
            WhenOp::Equals(v) => match n {
                NumericContextValue::Unsigned(u) => Ok(v >= 0 && u == v as u64),
                NumericContextValue::Signed(s) => Ok(s == v),
            },
            WhenOp::NotEquals(v) => match n {
                NumericContextValue::Unsigned(u) => Ok(!(v >= 0 && u == v as u64)),
                NumericContextValue::Signed(s) => Ok(s != v),
            },
            WhenOp::BitSet(b) => match n {
                NumericContextValue::Unsigned(u) => Ok(bit_is_set(u, b)),
                NumericContextValue::Signed(s) => {
                    if s < 0 {
                        Err(InterpretError::NegativeBitSetConditionSource { field: cond.field.clone() })
                    } else {
                        Ok(bit_is_set(s as u64, b))
                    }
                },
            },
        },
    }
}

fn expand_occurrence<B: FileBuffer + ?Sized>(
    buffer: &B,
    se: Option<Endianness>,
    field: &FieldDef,
    root: &String,
    base: Option<u64>,
    index: u64,
    rows: &mut Vec<FieldEval>,
    entries: &mut Vec<ContextEntry>,
)
    ensures
        state_of(final(rows)@, final(entries)@) == occurrence_step(buffer.contents(), se, *field, root@, base, index as nat, state_of(old(rows)@, old(entries)@)),
{
    let display = display_name_for(root, field.repeat.is_some(), index);
    let offset = match resolve_repeated_offset(field, index, entries, base) {
        Ok(o) => o,
        Err(e) => {
            push_error_row(rows, field, display, 0, false, 0, e);
            return;
        },
    };
    let len = match resolve_field_byte_len(field, entries) {
        Ok(l) => l,
        Err(e) => {
            push_error_row(rows, field, display, offset, true, 0, e);
            return;
        },
    };
    match interpret_field_at(buffer, field, se, offset, len) {
        Ok(value) => {
            let cv = context_value_for(&value);
            let entry = ContextEntry { name: display.clone(), value: cv };
            proof { lemma_context_push(entries@, entry); }
            entries.push(entry);
            let row = FieldEval {
                field: field.copy(),
                display_name: display,
                resolved_offset: offset,
                offset_valid: true,
                byte_len: len,
                value: Some(value),
                error: None,
            };
            push_row(rows, row);
        },
        Err(e) => {
            push_error_row(rows, field, display, offset, true, len, e);
        },
    }
}

fn expand_field<B: FileBuffer + ?Sized>(
    buffer: &B,
    se: Option<Endianness>,
    field: &FieldDef,
    root: &String,
    base: Option<u64>,
    rows: &mut Vec<FieldEval>,
    entries: &mut Vec<ContextEntry>,
)
    ensures
        state_of(final(rows)@, final(entries)@) == spec_field_state(buffer.contents(), se, *field, root@, base, state_of(old(rows)@, old(entries)@)),
{
    let ghost st0 = state_of(rows@, entries@);
    if let Some(cond) = &field.when {
        match evaluate_condition(cond, entries) {
            Err(e) => {
                push_error_row(rows, field, root.clone(), 0, false, 0, e);
                return;
            },
            Ok(false) => {
                return;
            },
            Ok(true) => {},
        }
    }
    let count: u64 = match field.repeat {
        Some(r) => r.count,
        None => 1,
    };
    let mut index: u64 = 0;
    while index < count
        invariant
            index <= count,
            count as nat == occurrence_count(field.repeat),
            state_of(rows@, entries@) == occurrences(buffer.contents(), se, *field, root@, base, index as nat, st0),
        decreases count - index,
    {
        expand_occurrence(buffer, se, field, root, base, index, rows, entries);
        index += 1;
    }
}

/// The field a structure instance is reported as when it yields an error row of its own.
pub open spec fn instance_field(inst: StructInstanceDef) -> FieldDef {
    FieldDef {
        name: inst.name,
        ty: FieldType::Bytes,
        offset: inst.offset,
        length: None,
        endianness: None,
        description: inst.description,
        repeat: inst.repeat,
        when: inst.when,
    }
}

/// The index of the first structure named `name`.
pub open spec fn find_structure(structures: Seq<StructureDef>, name: Seq<char>) -> Option<int>
    decreases structures.len(),
{
    if structures.len() == 0 {
        None
    } else if structures[0].name@ == name {
        Some(0)
    } else {
        match find_structure(structures.drop_first(), name) {
            Some(i) => Some(i + 1),
            None => None,
        }
    }
}

/// The state after the first `k` fields of a structure copy named `prefix` at `base`.
pub open spec fn children_state(data: Seq<u8>, se: Option<Endianness>, fields: Seq<FieldDef>, prefix: Seq<char>, base: u64, k: nat, st: InterpState) -> InterpState
    decreases k,
{
    if k == 0 {
        st
    } else {
        let child = fields[k - 1];
        spec_field_state(data, se, child, prefix + "."@ + child.name@, Some(base),
            children_state(data, se, fields, prefix, base, (k - 1) as nat, st))
    }
}

/// The state after the first `n` copies of a repeated structure instance.
pub open spec fn instance_copies(data: Seq<u8>, se: Option<Endianness>, inst: StructInstanceDef, sd: StructureDef, base: u64, stride: u64, n: nat, st: InterpState) -> InterpState
    decreases n,
{
    if n == 0 {
        st
    } else {
        let prev = instance_copies(data, se, inst, sd, base, stride, (n - 1) as nat, st);
        let index = (n - 1) as nat;
        let display = display_for(inst.name@, true, index);
        if base + index * stride <= u64::MAX {
            children_state(data, se, sd.fields@, display, (base + index * stride) as u64, sd.fields.len() as nat, prev)
        } else {
            with_row(prev, error_row(instance_field(inst), display, 0, false, 0, InterpretError::OffsetOverflow))
        }
    }
}

/// The state after a structure instance once its condition holds.
pub open spec fn instance_body(data: Seq<u8>, se: Option<Endianness>, structures: Seq<StructureDef>, inst: StructInstanceDef, st: InterpState) -> InterpState {
    let err = |e: InterpretError| with_row(st, error_row(instance_field(inst), inst.name@, 0, false, 0, e));
    match find_structure(structures, inst.struct_name@) {
        None => err(InterpretError::UnknownStructure { name: inst.struct_name }),
        Some(i) => {
            let sd = structures[i];
            match spec_offset(inst.offset, st.ctx, None) {
                Err(e) => err(e),
                Ok(base) => match inst.repeat {
                    None => children_state(data, se, sd.fields@, inst.name@, base, sd.fields.len() as nat, st),
                    Some(r) => match r.stride {
                        None => err(InterpretError::MissingStructStride { name: inst.name }),
                        Some(stride) => instance_copies(data, se, inst, sd, base, stride, r.count as nat, st),
                    },
                },
            }
        },
    }
}

/// The state after a structure instance: its fields, prefixed by the instance's name, laid
/// out from the instance's base offset.
pub open spec fn spec_instance_state(data: Seq<u8>, se: Option<Endianness>, structures: Seq<StructureDef>, inst: StructInstanceDef, st: InterpState) -> InterpState {
    match inst.when {
        None => instance_body(data, se, structures, inst, st),
        Some(c) => match spec_condition(c, st.ctx) {
            Err(e) => with_row(st, error_row(instance_field(inst), inst.name@, 0, false, 0, e)),
            Ok(false) => st,
            Ok(true) => instance_body(data, se, structures, inst, st),
        },
    }
}

/// The state after the first `k` items of the schema's field list.
pub open spec fn items_state(data: Seq<u8>, schema: Schema, k: nat) -> InterpState
    decreases k,
{
    if k == 0 {
        InterpState { rows: Seq::empty(), ctx: Seq::empty() }
    } else {
        let st = items_state(data, schema, (k - 1) as nat);
        match schema.fields@[k - 1] {
            FieldItem::Field(f) => spec_field_state(data, schema.endianness, f, f.name@, None, st),
            FieldItem::StructInstance(i) => spec_instance_state(data, schema.endianness, schema.structures@, i, st),
        }
    }
}

/// The rows a schema yields over `data`.
pub open spec fn spec_interpret_schema(data: Seq<u8>, schema: Schema) -> Seq<FieldEvalView> {
    items_state(data, schema, schema.fields.len() as nat).rows
}

fn instance_as_field(inst: &StructInstanceDef) -> (f: FieldDef)
    ensures
        f == instance_field(*inst),
{
    FieldDef {
        name: inst.name.clone(),
        ty: FieldType::Bytes,
        offset: inst.offset.copy(),
        length: None,
        endianness: None,
        description: copy_opt_string(&inst.description),
        repeat: inst.repeat,
        when: copy_opt_when(&inst.when),
    }
}

fn lookup_structure<'a>(structures: &'a Vec<StructureDef>, name: &String) -> (r: Option<&'a StructureDef>)
    ensures
        match find_structure(structures@, name@) {
            None => r is None,
            Some(i) => r matches Some(sd) && *sd == structures@[i],
        },
{
    let mut i: usize = 0;
    assert(structures@.subrange(0, structures.len() as int) =~= structures@);
    while i < structures.len()
        invariant
            i <= structures.len(),
            find_structure(structures@, name@) == match find_structure(structures@.subrange(i as int, structures.len() as int), name@) {
                Some(j) => Some(j + i),
                None => None::<int>,
            },
        decreases structures.len() - i,
    {
        let ghost rest = structures@.subrange(i as int, structures.len() as int);
        assert(rest.drop_first() =~= structures@.subrange(i + 1, structures.len() as int));
        if crate::text::str_equal(structures[i].name.as_str(), name.as_str()) {
            return Some(&structures[i]);
        }
        i += 1;
    }
    None
}

fn expand_children<B: FileBuffer + ?Sized>(
    buffer: &B,
    se: Option<Endianness>,
    sd: &StructureDef,
    prefix: &String,
    base: u64,
    rows: &mut Vec<FieldEval>,
    entries: &mut Vec<ContextEntry>,
)
    ensures
        state_of(final(rows)@, final(entries)@) == children_state(buffer.contents(), se, sd.fields@, prefix@, base, sd.fields.len() as nat, state_of(old(rows)@, old(entries)@)),
{
    let ghost st0 = state_of(rows@, entries@);
    let mut k: usize = 0;
    while k < sd.fields.len()
        invariant
            k <= sd.fields.len(),
            state_of(rows@, entries@) == children_state(buffer.contents(), se, sd.fields@, prefix@, base, k as nat, st0),
        decreases sd.fields.len() - k,
    {
        let child = &sd.fields[k];
        let mut root = prefix.clone();
        root.append(".");
        root.append(child.name.as_str());
        expand_field(buffer, se, child, &root, Some(base), rows, entries);
        k += 1;
    }
}

fn expand_instance_body<B: FileBuffer + ?Sized>(
    buffer: &B,
    se: Option<Endianness>,
    structures: &Vec<StructureDef>,
    inst: &StructInstanceDef,
    rows: &mut Vec<FieldEval>,
    entries: &mut Vec<ContextEntry>,
)
    ensures
        state_of(final(rows)@, final(entries)@) == instance_body(buffer.contents(), se, structures@, *inst, state_of(old(rows)@, old(entries)@)),
{
    let ghost st0 = state_of(rows@, entries@);
    let sd = match lookup_structure(structures, &inst.struct_name) {
        Some(sd) => sd,
        None => {
            let f = instance_as_field(inst);
            push_error_row(rows, &f, inst.name.clone(), 0, false, 0, InterpretError::UnknownStructure { name: inst.struct_name.clone() });
            return;
        },
    };
    let base = match resolve_offset(&inst.offset, entries, None) {
        Ok(b) => b,
        Err(e) => {
            let f = instance_as_field(inst);
            push_error_row(rows, &f, inst.name.clone(), 0, false, 0, e);
            return;
        },
    };
    match inst.repeat {
        None => {
            expand_children(buffer, se, sd, &inst.name, base, rows, entries);
        },
        Some(r) => match r.stride {
            None => {
                let f = instance_as_field(inst);
                push_error_row(rows, &f, inst.name.clone(), 0, false, 0, InterpretError::MissingStructStride { name: inst.name.clone() });
            },
            Some(stride) => {
                let mut index: u64 = 0;
                while index < r.count
                    invariant
                        index <= r.count,
                        state_of(rows@, entries@) == instance_copies(buffer.contents(), se, *inst, *sd, base, stride, index as nat, st0),
                    decreases r.count - index,
                {
                    let display = display_name_for(&inst.name, true, index);
                    let copy_base = match index.checked_mul(stride) {
                        Some(step) => base.checked_add(step),
                        None => None,
                    };
                    match copy_base {
                        Some(b) => {
                            expand_children(buffer, se, sd, &display, b, rows, entries);
                        },
                        None => {
                            let f = instance_as_field(inst);
                            push_error_row(rows, &f, display, 0, false, 0, InterpretError::OffsetOverflow);
                        },
                    }
                    index += 1;
                }
            },
        },
    }
}

fn expand_instance<B: FileBuffer + ?Sized>(
    buffer: &B,
    se: Option<Endianness>,
    structures: &Vec<StructureDef>,
    inst: &StructInstanceDef,
    rows: &mut Vec<FieldEval>,
    entries: &mut Vec<ContextEntry>,
)
    ensures
        state_of(final(rows)@, final(entries)@) == spec_instance_state(buffer.contents(), se, structures@, *inst, state_of(old(rows)@, old(entries)@)),
{
    if let Some(cond) = &inst.when {
        match evaluate_condition(cond, entries) {
            Err(e) => {
                let f = instance_as_field(inst);
                push_error_row(rows, &f, inst.name.clone(), 0, false, 0, e);
                return;
            },
            Ok(false) => {
                return;
            },
            Ok(true) => {},
        }
    }
    expand_instance_body(buffer, se, structures, inst, rows, entries);
}

/// Interprets every item of the schema in order. Each field occurrence yields one row; a
/// failing occurrence yields a row with its error and does not stop later items.
pub fn interpret_schema<B: FileBuffer + ?Sized>(buffer: &B, schema: &Schema) -> (rows: Vec<FieldEval>)
    ensures
        rows_view(rows@) == spec_interpret_schema(buffer.contents(), *schema),
{
    let mut rows: Vec<FieldEval> = Vec::new();
    let mut entries: Vec<ContextEntry> = Vec::new();
    proof {
        assert(rows_view(rows@) =~= Seq::<FieldEvalView>::empty());
        assert(context_view(entries@) =~= Seq::<(Seq<char>, ContextValue)>::empty());
    }
    let mut k: usize = 0;
    while k < schema.fields.len()
        invariant
            k <= schema.fields.len(),
            state_of(rows@, entries@) == items_state(buffer.contents(), *schema, k as nat),
        decreases schema.fields.len() - k,
    {
        match &schema.fields[k] {
            FieldItem::Field(f) => {
                expand_field(buffer, schema.endianness, f, &f.name, None, &mut rows, &mut entries);
            },
            FieldItem::StructInstance(inst) => {
                expand_instance(buffer, schema.endianness, &schema.structures, inst, &mut rows, &mut entries);
            },
        }
        k += 1;
    }
    rows
}

/// A row carries a value or an error, never both and never neither; a row with a value has
/// a resolved offset; a row whose offset could not be resolved has offset 0 and length 0.
pub open spec fn row_well_formed(r: FieldEvalView) -> bool {
    &&& (r.value is Some) != (r.error is Some)
    &&& r.value is Some ==> r.offset_valid
    &&& !r.offset_valid ==> r.resolved_offset == 0 && r.byte_len == 0
}

/// Every row is well formed.
pub open spec fn rows_well_formed(rows: Seq<FieldEvalView>) -> bool {
    forall|i: int| 0 <= i < rows.len() ==> #[trigger] row_well_formed(rows[i])
}

proof fn lemma_wf_push(rows: Seq<FieldEvalView>, r: FieldEvalView)
    requires
        rows_well_formed(rows),
        row_well_formed(r),
    ensures
        rows_well_formed(rows.push(r)),
{
    assert forall|i: int| 0 <= i < rows.push(r).len() implies #[trigger] row_well_formed(rows.push(r)[i]) by {
        if i < rows.len() {
            assert(rows.push(r)[i] == rows[i]);
        }
    }
}

proof fn lemma_wf_occurrences(data: Seq<u8>, se: Option<Endianness>, field: FieldDef, root: Seq<char>, base: Option<u64>, n: nat, st: InterpState)
    requires
        rows_well_formed(st.rows),
    ensures
        rows_well_formed(occurrences(data, se, field, root, base, n, st).rows),
    decreases n,
{
    if n > 0 {
        lemma_wf_occurrences(data, se, field, root, base, (n - 1) as nat, st);
        let prev = occurrences(data, se, field, root, base, (n - 1) as nat, st);
        let display = display_for(root, field.repeat is Some, (n - 1) as nat);
        match spec_repeated_offset(field, (n - 1) as u64, prev.ctx, base) {
            Err(e) => lemma_wf_push(prev.rows, error_row(field, display, 0, false, 0, e)),
            Ok(off) => match spec_field_byte_len(field, prev.ctx) {
                Err(e) => lemma_wf_push(prev.rows, error_row(field, display, off, true, 0, e)),
                Ok(len) => match spec_read_value(data, field, se, off, len) {
                    Ok(v) => lemma_wf_push(prev.rows, value_row(field, display, off, len, v)),
                    Err(e) => lemma_wf_push(prev.rows, error_row(field, display, off, true, len, e)),
                },
            },
        }
    }
}

proof fn lemma_wf_field_state(data: Seq<u8>, se: Option<Endianness>, field: FieldDef, root: Seq<char>, base: Option<u64>, st: InterpState)
    requires
        rows_well_formed(st.rows),
    ensures
        rows_well_formed(spec_field_state(data, se, field, root, base, st).rows),
{
    lemma_wf_occurrences(data, se, field, root, base, occurrence_count(field.repeat), st);
    if let Some(c) = field.when {
        if let Err(e) = spec_condition(c, st.ctx) {
            lemma_wf_push(st.rows, error_row(field, root, 0, false, 0, e));
        }
    }
}

proof fn lemma_wf_children(data: Seq<u8>, se: Option<Endianness>, fields: Seq<FieldDef>, prefix: Seq<char>, base: u64, k: nat, st: InterpState)
    requires
        rows_well_formed(st.rows),
    ensures
        rows_well_formed(children_state(data, se, fields, prefix, base, k, st).rows),
    decreases k,
{
    if k > 0 {
        lemma_wf_children(data, se, fields, prefix, base, (k - 1) as nat, st);
        let child = fields[k - 1];
        lemma_wf_field_state(data, se, child, prefix + "."@ + child.name@, Some(base),
            children_state(data, se, fields, prefix, base, (k - 1) as nat, st));
    }
}

proof fn lemma_wf_copies(data: Seq<u8>, se: Option<Endianness>, inst: StructInstanceDef, sd: StructureDef, base: u64, stride: u64, n: nat, st: InterpState)
    requires
        rows_well_formed(st.rows),
    ensures
        rows_well_formed(instance_copies(data, se, inst, sd, base, stride, n, st).rows),
    decreases n,
{
    if n > 0 {
        lemma_wf_copies(data, se, inst, sd, base, stride, (n - 1) as nat, st);
        let prev = instance_copies(data, se, inst, sd, base, stride, (n - 1) as nat, st);
        let index = (n - 1) as nat;
        let display = display_for(inst.name@, true, index);
        if base + index * stride <= u64::MAX {
            lemma_wf_children(data, se, sd.fields@, display, (base + index * stride) as u64, sd.fields.len() as nat, prev);
        } else {
            lemma_wf_push(prev.rows, error_row(instance_field(inst), display, 0, false, 0, InterpretError::OffsetOverflow));
        }
    }
}

proof fn lemma_wf_instance_body(data: Seq<u8>, se: Option<Endianness>, structures: Seq<StructureDef>, inst: StructInstanceDef, st: InterpState)
    requires
        rows_well_formed(st.rows),
    ensures
        rows_well_formed(instance_body(data, se, structures, inst, st).rows),
{
    match find_structure(structures, inst.struct_name@) {
        None => lemma_wf_push(st.rows, error_row(instance_field(inst), inst.name@, 0, false, 0, InterpretError::UnknownStructure { name: inst.struct_name })),
        Some(i) => {
            let sd = structures[i];
            match spec_offset(inst.offset, st.ctx, None) {
                Err(e) => lemma_wf_push(st.rows, error_row(instance_field(inst), inst.name@, 0, false, 0, e)),
                Ok(base) => match inst.repeat {
                    None => lemma_wf_children(data, se, sd.fields@, inst.name@, base, sd.fields.len() as nat, st),
                    Some(r) => match r.stride {
                        None => lemma_wf_push(st.rows, error_row(instance_field(inst), inst.name@, 0, false, 0, InterpretError::MissingStructStride { name: inst.name })),
                        Some(stride) => lemma_wf_copies(data, se, inst, sd, base, stride, r.count as nat, st),
                    },
                },
            }
        },
    }
}

proof fn lemma_wf_items(data: Seq<u8>, schema: Schema, k: nat)
    ensures
        rows_well_formed(items_state(data, schema, k).rows),
    decreases k,
{
    if k == 0 {
        assert(rows_well_formed(Seq::<FieldEvalView>::empty()));
    } else {
        lemma_wf_items(data, schema, (k - 1) as nat);
        let st = items_state(data, schema, (k - 1) as nat);
        match schema.fields@[k - 1] {
            FieldItem::Field(f) => lemma_wf_field_state(data, schema.endianness, f, f.name@, None, st),
            FieldItem::StructInstance(i) => {
                lemma_wf_instance_body(data, schema.endianness, schema.structures@, i, st);
                if let Some(c) = i.when {
                    if let Err(e) = spec_condition(c, st.ctx) {
                        lemma_wf_push(st.rows, error_row(instance_field(i), i.name@, 0, false, 0, e));
                    }
                }
            },
        }
    }
}

/// Every row of an interpretation carries either a value or an error, a row with a value
/// has a resolved offset, and a row whose offset could not be resolved reports offset 0
/// and length 0: malformed input gives rows with errors, not missing or half-filled rows.
pub proof fn law_interpretation_rows_well_formed(data: Seq<u8>, schema: Schema)
    ensures
        rows_well_formed(spec_interpret_schema(data, schema)),
{
    lemma_wf_items(data, schema, schema.fields.len() as nat);
}

/// A scalar field without a condition yields one row per occurrence, in order, named
/// `NAME` when it does not repeat and `NAME[i]` for occurrence `i` when it does.
pub proof fn law_one_row_per_occurrence(data: Seq<u8>, se: Option<Endianness>, field: FieldDef, st: InterpState, n: nat)
    ensures
        occurrences(data, se, field, field.name@, None, n, st).rows.len() == st.rows.len() + n,
        forall|i: int| 0 <= i < n ==> #[trigger] occurrences(data, se, field, field.name@, None, n, st).rows[st.rows.len() + i].display_name
            == display_for(field.name@, field.repeat is Some, i as nat),
    decreases n,
{
    if n > 0 {
        law_one_row_per_occurrence(data, se, field, st, (n - 1) as nat);
        let prev = occurrences(data, se, field, field.name@, None, (n - 1) as nat, st);
        let now = occurrences(data, se, field, field.name@, None, n, st);
        assert forall|i: int| 0 <= i < n implies #[trigger] now.rows[st.rows.len() + i].display_name
            == display_for(field.name@, field.repeat is Some, i as nat) by {
            if i < n - 1 {
                assert(now.rows[st.rows.len() + i] == prev.rows[st.rows.len() + i]);
            }
        }
    }
}


/// Whether a structure child is read once, at a relative offset from its copy's base: it
/// has no repeat and no condition.
pub open spec fn plain_relative_child(f: FieldDef) -> bool {
    &&& f.when is None
    &&& f.repeat is None
    &&& f.offset is Relative
}

/// Where copy `i` of a structure instance repeated with `stride` from `base` starts.
pub open spec fn copy_start(base: u64, stride: u64, i: int) -> int {
    base + i * stride
}

/// Whether each of the first `n` copies, and each child field of each copy, starts below
/// 2^64.
pub open spec fn copies_fit(fields: Seq<FieldDef>, base: u64, stride: u64, n: nat) -> bool {
    &&& forall|i: int| 0 <= i < n ==> #[trigger] copy_start(base, stride, i) <= u64::MAX
    &&& forall|i: int, j: int| #![trigger copy_start(base, stride, i), fields[j]]
        0 <= i < n && 0 <= j < fields.len() ==> copy_start(base, stride, i) + fields[j].offset->Relative_0 <= u64::MAX
}

/// The rows of copy `i`, when each copy yields `width` rows after the first `start` rows.
pub open spec fn rows_of_copy(rows: Seq<FieldEvalView>, start: int, width: int, i: int) -> Seq<FieldEvalView> {
    rows.subrange(start + i * width, start + i * width + width)
}

proof fn lemma_plain_child_state(data: Seq<u8>, se: Option<Endianness>, f: FieldDef, root: Seq<char>, b: u64, st: InterpState)
    requires
        plain_relative_child(f),
        b + f.offset->Relative_0 <= u64::MAX,
    ensures
        spec_field_state(data, se, f, root, Some(b), st).rows.len() == st.rows.len() + 1,
        spec_field_state(data, se, f, root, Some(b), st).rows.drop_last() == st.rows,
        spec_field_state(data, se, f, root, Some(b), st).rows.last().resolved_offset == b + f.offset->Relative_0,
        spec_field_state(data, se, f, root, Some(b), st).rows.last().display_name == root,
{
    let r = f.offset->Relative_0;
    assert(occurrences(data, se, f, root, Some(b), 0, st) == st);
    assert(spec_offset(f.offset, st.ctx, Some(b)) == Ok::<u64, InterpretError>((b + r) as u64));
    assert(spec_repeated_offset(f, 0, st.ctx, Some(b)) == Ok::<u64, InterpretError>((b + r) as u64));
    let out = spec_field_state(data, se, f, root, Some(b), st);
    assert(out == occurrence_step(data, se, f, root, Some(b), 0, st));
    assert(display_for(root, false, 0) == root);
    assert(out.rows.drop_last() =~= st.rows);
}

proof fn lemma_plain_children_state(data: Seq<u8>, se: Option<Endianness>, fields: Seq<FieldDef>, prefix: Seq<char>, b: u64, k: nat, st: InterpState)
    requires
        k <= fields.len(),
        forall|j: int| 0 <= j < k ==> plain_relative_child(#[trigger] fields[j]) && b + fields[j].offset->Relative_0 <= u64::MAX,
    ensures
        children_state(data, se, fields, prefix, b, k, st).rows.len() == st.rows.len() + k,
        forall|i: int| 0 <= i < st.rows.len() ==> #[trigger] children_state(data, se, fields, prefix, b, k, st).rows[i] == st.rows[i],
        forall|j: int| 0 <= j < k ==> (#[trigger] children_state(data, se, fields, prefix, b, k, st).rows.skip(st.rows.len() as int)[j]).resolved_offset
            == b + fields[j].offset->Relative_0,
        forall|j: int| 0 <= j < k ==> (#[trigger] children_state(data, se, fields, prefix, b, k, st).rows.skip(st.rows.len() as int)[j]).display_name
            == prefix + "."@ + fields[j].name@,
    decreases k,
{
    if k > 0 {
        lemma_plain_children_state(data, se, fields, prefix, b, (k - 1) as nat, st);
        let prev = children_state(data, se, fields, prefix, b, (k - 1) as nat, st);
        let child = fields[k - 1];
        lemma_plain_child_state(data, se, child, prefix + "."@ + child.name@, b, prev);
        let out = children_state(data, se, fields, prefix, b, k, st);
        let len = st.rows.len() as int;
        assert forall|i: int| 0 <= i < st.rows.len() implies #[trigger] out.rows[i] == st.rows[i] by {
            assert(out.rows.drop_last()[i] == prev.rows[i]);
        }
        assert forall|j: int| 0 <= j < k implies (#[trigger] out.rows.skip(len)[j]).resolved_offset == b + fields[j].offset->Relative_0
            && out.rows.skip(len)[j].display_name == prefix + "."@ + fields[j].name@ by {
            if j < k - 1 {
                assert(out.rows.skip(len)[j] == out.rows.drop_last()[len + j]);
                assert(prev.rows.skip(len)[j] == prev.rows[len + j]);
            } else {
                assert(out.rows.skip(len)[j] == out.rows.last());
            }
        }
    }
}

/// Copy `i` of a repeated structure instance is laid out `stride` bytes after copy
/// `i - 1`: for a structure whose children are read once at relative offsets, the copies
/// yield one row per child each, in order, and the row of child `j` in copy `i` is named
/// `NAME[i].CHILD` and resolved at `base + i * stride` plus the child's relative offset.
pub proof fn law_repeated_instance_copies_follow_stride(
    data: Seq<u8>, se: Option<Endianness>, inst: StructInstanceDef, sd: StructureDef,
    base: u64, stride: u64, n: nat, st: InterpState,
)
    requires
        forall|j: int| 0 <= j < sd.fields@.len() ==> plain_relative_child(#[trigger] sd.fields@[j]),
        copies_fit(sd.fields@, base, stride, n),
    ensures
        instance_copies(data, se, inst, sd, base, stride, n, st).rows.len() == st.rows.len() + n * sd.fields@.len(),
        forall|i: int| 0 <= i < st.rows.len() ==> #[trigger] instance_copies(data, se, inst, sd, base, stride, n, st).rows[i] == st.rows[i],
        forall|i: int, j: int| 0 <= i < n && 0 <= j < sd.fields@.len() ==>
            (#[trigger] rows_of_copy(instance_copies(data, se, inst, sd, base, stride, n, st).rows, st.rows.len() as int, sd.fields@.len() as int, i)[j]).resolved_offset
                == copy_start(base, stride, i) + sd.fields@[j].offset->Relative_0,
        forall|i: int, j: int| 0 <= i < n && 0 <= j < sd.fields@.len() ==>
            (#[trigger] rows_of_copy(instance_copies(data, se, inst, sd, base, stride, n, st).rows, st.rows.len() as int, sd.fields@.len() as int, i)[j]).display_name
                == display_for(inst.name@, true, i as nat) + "."@ + sd.fields@[j].name@,
    decreases n,
{
    let m = sd.fields@.len() as int;
    let len = st.rows.len() as int;
    if n > 0 {
        law_repeated_instance_copies_follow_stride(data, se, inst, sd, base, stride, (n - 1) as nat, st);
        let prev = instance_copies(data, se, inst, sd, base, stride, (n - 1) as nat, st);
        let out = instance_copies(data, se, inst, sd, base, stride, n, st);
        let index = (n - 1) as nat;
        let display = display_for(inst.name@, true, index);
        assert(copy_start(base, stride, index as int) <= u64::MAX);
        let b = (base + index * stride) as u64;
        assert forall|j: int| 0 <= j < m implies plain_relative_child(#[trigger] sd.fields@[j]) && b + sd.fields@[j].offset->Relative_0 <= u64::MAX by {
            assert(copy_start(base, stride, index as int) + sd.fields@[j].offset->Relative_0 <= u64::MAX);
        }
        lemma_plain_children_state(data, se, sd.fields@, display, b, m as nat, prev);
        assert(out == children_state(data, se, sd.fields@, display, b, m as nat, prev));
        let plen = prev.rows.len() as int;
        assert(plen == len + (n - 1) * m);
        assert((n - 1) * m + m == n * m) by (nonlinear_arith);
        assert forall|i: int| 0 <= i < st.rows.len() implies #[trigger] out.rows[i] == st.rows[i] by {
            assert(0 <= (n - 1) * m) by (nonlinear_arith) requires n >= 1, m >= 0;
            assert(out.rows[i] == prev.rows[i]);
        }
        assert forall|i: int, j: int| 0 <= i < n && 0 <= j < m implies
            (#[trigger] rows_of_copy(out.rows, len, m, i)[j]).resolved_offset == copy_start(base, stride, i) + sd.fields@[j].offset->Relative_0
            && rows_of_copy(out.rows, len, m, i)[j].display_name == display_for(inst.name@, true, i as nat) + "."@ + sd.fields@[j].name@ by {
            assert(0 <= i * m) by (nonlinear_arith) requires i >= 0, m >= 0;
            if i < n - 1 {
                assert(i * m + m <= (n - 1) * m) by (nonlinear_arith) requires i < n - 1, m >= 0;
                assert(rows_of_copy(out.rows, len, m, i)[j] == out.rows[len + i * m + j]);
                assert(out.rows[len + i * m + j] == prev.rows[len + i * m + j]);
                assert(rows_of_copy(prev.rows, len, m, i)[j] == prev.rows[len + i * m + j]);
            } else {
                assert(rows_of_copy(out.rows, len, m, i)[j] == out.rows[len + i * m + j]);
                assert(out.rows.skip(plen)[j] == out.rows[plen + j]);
            }
        }
    }
}


/// A repeated structure instance whose offset resolves to `base` and whose structure's
/// children are read once at relative offsets yields, for copy `i` and child `j`, the row
/// `NAME[i].CHILD` resolved at `base + i * stride` plus the child's relative offset: the
/// copies are laid out `stride` bytes apart.
pub proof fn law_repeated_instance_rows_follow_stride(
    data: Seq<u8>, se: Option<Endianness>, structures: Seq<StructureDef>, inst: StructInstanceDef, st: InterpState,
    k: int, base: u64, count: u64, stride: u64,
)
    requires
        find_structure(structures, inst.struct_name@) == Some(k),
        spec_offset(inst.offset, st.ctx, None) == Ok::<u64, InterpretError>(base),
        inst.repeat == Some(RepeatInfo { count, stride: Some(stride) }),
        forall|j: int| 0 <= j < structures[k].fields@.len() ==> plain_relative_child(#[trigger] structures[k].fields@[j]),
        copies_fit(structures[k].fields@, base, stride, count as nat),
    ensures
        instance_body(data, se, structures, inst, st).rows.len() == st.rows.len() + count * structures[k].fields@.len(),
        forall|i: int| 0 <= i < st.rows.len() ==> #[trigger] instance_body(data, se, structures, inst, st).rows[i] == st.rows[i],
        forall|i: int, j: int| 0 <= i < count && 0 <= j < structures[k].fields@.len() ==>
            (#[trigger] rows_of_copy(instance_body(data, se, structures, inst, st).rows, st.rows.len() as int, structures[k].fields@.len() as int, i)[j]).resolved_offset
                == copy_start(base, stride, i) + structures[k].fields@[j].offset->Relative_0,
        forall|i: int, j: int| 0 <= i < count && 0 <= j < structures[k].fields@.len() ==>
            (#[trigger] rows_of_copy(instance_body(data, se, structures, inst, st).rows, st.rows.len() as int, structures[k].fields@.len() as int, i)[j]).display_name
                == display_for(inst.name@, true, i as nat) + "."@ + structures[k].fields@[j].name@,
{
    let sd = structures[k];
    assert(instance_body(data, se, structures, inst, st) == instance_copies(data, se, inst, sd, base, stride, count as nat, st));
    law_repeated_instance_copies_follow_stride(data, se, inst, sd, base, stride, count as nat, st);
}

} // verus!
