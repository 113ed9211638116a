//! Errors of buffer reads and field interpretation, with their messages.
use vstd::prelude::*;
use crate::text::{decimal, u64_to_decimal};

verus! {

/// A read that does not fit inside the buffer.
#[derive(Debug, Clone, Copy, PartialEq, Eq, Structural)]
pub enum BufferError {
    OutOfBounds,
}

/// Why a field could not be interpreted.
#[derive(Debug)]
pub enum InterpretError {
    Buffer(BufferError),
    OffsetOverflow,
    InvalidNumericByteWidth { expected: usize, actual: usize },
    MissingOffsetReference { field: String },
    InvalidOffsetReferenceType { field: String },
    NegativeOffsetReference { field: String },
    MissingConditionReference { field: String },
    InvalidConditionReferenceType { field: String },
    NegativeBitSetConditionSource { field: String },
    MissingExpressionReference { field: String },
    InvalidExpressionReferenceType { field: String },
    ExpressionReferenceOverflow { field: String },
    ExpressionOverflow,
    MissingLengthReference { field: String },
    InvalidLengthReferenceType { field: String },
    NegativeLengthReference { field: String },
    LengthOverflow { field: String },
    NegativeExpressionLength,
    ZeroExpressionLength,
    ExpressionLengthOverflow,
    NegativeExpressionOffset,
    RelativeOffsetWithoutBase,
    UnknownStructure { name: String },
    MissingStructStride { name: String },
    Unsupported,
}

/// The message of a buffer error.
pub open spec fn buffer_error_text(e: BufferError) -> Seq<char> {
    "read out of bounds"@
}

/// `prefix`, then `name`, then `suffix`.
pub open spec fn around(prefix: Seq<char>, name: Seq<char>, suffix: Seq<char>) -> Seq<char> {
    prefix + name + suffix
}

/// The message of an interpretation error.
pub open spec fn interpret_error_text(e: InterpretError) -> Seq<char> {
    match e {
        InterpretError::Buffer(b) => "buffer error: "@ + buffer_error_text(b),
        InterpretError::OffsetOverflow => "resolved offset overflowed during repeat expansion"@,
        InterpretError::InvalidNumericByteWidth { expected, actual } =>
            "invalid numeric byte width: expected "@ + decimal(expected as nat) + ", got "@
                + decimal(actual as nat),
        InterpretError::MissingOffsetReference { field } =>
            around("missing dynamic offset reference `"@, field@, "`"@),
        InterpretError::InvalidOffsetReferenceType { field } =>
            around("field `"@, field@, "` cannot be used as a dynamic offset source"@),
        InterpretError::NegativeOffsetReference { field } =>
            around("field `"@, field@, "` resolved to a negative dynamic offset"@),
        InterpretError::MissingConditionReference { field } =>
            around("missing condition reference `"@, field@, "`"@),
        InterpretError::InvalidConditionReferenceType { field } =>
            around("field `"@, field@, "` cannot be used as a condition source"@),
        InterpretError::NegativeBitSetConditionSource { field } =>
            around("field `"@, field@, "` resolved to a negative bit_set condition source"@),
        InterpretError::MissingExpressionReference { field } =>
            around("missing expression reference `"@, field@, "`"@),
        InterpretError::InvalidExpressionReferenceType { field } =>
            around("field `"@, field@, "` cannot be used as an expression source"@),
        InterpretError::ExpressionReferenceOverflow { field } =>
            around("field `"@, field@, "` is too large to use in an expression"@),
        InterpretError::ExpressionOverflow => "expression arithmetic overflowed"@,
        InterpretError::MissingLengthReference { field } =>
            around("missing dynamic length reference `"@, field@, "`"@),
        InterpretError::InvalidLengthReferenceType { field } =>
            around("field `"@, field@, "` cannot be used as a dynamic length source"@),
        InterpretError::NegativeLengthReference { field } =>
            around("field `"@, field@, "` resolved to a negative dynamic length"@),
        InterpretError::LengthOverflow { field } =>
            around("field `"@, field@, "` resolved to a dynamic length that does not fit in usize"@),
        InterpretError::NegativeExpressionLength => "expression resolved to a negative dynamic length"@,
        InterpretError::ZeroExpressionLength => "expression resolved to a zero dynamic length"@,
        InterpretError::ExpressionLengthOverflow =>
            "expression resolved to a dynamic length that does not fit in usize"@,
        InterpretError::NegativeExpressionOffset => "expression resolved to a negative dynamic offset"@,
        InterpretError::RelativeOffsetWithoutBase =>
            "relative offset cannot be resolved without a structure base"@,
        InterpretError::UnknownStructure { name } => around("unknown structure `"@, name@, "`"@),
        InterpretError::MissingStructStride { name } =>
            around("repeated structure `"@, name@, "` is missing an explicit stride"@),
        InterpretError::Unsupported => "unsupported field type in this core version"@,
    }
}

/// A new string holding `prefix`, `name` and `suffix` in turn.
fn build_around(prefix: &str, name: &String, suffix: &str) -> (r: String)
    ensures
        r@ == around(prefix@, name@, suffix@),
{
    let mut s = String::from_str(prefix);
    s.append(name.as_str());
    s.append(suffix);
    s
}

impl BufferError {
    /// The error's message.
    pub fn to_string(&self) -> (s: String)
        ensures
            s@ == buffer_error_text(*self),
    {
        String::from_str("read out of bounds")
    }
}

impl InterpretError {
    /// The error's message.
    pub fn to_string(&self) -> (s: String)
        ensures
            s@ == interpret_error_text(*self),
    {
        match self {
            InterpretError::Buffer(b) => {
                let mut s = String::from_str("buffer error: ");
                let inner = b.to_string();
                s.append(inner.as_str());
                s
            },
            InterpretError::OffsetOverflow =>
                String::from_str("resolved offset overflowed during repeat expansion"),
            InterpretError::InvalidNumericByteWidth { expected, actual } => {
                let mut s = String::from_str("invalid numeric byte width: expected ");
                let e = u64_to_decimal(*expected as u64);
                s.append(e.as_str());
                s.append(", got ");
                let a = u64_to_decimal(*actual as u64);
                s.append(a.as_str());
                s
            },
            InterpretError::MissingOffsetReference { field } =>
                build_around("missing dynamic offset reference `", field, "`"),
            InterpretError::InvalidOffsetReferenceType { field } =>
                build_around("field `", field, "` cannot be used as a dynamic offset source"),
            InterpretError::NegativeOffsetReference { field } =>
                build_around("field `", field, "` resolved to a negative dynamic offset"),
            InterpretError::MissingConditionReference { field } =>
                build_around("missing condition reference `", field, "`"),
            InterpretError::InvalidConditionReferenceType { field } =>
                build_around("field `", field, "` cannot be used as a condition source"),
            InterpretError::NegativeBitSetConditionSource { field } =>
                build_around("field `", field, "` resolved to a negative bit_set condition source"),
            InterpretError::MissingExpressionReference { field } =>
                build_around("missing expression reference `", field, "`"),
            InterpretError::InvalidExpressionReferenceType { field } =>
                build_around("field `", field, "` cannot be used as an expression source"),
            InterpretError::ExpressionReferenceOverflow { field } =>
                build_around("field `", field, "` is too large to use in an expression"),
            InterpretError::ExpressionOverflow => String::from_str("expression arithmetic overflowed"),
            InterpretError::MissingLengthReference { field } =>
                build_around("missing dynamic length reference `", field, "`"),
            InterpretError::InvalidLengthReferenceType { field } =>
                build_around("field `", field, "` cannot be used as a dynamic length source"),
            InterpretError::NegativeLengthReference { field } =>
                build_around("field `", field, "` resolved to a negative dynamic length"),
            InterpretError::LengthOverflow { field } =>
                build_around("field `", field, "` resolved to a dynamic length that does not fit in usize"),
            InterpretError::NegativeExpressionLength =>
                String::from_str("expression resolved to a negative dynamic length"),
            InterpretError::ZeroExpressionLength =>
                String::from_str("expression resolved to a zero dynamic length"),
            InterpretError::ExpressionLengthOverflow =>
                String::from_str("expression resolved to a dynamic length that does not fit in usize"),
            InterpretError::NegativeExpressionOffset =>
                String::from_str("expression resolved to a negative dynamic offset"),
            InterpretError::RelativeOffsetWithoutBase =>
                String::from_str("relative offset cannot be resolved without a structure base"),
            InterpretError::UnknownStructure { name } =>
                build_around("unknown structure `", name, "`"),
            InterpretError::MissingStructStride { name } =>
                build_around("repeated structure `", name, "` is missing an explicit stride"),
            InterpretError::Unsupported =>
                String::from_str("unsupported field type in this core version"),
        }
    }
}

} // verus!
