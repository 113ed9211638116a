//! The schema model: what a YAML schema describes once it has been decoded.
use vstd::prelude::*;

verus! {

/// A parsed schema: named structures and the field items laid over a file.
#[derive(Debug)]
pub struct Schema {
    pub schema_name: String,
    pub schema_version: u32,
    pub endianness: Option<Endianness>,
    pub structures: Vec<StructureDef>,
    pub fields: Vec<FieldItem>,
}

/// Byte order of multi-byte numeric fields.
#[derive(Debug, Clone, Copy, PartialEq, Eq, Structural)]
pub enum Endianness {
    Little,
    Big,
}

/// Operators of integer expressions.
#[derive(Debug, Clone, Copy, PartialEq, Eq, Structural)]
pub enum IntExprOp {
    Add,
    Sub,
}

/// An integer expression over constants and earlier numeric fields.
#[derive(Debug)]
pub enum IntExpr {
    Const { value: i64 },
    FieldRef { field: String },
    Binary { op: IntExprOp, left: Box<IntExpr>, right: Box<IntExpr> },
}

/// Where a field or structure instance starts.
#[derive(Debug)]
pub enum OffsetKind {
    Absolute(u64),
    Relative(u64),
    FieldRef(String),
    Expr(IntExpr),
}

/// How many bytes a `bytes` or `ascii` field covers.
#[derive(Debug)]
pub enum LengthSpec {
    Literal(u64),
    FieldRef { field: String },
    Expr { expr: IntExpr },
}

/// The value types a field can be read as.
#[derive(Debug, Clone, Copy, PartialEq, Eq, Structural)]
pub enum FieldType {
    U8,
    U16,
    U32,
    U64,
    I32,
    F32,
    Bytes,
    Ascii,
}

/// Repetition of a field or structure instance.
#[derive(Debug, Clone, Copy, PartialEq, Eq, Structural)]
pub struct RepeatInfo {
    pub count: u64,
    pub stride: Option<u64>,
}

/// The test a `when` condition applies to the referenced field's value.
#[derive(Debug, Clone, Copy, PartialEq, Eq, Structural)]
pub enum WhenOp {
    Equals(i64),
    NotEquals(i64),
    BitSet(u64),
}

/// A condition under which a field or structure instance is present.
#[derive(Debug)]
pub struct WhenCondition {
    pub field: String,
    pub op: WhenOp,
}

/// A scalar field: a typed value at an offset.
#[derive(Debug)]
pub struct FieldDef {
    pub name: String,
    pub ty: FieldType,
    pub offset: OffsetKind,
    pub length: Option<LengthSpec>,
    pub endianness: Option<Endianness>,
    pub description: Option<String>,
    pub repeat: Option<RepeatInfo>,
    pub when: Option<WhenCondition>,
}

/// A named group of fields laid out relative to an instance's base offset.
#[derive(Debug)]
pub struct StructureDef {
    pub name: String,
    pub fields: Vec<FieldDef>,
}

/// A placement of a named structure at an offset.
#[derive(Debug)]
pub struct StructInstanceDef {
    pub name: String,
    pub struct_name: String,
    pub offset: OffsetKind,
    pub description: Option<String>,
    pub repeat: Option<RepeatInfo>,
    pub when: Option<WhenCondition>,
}

/// One entry of a schema's field list.
#[derive(Debug)]
pub enum FieldItem {
    Field(FieldDef),
    StructInstance(StructInstanceDef),
}

/// An exact copy of a string.
pub fn copy_string(s: &String) -> (r: String)
    ensures
        r == *s,
{
    s.clone()
}

/// An exact copy of an optional string.
pub fn copy_opt_string(s: &Option<String>) -> (r: Option<String>)
    ensures
        r == *s,
{
    match s {
        Some(v) => Some(v.clone()),
        None => None,
    }
}

impl IntExpr {
    /// An exact copy of the expression.
    pub fn copy(&self) -> (r: IntExpr)
        ensures
            r == *self,
        decreases self,
    {
        match self {
            IntExpr::Const { value } => IntExpr::Const { value: *value },
            IntExpr::FieldRef { field } => IntExpr::FieldRef { field: field.clone() },
            IntExpr::Binary { op, left, right } => {
                let l = left.copy();
                let r = right.copy();
                IntExpr::Binary { op: *op, left: Box::new(l), right: Box::new(r) }
            },
        }
    }
}

impl OffsetKind {
    /// An exact copy of the offset.
    pub fn copy(&self) -> (r: OffsetKind)
        ensures
            r == *self,
    {
        match self {
            OffsetKind::Absolute(v) => OffsetKind::Absolute(*v),
            OffsetKind::Relative(v) => OffsetKind::Relative(*v),
            OffsetKind::FieldRef(s) => OffsetKind::FieldRef(s.clone()),
            OffsetKind::Expr(e) => OffsetKind::Expr(e.copy()),
        }
    }
}

impl LengthSpec {
    /// An exact copy of the length.
    pub fn copy(&self) -> (r: LengthSpec)
        ensures
            r == *self,
    {
        match self {
            LengthSpec::Literal(v) => LengthSpec::Literal(*v),
            LengthSpec::FieldRef { field } => LengthSpec::FieldRef { field: field.clone() },
            LengthSpec::Expr { expr } => LengthSpec::Expr { expr: expr.copy() },
        }
    }
}

impl WhenCondition {
    /// An exact copy of the condition.
    pub fn copy(&self) -> (r: WhenCondition)
        ensures
            r == *self,
    {
        WhenCondition { field: self.field.clone(), op: self.op }
    }
}

/// An exact copy of an optional condition.
pub fn copy_opt_when(w: &Option<WhenCondition>) -> (r: Option<WhenCondition>)
    ensures
        r == *w,
{
    match w {
        Some(c) => Some(c.copy()),
        None => None,
    }
}

impl FieldDef {
    /// An exact copy of the field definition.
    pub fn copy(&self) -> (r: FieldDef)
        ensures
            r == *self,
    {
        FieldDef {
            name: self.name.clone(),
            ty: self.ty,
            offset: self.offset.copy(),
            length: match &self.length {
                Some(l) => Some(l.copy()),
                None => None,
            },
            endianness: self.endianness,
            description: copy_opt_string(&self.description),
            repeat: self.repeat,
            when: copy_opt_when(&self.when),
        }
    }
}

} // verus!
