//! Schema validation, and loading schemas from YAML text.
use vstd::prelude::*;
use crate::ast::{copy_string, Endianness, FieldDef, FieldItem, FieldType, IntExpr, IntExprOp, LengthSpec, OffsetKind, RepeatInfo, Schema, StructInstanceDef, StructureDef, WhenCondition, WhenOp};
use crate::schema_error::SchemaError;
use crate::text::{decimal, is_blank, str_is_blank, str_equal, u64_to_decimal};
use crate::yaml::{read_yaml_document, yaml_document, YamlEntry, YamlNode};

verus! {

/// The largest repeat count a schema may ask for.
pub const MAX_REPEAT_COUNT: u64 = 10000;

/// The first of two possible violations.
pub open spec fn first_of(a: Option<Seq<char>>, b: Option<Seq<char>>) -> Option<Seq<char>> {
    if a is Some { a } else { b }
}

/// The view of an optional message.
pub open spec fn opt_text(o: Option<String>) -> Option<Seq<char>> {
    match o {
        Some(s) => Some(s@),
        None => None,
    }
}

/// How a field type is named in messages.
pub open spec fn field_type_name(ty: FieldType) -> Seq<char> {
    match ty {
        FieldType::U8 => "U8"@,
        FieldType::U16 => "U16"@,
        FieldType::U32 => "U32"@,
        FieldType::U64 => "U64"@,
        FieldType::I32 => "I32"@,
        FieldType::F32 => "F32"@,
        FieldType::Bytes => "Bytes"@,
        FieldType::Ascii => "Ascii"@,
    }
}

fn field_type_text(ty: FieldType) -> (s: String)
    ensures
        s@ == field_type_name(ty),
{
    match ty {
        FieldType::U8 => String::from_str("U8"),
        FieldType::U16 => String::from_str("U16"),
        FieldType::U32 => String::from_str("U32"),
        FieldType::U64 => String::from_str("U64"),
        FieldType::I32 => String::from_str("I32"),
        FieldType::F32 => String::from_str("F32"),
        FieldType::Bytes => String::from_str("Bytes"),
        FieldType::Ascii => String::from_str("Ascii"),
    }
}

/// `label` followed by `rest`.
fn labelled(label: &String, rest: &str) -> (s: String)
    ensures
        s@ == label@ + rest@,
{
    let mut s = label.clone();
    s.append(rest);
    s
}

/// The first empty field reference inside an expression, as a message.
pub open spec fn int_expr_violation(expr: IntExpr, label: Seq<char>, usage: Seq<char>) -> Option<Seq<char>>
    decreases expr,
{
    match expr {
        IntExpr::Const { .. } => None,
        IntExpr::FieldRef { field } =>
            if is_blank(field@) {
                Some(label + " references an empty "@ + usage + " expression field name"@)
            } else {
                None
            },
        IntExpr::Binary { left, right, .. } =>
            first_of(int_expr_violation(*left, label, usage), int_expr_violation(*right, label, usage)),
    }
}

fn validate_int_expr(expr: &IntExpr, label: &String, usage: &str) -> (r: Option<String>)
    ensures
        opt_text(r) == int_expr_violation(*expr, label@, usage@),
    decreases expr,
{
    match expr {
        IntExpr::Const { .. } => None,
        IntExpr::FieldRef { field } => {
            if str_is_blank(field.as_str()) {
                let mut s = label.clone();
                s.append(" references an empty ");
                s.append(usage);
                s.append(" expression field name");
                Some(s)
            } else {
                None
            }
        },
        IntExpr::Binary { left, right, .. } => {
            let l = validate_int_expr(left, label, usage);
            if l.is_some() {
                return l;
            }
            validate_int_expr(right, label, usage)
        },
    }
}

/// The problem with a repeat count, if any.
pub open spec fn repeat_count_violation(label: Seq<char>, repeat: RepeatInfo) -> Option<Seq<char>> {
    if repeat.count == 0 {
        Some(label + " has repeat count 0; count must be greater than 0"@)
    } else if repeat.count > MAX_REPEAT_COUNT {
        Some(label + " has repeat count "@ + decimal(repeat.count as nat) + "; maximum supported count is "@
            + decimal(MAX_REPEAT_COUNT as nat))
    } else {
        None
    }
}

fn validate_repeat_count(label: &String, repeat: RepeatInfo) -> (r: Option<String>)
    ensures
        opt_text(r) == repeat_count_violation(label@, repeat),
{
    if repeat.count == 0 {
        return Some(labelled(label, " has repeat count 0; count must be greater than 0"));
    }
    if repeat.count > MAX_REPEAT_COUNT {
        let mut s = labelled(label, " has repeat count ");
        let c = u64_to_decimal(repeat.count);
        s.append(c.as_str());
        s.append("; maximum supported count is ");
        let m = u64_to_decimal(MAX_REPEAT_COUNT);
        s.append(m.as_str());
        return Some(s);
    }
    None
}

/// The problem with a `when` condition, if any.
pub open spec fn when_violation(cond: WhenCondition, label: Seq<char>) -> Option<Seq<char>> {
    if is_blank(cond.field@) {
        Some(label + " uses a condition with an empty field reference"@)
    } else {
        match cond.op {
            WhenOp::BitSet(bit) => if bit > 63 {
                Some(label + " uses bit_set index "@ + decimal(bit as nat) + "; maximum supported index is 63"@)
            } else {
                None
            },
            _ => None,
        }
    }
}

fn validate_when_condition(cond: &WhenCondition, label: &String) -> (r: Option<String>)
    ensures
        opt_text(r) == when_violation(*cond, label@),
{
    if str_is_blank(cond.field.as_str()) {
        return Some(labelled(label, " uses a condition with an empty field reference"));
    }
    if let WhenOp::BitSet(bit) = cond.op {
        if bit > 63 {
            let mut s = labelled(label, " uses bit_set index ");
            let b = u64_to_decimal(bit);
            s.append(b.as_str());
            s.append("; maximum supported index is 63");
            return Some(s);
        }
    }
    None
}

/// `Field `NAME``.
pub open spec fn field_label(name: Seq<char>) -> Seq<char> {
    "Field `"@ + name + "`"@
}

/// The message for a dynamic offset combined with repeat.
pub open spec fn dynamic_offset_repeat_text(label: Seq<char>) -> Seq<char> {
    label + " cannot use dynamic offset together with repeat in schema v1"@
}

/// The problem with a field's offset, if any.
pub open spec fn field_offset_violation(field: FieldDef, in_structure: bool, label: Seq<char>) -> Option<Seq<char>> {
    match field.offset {
        OffsetKind::Absolute(_) => if in_structure {
            Some(label + " uses an absolute offset inside a structure; structure child offsets must be Relative"@)
        } else {
            None
        },
        OffsetKind::Relative(_) => if !in_structure {
            Some(label + " uses a relative offset outside a structure"@)
        } else {
            None
        },
        OffsetKind::FieldRef(r) => if in_structure {
            Some(label + " uses a dynamic offset inside a structure; structure child offsets must be Relative"@)
        } else if is_blank(r@) {
            Some(label + " references an empty offset field name"@)
        } else if field.repeat is Some {
            Some(dynamic_offset_repeat_text(label))
        } else {
            None
        },
        OffsetKind::Expr(e) => if in_structure {
            Some(label + " uses an expression offset inside a structure; structure child offsets must be Relative"@)
        } else {
            first_of(int_expr_violation(e, label, "offset"@),
                if field.repeat is Some { Some(dynamic_offset_repeat_text(label)) } else { None })
        },
    }
}

/// The problem with a field's repeat, if any.
pub open spec fn field_repeat_violation(field: FieldDef, label: Seq<char>) -> Option<Seq<char>> {
    match field.repeat {
        None => None,
        Some(r) => first_of(repeat_count_violation(label, r),
            if r.stride is Some {
                Some(label + " specifies repeat stride, but scalar repeated fields infer stride from field length"@)
            } else {
                None
            }),
    }
}

/// The message for a dynamic length combined with repeat.
pub open spec fn dynamic_length_repeat_text(label: Seq<char>) -> Seq<char> {
    label + " cannot use dynamic length together with repeat in schema v1"@
}

/// The problem with a field's length, if any.
pub open spec fn field_length_violation(field: FieldDef, label: Seq<char>) -> Option<Seq<char>> {
    match field.ty {
        FieldType::Bytes | FieldType::Ascii => match field.length {
            Some(LengthSpec::Literal(l)) => if l > 0 {
                None
            } else {
                Some(label + " has length 0; length must be greater than 0"@)
            },
            Some(LengthSpec::FieldRef { field: r }) => if is_blank(r@) {
                Some(label + " references an empty length field name"@)
            } else if field.repeat is Some {
                Some(dynamic_length_repeat_text(label))
            } else {
                None
            },
            Some(LengthSpec::Expr { expr }) => first_of(int_expr_violation(expr, label, "length"@),
                if field.repeat is Some { Some(dynamic_length_repeat_text(label)) } else { None }),
            None => Some(label + " must specify length for type "@ + field_type_name(field.ty)),
        },
        _ => if field.length is Some {
            Some(label + " specifies length but type "@ + field_type_name(field.ty) + " does not support length"@)
        } else {
            None
        },
    }
}

/// The first problem with a scalar field definition, if any. `fallback` names the field
/// when its own name is empty.
pub open spec fn field_def_violation(field: FieldDef, in_structure: bool, fallback: Seq<char>) -> Option<Seq<char>> {
    if is_blank(field.name@) {
        Some(fallback + " has an empty name"@)
    } else {
        let label = field_label(field.name@);
        first_of(field_offset_violation(field, in_structure, label),
        first_of(field_repeat_violation(field, label),
        first_of(match field.when { Some(c) => when_violation(c, label), None => None },
            field_length_violation(field, label))))
    }
}

fn validate_field_offset(field: &FieldDef, in_structure: bool, label: &String) -> (r: Option<String>)
    ensures
        opt_text(r) == field_offset_violation(*field, in_structure, label@),
{
    match &field.offset {
        OffsetKind::Absolute(_) => {
            if in_structure {
                return Some(labelled(label, " uses an absolute offset inside a structure; structure child offsets must be Relative"));
            }
            None
        },
        OffsetKind::Relative(_) => {
            if !in_structure {
                return Some(labelled(label, " uses a relative offset outside a structure"));
            }
            None
        },
        OffsetKind::FieldRef(referenced) => {
            if in_structure {
                return Some(labelled(label, " uses a dynamic offset inside a structure; structure child offsets must be Relative"));
            }
            if str_is_blank(referenced.as_str()) {
                return Some(labelled(label, " references an empty offset field name"));
            }
            if field.repeat.is_some() {
                return Some(labelled(label, " cannot use dynamic offset together with repeat in schema v1"));
            }
            None
        },
        OffsetKind::Expr(expr) => {
            if in_structure {
                return Some(labelled(label, " uses an expression offset inside a structure; structure child offsets must be Relative"));
            }
            let e = validate_int_expr(expr, label, "offset");
            if e.is_some() {
                return e;
            }
            if field.repeat.is_some() {
                return Some(labelled(label, " cannot use dynamic offset together with repeat in schema v1"));
            }
            None
        },
    }
}

fn validate_field_repeat(field: &FieldDef, label: &String) -> (r: Option<String>)
    ensures
        opt_text(r) == field_repeat_violation(*field, label@),
{
    match field.repeat {
        None => None,
        Some(repeat) => {
            let c = validate_repeat_count(label, repeat);
            if c.is_some() {
                return c;
            }
            if repeat.stride.is_some() {
                return Some(labelled(label, " specifies repeat stride, but scalar repeated fields infer stride from field length"));
            }
            None
        },
    }
}

fn validate_field_length(field: &FieldDef, label: &String) -> (r: Option<String>)
    ensures
        opt_text(r) == field_length_violation(*field, label@),
{
    match field.ty {
        FieldType::Bytes | FieldType::Ascii => match &field.length {
            Some(LengthSpec::Literal(length)) => {
                if *length > 0 {
                    None
                } else {
                    Some(labelled(label, " has length 0; length must be greater than 0"))
                }
            },
            Some(LengthSpec::FieldRef { field: referenced }) => {
                if str_is_blank(referenced.as_str()) {
                    return Some(labelled(label, " references an empty length field name"));
                }
                if field.repeat.is_some() {
                    return Some(labelled(label, " cannot use dynamic length together with repeat in schema v1"));
                }
                None
            },
            Some(LengthSpec::Expr { expr }) => {
                let e = validate_int_expr(expr, label, "length");
                if e.is_some() {
                    return e;
                }
                if field.repeat.is_some() {
                    return Some(labelled(label, " cannot use dynamic length together with repeat in schema v1"));
                }
                None
            },
            None => {
                let mut s = labelled(label, " must specify length for type ");
                let t = field_type_text(field.ty);
                s.append(t.as_str());
                Some(s)
            },
        },
        _ => {
            if field.length.is_some() {
                let mut s = labelled(label, " specifies length but type ");
                let t = field_type_text(field.ty);
                s.append(t.as_str());
                s.append(" does not support length");
                return Some(s);
            }
            None
        },
    }
}

fn validate_field_def(field: &FieldDef, in_structure: bool, fallback: &String) -> (r: Option<String>)
    ensures
        opt_text(r) == field_def_violation(*field, in_structure, fallback@),
{
    if str_is_blank(field.name.as_str()) {
        return Some(labelled(fallback, " has an empty name"));
    }
    let mut label = String::from_str("Field `");
    label.append(field.name.as_str());
    label.append("`");
    let o = validate_field_offset(field, in_structure, &label);
    if o.is_some() {
        return o;
    }
    let r = validate_field_repeat(field, &label);
    if r.is_some() {
        return r;
    }
    if let Some(cond) = &field.when {
        let w = validate_when_condition(cond, &label);
        if w.is_some() {
            return w;
        }
    }
    validate_field_length(field, &label)
}

/// `Structure `NAME` field #K`.
pub open spec fn structure_field_label(name: Seq<char>, k: nat) -> Seq<char> {
    "Structure `"@ + name + "` field #"@ + decimal(k)
}

/// The first problem among the first `k` fields of a structure, if any.
pub open spec fn structure_fields_violation(sd: StructureDef, k: nat) -> Option<Seq<char>>
    decreases k,
{
    if k == 0 {
        None
    } else {
        first_of(structure_fields_violation(sd, (k - 1) as nat),
            field_def_violation(sd.fields@[k - 1], true, structure_field_label(sd.name@, (k - 1) as nat)))
    }
}

/// Whether one of the first `k` structures is named `name`.
pub open spec fn name_among(structures: Seq<StructureDef>, k: int, name: Seq<char>) -> bool {
    exists|j: int| 0 <= j < k && #[trigger] structures[j].name@ == name
}

/// The first problem with structure `k`, given the structures before it.
pub open spec fn structure_violation(structures: Seq<StructureDef>, k: int) -> Option<Seq<char>> {
    let sd = structures[k];
    if is_blank(sd.name@) {
        Some("Structure #"@ + decimal(k as nat) + " has an empty name"@)
    } else if name_among(structures, k, sd.name@) {
        Some("Duplicate structure name `"@ + sd.name@ + "`"@)
    } else if sd.fields.len() == 0 {
        Some("Structure `"@ + sd.name@ + "` must contain at least one field"@)
    } else {
        structure_fields_violation(sd, sd.fields.len() as nat)
    }
}

/// The first problem among the first `k` structures, if any.
pub open spec fn structures_violation(structures: Seq<StructureDef>, k: nat) -> Option<Seq<char>>
    decreases k,
{
    if k == 0 {
        None
    } else {
        first_of(structures_violation(structures, (k - 1) as nat), structure_violation(structures, k - 1))
    }
}

/// `Struct instance `NAME``.
pub open spec fn instance_label(name: Seq<char>) -> Seq<char> {
    "Struct instance `"@ + name + "`"@
}

/// The problem with a structure instance's offset, if any.
pub open spec fn instance_offset_violation(inst: StructInstanceDef, label: Seq<char>) -> Option<Seq<char>> {
    match inst.offset {
        OffsetKind::Absolute(_) => None,
        OffsetKind::Relative(_) => Some(label + " uses a relative offset outside a structure"@),
        OffsetKind::FieldRef(r) => if is_blank(r@) {
            Some(label + " references an empty offset field name"@)
        } else if inst.repeat is Some {
            Some(dynamic_offset_repeat_text(label))
        } else {
            None
        },
        OffsetKind::Expr(e) => first_of(int_expr_violation(e, label, "offset"@),
            if inst.repeat is Some { Some(dynamic_offset_repeat_text(label)) } else { None }),
    }
}

/// The problem with a structure instance's repeat, if any.
pub open spec fn instance_repeat_violation(inst: StructInstanceDef, label: Seq<char>) -> Option<Seq<char>> {
    match inst.repeat {
        None => None,
        Some(r) => first_of(repeat_count_violation(label, r),
            match r.stride {
                Some(s) => if s == 0 {
                    Some(label + " has repeat stride 0; stride must be greater than 0"@)
                } else {
                    None
                },
                None => Some(label + " repeats a structure and must specify repeat stride"@),
            }),
    }
}

/// The first problem with structure instance number `idx` of the field list, if any.
pub open spec fn instance_violation(inst: StructInstanceDef, structures: Seq<StructureDef>, idx: nat) -> Option<Seq<char>> {
    if is_blank(inst.name@) {
        Some("Field item #"@ + decimal(idx) + " has an empty struct instance name"@)
    } else {
        let label = instance_label(inst.name@);
        if is_blank(inst.struct_name@) {
            Some(label + " references an empty structure name"@)
        } else if !name_among(structures, structures.len() as int, inst.struct_name@) {
            Some(label + " references unknown structure `"@ + inst.struct_name@ + "`"@)
        } else {
            first_of(instance_offset_violation(inst, label),
            first_of(instance_repeat_violation(inst, label),
                match inst.when { Some(c) => when_violation(c, label), None => None }))
        }
    }
}

/// The first problem with item `k` of the field list, if any.
pub open spec fn item_violation(schema: Schema, k: int) -> Option<Seq<char>> {
    match schema.fields@[k] {
        FieldItem::Field(f) => field_def_violation(f, false, "Field #"@ + decimal(k as nat)),
        FieldItem::StructInstance(i) => instance_violation(i, schema.structures@, k as nat),
    }
}

/// The first problem among the first `k` items of the field list, if any.
pub open spec fn items_violation(schema: Schema, k: nat) -> Option<Seq<char>>
    decreases k,
{
    if k == 0 {
        None
    } else {
        first_of(items_violation(schema, (k - 1) as nat), item_violation(schema, k - 1))
    }
}

/// The first rule a schema breaks, as the message `validate_schema` reports, or `None` for
/// a valid schema.
pub open spec fn schema_violation(schema: Schema) -> Option<Seq<char>> {
    if is_blank(schema.schema_name@) {
        Some("Schema name must not be empty"@)
    } else if schema.schema_version < 1 {
        Some("Schema version must be at least 1 (found "@ + decimal(schema.schema_version as nat) + ")"@)
    } else {
        first_of(structures_violation(schema.structures@, schema.structures.len() as nat),
            items_violation(schema, schema.fields.len() as nat))
    }
}

/// Whether a schema is valid.
pub open spec fn schema_is_valid(schema: Schema) -> bool {
    schema_violation(schema) is None
}

/// A `#N` index label: `prefix` then the decimal index.
fn indexed_label(prefix: &str, idx: usize) -> (s: String)
    ensures
        s@ == prefix@ + decimal(idx as nat),
{
    let mut s = String::from_str(prefix);
    let d = u64_to_decimal(idx as u64);
    s.append(d.as_str());
    s
}

fn structure_has_name(structures: &Vec<StructureDef>, k: usize, name: &String) -> (r: bool)
    requires
        k <= structures.len(),
    ensures
        r == name_among(structures@, k as int, name@),
{
    let mut j: usize = 0;
    while j < k
        invariant
            j <= k <= structures.len(),
            forall|i: int| 0 <= i < j ==> #[trigger] structures@[i].name@ != name@,
        decreases k - j,
    {
        if str_equal(structures[j].name.as_str(), name.as_str()) {
            return true;
        }
        j += 1;
    }
    false
}

fn validate_structure(structures: &Vec<StructureDef>, k: usize) -> (r: Option<String>)
    requires
        k < structures.len(),
    ensures
        opt_text(r) == structure_violation(structures@, k as int),
{
    let sd = &structures[k];
    if str_is_blank(sd.name.as_str()) {
        let mut s = indexed_label("Structure #", k);
        s.append(" has an empty name");
        return Some(s);
    }
    if structure_has_name(structures, k, &sd.name) {
        let mut s = String::from_str("Duplicate structure name `");
        s.append(sd.name.as_str());
        s.append("`");
        return Some(s);
    }
    if sd.fields.len() == 0 {
        let mut s = String::from_str("Structure `");
        s.append(sd.name.as_str());
        s.append("` must contain at least one field");
        return Some(s);
    }
    let mut i: usize = 0;
    while i < sd.fields.len()
        invariant
            i <= sd.fields.len(),
            k < structures.len(),
            *sd == structures@[k as int],
            !is_blank(sd.name@),
            !name_among(structures@, k as int, sd.name@),
            sd.fields.len() > 0,
            structure_fields_violation(*sd, i as nat) is None,
        decreases sd.fields.len() - i,
    {
        let mut label = String::from_str("Structure `");
        label.append(sd.name.as_str());
        label.append("` field #");
        let d = u64_to_decimal(i as u64);
        label.append(d.as_str());
        let v = validate_field_def(&sd.fields[i], true, &label);
        if v.is_some() {
            proof { lemma_fields_violation_sticks(*sd, (i + 1) as nat, sd.fields.len() as nat); }
            return v;
        }
        i += 1;
    }
    None
}

fn validate_structures(structures: &Vec<StructureDef>) -> (r: Option<String>)
    ensures
        opt_text(r) == structures_violation(structures@, structures.len() as nat),
{
    let mut k: usize = 0;
    while k < structures.len()
        invariant
            k <= structures.len(),
            structures_violation(structures@, k as nat) is None,
        decreases structures.len() - k,
    {
        let v = validate_structure(structures, k);
        if v.is_some() {
            proof { lemma_first_violation_sticks(structures@, (k + 1) as nat, structures.len() as nat); }
            return v;
        }
        k += 1;
    }
    None
}

proof fn lemma_fields_violation_sticks(sd: StructureDef, k: nat, n: nat)
    requires
        k <= n,
        structure_fields_violation(sd, k) is Some,
    ensures
        structure_fields_violation(sd, n) == structure_fields_violation(sd, k),
    decreases n - k,
{
    if k < n {
        lemma_fields_violation_sticks(sd, k, (n - 1) as nat);
    }
}

proof fn lemma_first_violation_sticks(structures: Seq<StructureDef>, k: nat, n: nat)
    requires
        k <= n,
        structures_violation(structures, k) is Some,
    ensures
        structures_violation(structures, n) == structures_violation(structures, k),
    decreases n - k,
{
    if k < n {
        lemma_first_violation_sticks(structures, k, (n - 1) as nat);
    }
}

fn validate_instance_offset(inst: &StructInstanceDef, label: &String) -> (r: Option<String>)
    ensures
        opt_text(r) == instance_offset_violation(*inst, label@),
{
    match &inst.offset {
        OffsetKind::Absolute(_) => None,
        OffsetKind::Relative(_) => Some(labelled(label, " uses a relative offset outside a structure")),
        OffsetKind::FieldRef(referenced) => {
            if str_is_blank(referenced.as_str()) {
                return Some(labelled(label, " references an empty offset field name"));
            }
            if inst.repeat.is_some() {
                return Some(labelled(label, " cannot use dynamic offset together with repeat in schema v1"));
            }
            None
        },
        OffsetKind::Expr(expr) => {
            let e = validate_int_expr(expr, label, "offset");
            if e.is_some() {
                return e;
            }
            if inst.repeat.is_some() {
                return Some(labelled(label, " cannot use dynamic offset together with repeat in schema v1"));
            }
            None
        },
    }
}

fn validate_instance_repeat(inst: &StructInstanceDef, label: &String) -> (r: Option<String>)
    ensures
        opt_text(r) == instance_repeat_violation(*inst, label@),
{
    match inst.repeat {
        None => None,
        Some(repeat) => {
            let c = validate_repeat_count(label, repeat);
            if c.is_some() {
                return c;
            }
            match repeat.stride {
                Some(stride) => {
                    if stride == 0 {
                        return Some(labelled(label, " has repeat stride 0; stride must be greater than 0"));
                    }
                    None
                },
                None => Some(labelled(label, " repeats a structure and must specify repeat stride")),
            }
        },
    }
}

fn validate_struct_instance(inst: &StructInstanceDef, schema: &Schema, idx: usize) -> (r: Option<String>)
    ensures
        opt_text(r) == instance_violation(*inst, schema.structures@, idx as nat),
{
    if str_is_blank(inst.name.as_str()) {
        let mut s = indexed_label("Field item #", idx);
        s.append(" has an empty struct instance name");
        return Some(s);
    }
    let mut label = String::from_str("Struct instance `");
    label.append(inst.name.as_str());
    label.append("`");
    if str_is_blank(inst.struct_name.as_str()) {
        return Some(labelled(&label, " references an empty structure name"));
    }
    if !structure_has_name(&schema.structures, schema.structures.len(), &inst.struct_name) {
        let mut s = labelled(&label, " references unknown structure `");
        s.append(inst.struct_name.as_str());
        s.append("`");
        return Some(s);
    }
    let o = validate_instance_offset(inst, &label);
    if o.is_some() {
        return o;
    }
    let r = validate_instance_repeat(inst, &label);
    if r.is_some() {
        return r;
    }
    if let Some(cond) = &inst.when {
        return validate_when_condition(cond, &label);
    }
    None
}

proof fn lemma_items_violation_sticks(schema: Schema, k: nat, n: nat)
    requires
        k <= n,
        items_violation(schema, k) is Some,
    ensures
        items_violation(schema, n) == items_violation(schema, k),
    decreases n - k,
{
    if k < n {
        lemma_items_violation_sticks(schema, k, (n - 1) as nat);
    }
}

/// Checks a schema against the rules of schema v1 and reports the first rule it breaks.
pub fn validate_schema(schema: &Schema) -> (r: Result<(), SchemaError>)
    ensures
        r is Ok <==> schema_is_valid(*schema),
        r matches Err(e) ==> (e matches SchemaError::Validation { message, path, location }
            && path is None && location is None && Some(message@) == schema_violation(*schema)),
{
    if str_is_blank(schema.schema_name.as_str()) {
        return Err(SchemaError::validation(String::from_str("Schema name must not be empty")));
    }
    if schema.schema_version < 1 {
        let mut s = String::from_str("Schema version must be at least 1 (found ");
        let v = u64_to_decimal(schema.schema_version as u64);
        s.append(v.as_str());
        s.append(")");
        return Err(SchemaError::validation(s));
    }
    if let Some(message) = validate_structures(&schema.structures) {
        return Err(SchemaError::validation(message));
    }
    let mut k: usize = 0;
    while k < schema.fields.len()
        invariant
            k <= schema.fields.len(),
            !is_blank(schema.schema_name@),
            schema.schema_version >= 1,
            structures_violation(schema.structures@, schema.structures.len() as nat) is None,
            items_violation(*schema, k as nat) is None,
        decreases schema.fields.len() - k,
    {
        let v = match &schema.fields[k] {
            FieldItem::Field(field) => {
                let fallback = indexed_label("Field #", k);
                validate_field_def(field, false, &fallback)
            },
            FieldItem::StructInstance(inst) => validate_struct_instance(inst, schema, k),
        };
        if let Some(message) = v {
            proof {
                lemma_items_violation_sticks(*schema, (k + 1) as nat, schema.fields.len() as nat);
                assert(items_violation(*schema, (k + 1) as nat) == item_violation(*schema, k as int));
                assert(schema_violation(*schema) == Some(message@));
            }
            return Err(SchemaError::validation(message));
        }
        k += 1;
    }
    Ok(())
}

/// A field-list entry as written: an item, or an include of another schema file.
#[derive(Debug)]
pub enum RawFieldItem {
    FieldItem(FieldItem),
    Include { path: String },
}

/// A schema document before includes are resolved.
#[derive(Debug)]
pub struct RawSchema {
    pub schema_name: String,
    pub schema_version: u32,
    pub endianness: Option<Endianness>,
    pub structures: Vec<StructureDef>,
    pub fields: Vec<RawFieldItem>,
}

/// Whether a YAML key is the string `k`.
pub open spec fn key_is(n: YamlNode, k: Seq<char>) -> bool {
    n matches YamlNode::Str(s) && s@ == k
}

/// The index of the first entry with key `k`.
pub open spec fn first_key_index(entries: Seq<YamlEntry>, k: Seq<char>) -> Option<int>
    decreases entries.len(),
{
    if entries.len() == 0 {
        None
    } else if key_is(entries[0].key, k) {
        Some(0)
    } else {
        match first_key_index(entries.drop_first(), k) {
            Some(i) => Some(i + 1),
            None => None,
        }
    }
}

/// The value stored under key `k`.
pub open spec fn map_lookup(entries: Seq<YamlEntry>, k: Seq<char>) -> Option<YamlNode> {
    match first_key_index(entries, k) {
        Some(i) => Some(entries[i].value),
        None => None,
    }
}

pub proof fn lemma_first_key_index_bound(entries: Seq<YamlEntry>, k: Seq<char>)
    ensures
        first_key_index(entries, k) matches Some(i) ==> 0 <= i < entries.len()
            && key_is(entries[i].key, k),
    decreases entries.len(),
{
    if entries.len() > 0 {
        lemma_first_key_index_bound(entries.drop_first(), k);
    }
}

fn key_matches(n: &YamlNode, k: &str) -> (r: bool)
    ensures
        r == key_is(*n, k@),
{
    match n {
        YamlNode::Str(s) => str_equal(s.as_str(), k),
        _ => false,
    }
}

fn find_key(entries: &Vec<YamlEntry>, k: &str) -> (r: Option<usize>)
    ensures
        match r {
            Some(i) => first_key_index(entries@, k@) == Some(i as int) && i < entries@.len(),
            None => first_key_index(entries@, k@) is None,
        },
{
    proof { lemma_first_key_index_bound(entries@, k@); }
    let mut i: usize = 0;
    assert(entries@.subrange(0, entries.len() as int) =~= entries@);
    while i < entries.len()
        invariant
            i <= entries.len(),
            first_key_index(entries@, k@) == match first_key_index(entries@.subrange(i as int, entries.len() as int), k@) {
                Some(j) => Some(j + i),
                None => None::<int>,
            },
        decreases entries.len() - i,
    {
        let ghost rest = entries@.subrange(i as int, entries.len() as int);
        assert(rest.drop_first() =~= entries@.subrange(i + 1, entries.len() as int));
        if key_matches(&entries[i].key, k) {
            return Some(i);
        }
        i += 1;
    }
    None
}

/// A string value.
pub open spec fn spec_dec_string(n: YamlNode) -> Option<String> {
    match n {
        YamlNode::Str(s) => Some(s),
        _ => None,
    }
}

/// A `u64` value.
pub open spec fn spec_dec_u64(n: YamlNode) -> Option<u64> {
    match n {
        YamlNode::Int(i) => if 0 <= i <= u64::MAX { Some(i as u64) } else { None },
        _ => None,
    }
}

/// An `i64` value.
pub open spec fn spec_dec_i64(n: YamlNode) -> Option<i64> {
    match n {
        YamlNode::Int(i) => if i64::MIN <= i <= i64::MAX { Some(i as i64) } else { None },
        _ => None,
    }
}

/// A `u32` value.
pub open spec fn spec_dec_u32(n: YamlNode) -> Option<u32> {
    match n {
        YamlNode::Int(i) => if 0 <= i <= u32::MAX { Some(i as u32) } else { None },
        _ => None,
    }
}

/// A byte order: `little` or `big`.
pub open spec fn spec_dec_endianness(n: YamlNode) -> Option<Endianness> {
    match n {
        YamlNode::Str(s) => if s@ == "little"@ { Some(Endianness::Little) }
            else if s@ == "big"@ { Some(Endianness::Big) }
            else { None },
        _ => None,
    }
}

/// A field type, named in lower case.
pub open spec fn spec_dec_field_type(n: YamlNode) -> Option<FieldType> {
    match n {
        YamlNode::Str(s) =>
            if s@ == "u8"@ { Some(FieldType::U8) }
            else if s@ == "u16"@ { Some(FieldType::U16) }
            else if s@ == "u32"@ { Some(FieldType::U32) }
            else if s@ == "u64"@ { Some(FieldType::U64) }
            else if s@ == "i32"@ { Some(FieldType::I32) }
            else if s@ == "f32"@ { Some(FieldType::F32) }
            else if s@ == "bytes"@ { Some(FieldType::Bytes) }
            else if s@ == "ascii"@ { Some(FieldType::Ascii) }
            else { None },
        _ => None,
    }
}

/// Whether `r` is what decoding a node gives, when the node decodes to `s` and a failure is
/// reported as `message`: the decoded value, or that message when it does not decode.
pub open spec fn decoded_as<T>(r: Result<T, String>, s: Option<T>, message: Seq<char>) -> bool {
    match r {
        Ok(v) => s == Some(v),
        Err(m) => s is None && m@ == message,
    }
}

/// The message for a node of the wrong kind, where `what` was expected.
pub open spec fn type_message(what: Seq<char>) -> Seq<char> {
    "invalid type: expected "@ + what
}

/// The message for a required key `k` that is absent.
pub open spec fn missing_message(k: Seq<char>) -> Seq<char> {
    "missing field `"@ + k + "`"@
}

/// The message for an untagged choice `name` that matched none of its forms.
pub open spec fn untagged_message(name: Seq<char>) -> Seq<char> {
    "data did not match any variant of untagged enum "@ + name
}

/// The message for a required key `k` whose value does not decode: its absence, or the
/// value's own message given by `err`.
pub open spec fn req_error(entries: Seq<YamlEntry>, k: Seq<char>, err: spec_fn(YamlNode) -> Seq<char>) -> Seq<char> {
    match map_lookup(entries, k) {
        Some(v) => err(v),
        None => missing_message(k),
    }
}

/// The message for an optional key `k` whose value does not decode: the value's own message.
pub open spec fn opt_error(entries: Seq<YamlEntry>, k: Seq<char>, err: spec_fn(YamlNode) -> Seq<char>) -> Seq<char> {
    match map_lookup(entries, k) {
        Some(v) => err(v),
        None => Seq::empty(),
    }
}

/// The message for a node that is not a string.
pub open spec fn string_error(n: YamlNode) -> Seq<char> {
    type_message("a string"@)
}

/// The message for a node that is not an unsigned 64-bit integer.
pub open spec fn u64_error(n: YamlNode) -> Seq<char> {
    match n {
        YamlNode::Int(_) => "invalid value: integer out of range for u64"@,
        _ => type_message("u64"@),
    }
}

/// The message for a node that is not a signed 64-bit integer.
pub open spec fn i64_error(n: YamlNode) -> Seq<char> {
    match n {
        YamlNode::Int(_) => "invalid value: integer out of range for i64"@,
        _ => type_message("i64"@),
    }
}

/// The message for a node that is not an unsigned 32-bit integer.
pub open spec fn u32_error(n: YamlNode) -> Seq<char> {
    match n {
        YamlNode::Int(_) => "invalid value: integer out of range for u32"@,
        _ => type_message("u32"@),
    }
}

/// The message for a node that is not a byte order.
pub open spec fn endianness_error(n: YamlNode) -> Seq<char> {
    match n {
        YamlNode::Str(s) => "unknown variant `"@ + s@ + "`, expected `little` or `big`"@,
        _ => type_message("`little` or `big`"@),
    }
}

/// The message for a node that is not a field type.
pub open spec fn field_type_error(n: YamlNode) -> Seq<char> {
    match n {
        YamlNode::Str(s) => "unknown variant `"@ + s@
            + "`, expected one of `u8`, `u16`, `u32`, `u64`, `i32`, `f32`, `bytes`, `ascii`"@,
        _ => type_message("a field type"@),
    }
}

/// The message for a node that is not an expression operator.
pub open spec fn op_error(n: YamlNode) -> Seq<char> {
    match n {
        YamlNode::Str(s) => "unknown variant `"@ + s@ + "`, expected `add` or `sub`"@,
        _ => type_message("`add` or `sub`"@),
    }
}

/// The message for a node that is not an integer expression: a binary expression reports
/// its first operand that does not decode; any other mapping matches none of the forms.
pub open spec fn int_expr_error(n: YamlNode) -> Seq<char>
    decreases n,
{
    match n {
        YamlNode::Mapping(entries) => {
            proof {
                lemma_first_key_index_bound(entries@, "left"@);
                lemma_first_key_index_bound(entries@, "right"@);
            }
            match (req_entry(entries@, "op"@, |v: YamlNode| spec_dec_op(v)),
                first_key_index(entries@, "left"@), first_key_index(entries@, "right"@)) {
                (Some(_), Some(li), Some(ri)) => if spec_dec_int_expr(entries@[li].value) is None {
                    int_expr_error(entries@[li].value)
                } else {
                    int_expr_error(entries@[ri].value)
                },
                _ => untagged_message("IntExpr"@),
            }
        },
        _ => type_message("an integer expression mapping"@),
    }
}

/// The message for a node that is not an offset.
pub open spec fn offset_error(n: YamlNode) -> Seq<char> {
    match n {
        YamlNode::Mapping(entries) => match map_lookup(entries@, "kind"@) {
            None => missing_message("kind"@),
            Some(kv) => match spec_dec_string(kv) {
                None => string_error(kv),
                Some(kind) => match map_lookup(entries@, "value"@) {
                    None => missing_message("value"@),
                    Some(v) => if kind@ == "Absolute"@ || kind@ == "Relative"@ {
                        u64_error(v)
                    } else if kind@ == "FieldRef"@ {
                        string_error(v)
                    } else if kind@ == "Expr"@ {
                        int_expr_error(v)
                    } else {
                        "unknown variant `"@ + kind@ + "`, expected one of `Absolute`, `Relative`, `FieldRef`, `Expr`"@
                    },
                },
            },
        },
        _ => type_message("an offset mapping with `kind` and `value`"@),
    }
}

/// The message for a node that is not a length.
pub open spec fn length_error(n: YamlNode) -> Seq<char> {
    untagged_message("LengthSpec"@)
}

/// The message for a node that is not a repeat.
pub open spec fn repeat_error(n: YamlNode) -> Seq<char> {
    match n {
        YamlNode::Mapping(entries) => if req_entry(entries@, "count"@, |v: YamlNode| spec_dec_u64(v)) is None {
            req_error(entries@, "count"@, |v: YamlNode| u64_error(v))
        } else {
            opt_error(entries@, "stride"@, |v: YamlNode| u64_error(v))
        },
        _ => type_message("a repeat mapping"@),
    }
}

/// The message for a condition operator entry that does not decode.
pub open spec fn when_op_error(e: YamlEntry) -> Seq<char> {
    if key_is(e.key, "equals"@) || key_is(e.key, "not_equals"@) {
        i64_error(e.value)
    } else if key_is(e.key, "bit_set"@) {
        u64_error(e.value)
    } else {
        "unsupported when operator"@
            + (match e.key { YamlNode::Str(k) => " `"@ + k@ + "`"@, _ => Seq::empty() })
            + "; expected `equals`, `not_equals`, or `bit_set`"@
    }
}

/// The message for a condition without an operator.
pub open spec fn no_operator_message() -> Seq<char> {
    "when condition must specify exactly one operator: `equals`, `not_equals`, or `bit_set`"@
}

/// The message for a condition with more than one operator.
pub open spec fn many_operators_message() -> Seq<char> {
    "when condition specifies multiple operators; exactly one of `equals`, `not_equals`, or `bit_set` is allowed"@
}

/// The message for a node that is not a condition: its field name first, then the number of
/// operators, then the operator itself.
pub open spec fn when_error(n: YamlNode) -> Seq<char> {
    match n {
        YamlNode::Mapping(entries) => {
            let ops = op_entries(entries@);
            if req_entry(entries@, "field"@, |v: YamlNode| spec_dec_string(v)) is None {
                req_error(entries@, "field"@, |v: YamlNode| string_error(v))
            } else if ops.len() == 0 {
                no_operator_message()
            } else if ops.len() > 1 {
                many_operators_message()
            } else {
                when_op_error(ops[0])
            }
        },
        _ => type_message("a condition mapping"@),
    }
}

/// The message for a node that is not a field definition: the first of its keys, in the
/// order `name`, `type`, `offset`, `length`, `endianness`, `description`, `repeat`, `when`,
/// that does not decode.
pub open spec fn field_def_error(n: YamlNode) -> Seq<char> {
    match n {
        YamlNode::Mapping(entries) => {
            let e = entries@;
            if req_entry(e, "name"@, |v: YamlNode| spec_dec_string(v)) is None {
                req_error(e, "name"@, |v: YamlNode| string_error(v))
            } else if req_entry(e, "type"@, |v: YamlNode| spec_dec_field_type(v)) is None {
                req_error(e, "type"@, |v: YamlNode| field_type_error(v))
            } else if req_entry(e, "offset"@, |v: YamlNode| spec_dec_offset(v)) is None {
                req_error(e, "offset"@, |v: YamlNode| offset_error(v))
            } else if opt_entry(e, "length"@, |v: YamlNode| spec_dec_length(v)) is None {
                opt_error(e, "length"@, |v: YamlNode| length_error(v))
            } else if opt_entry(e, "endianness"@, |v: YamlNode| spec_dec_endianness(v)) is None {
                opt_error(e, "endianness"@, |v: YamlNode| endianness_error(v))
            } else if opt_entry(e, "description"@, |v: YamlNode| spec_dec_string(v)) is None {
                opt_error(e, "description"@, |v: YamlNode| string_error(v))
            } else if opt_entry(e, "repeat"@, |v: YamlNode| spec_dec_repeat(v)) is None {
                opt_error(e, "repeat"@, |v: YamlNode| repeat_error(v))
            } else {
                opt_error(e, "when"@, |v: YamlNode| when_error(v))
            }
        },
        _ => type_message("a field mapping"@),
    }
}

/// The message for a node that is not a structure instance: the first of its keys, in the
/// order `name`, `struct`, `offset`, `description`, `repeat`, `when`, that does not decode.
pub open spec fn instance_error(n: YamlNode) -> Seq<char> {
    match n {
        YamlNode::Mapping(entries) => {
            let e = entries@;
            if req_entry(e, "name"@, |v: YamlNode| spec_dec_string(v)) is None {
                req_error(e, "name"@, |v: YamlNode| string_error(v))
            } else if req_entry(e, "struct"@, |v: YamlNode| spec_dec_string(v)) is None {
                req_error(e, "struct"@, |v: YamlNode| string_error(v))
            } else if req_entry(e, "offset"@, |v: YamlNode| spec_dec_offset(v)) is None {
                req_error(e, "offset"@, |v: YamlNode| offset_error(v))
            } else if opt_entry(e, "description"@, |v: YamlNode| spec_dec_string(v)) is None {
                opt_error(e, "description"@, |v: YamlNode| string_error(v))
            } else if opt_entry(e, "repeat"@, |v: YamlNode| spec_dec_repeat(v)) is None {
                opt_error(e, "repeat"@, |v: YamlNode| repeat_error(v))
            } else {
                opt_error(e, "when"@, |v: YamlNode| when_error(v))
            }
        },
        _ => type_message("a structure instance mapping"@),
    }
}

/// The index of the first of `items` that is `bad` (the length when none is).
pub open spec fn first_where(items: Seq<YamlNode>, bad: spec_fn(YamlNode) -> bool) -> int
    decreases items.len(),
{
    if items.len() == 0 {
        0
    } else if bad(items[0]) {
        0
    } else {
        1 + first_where(items.drop_first(), bad)
    }
}

proof fn lemma_first_where(items: Seq<YamlNode>, bad: spec_fn(YamlNode) -> bool, i: int)
    requires
        0 <= i < items.len(),
        bad(items[i]),
        forall|j: int| 0 <= j < i ==> !bad(#[trigger] items[j]),
    ensures
        first_where(items, bad) == i,
    decreases i,
{
    if i > 0 {
        assert(!bad(items[0]));
        assert forall|j: int| 0 <= j < i - 1 implies !bad(#[trigger] items.drop_first()[j]) by {
            assert(items.drop_first()[j] == items[j + 1]);
        }
        lemma_first_where(items.drop_first(), bad, i - 1);
    }
}

/// The message for a node that is not a structure definition: its name, then its field
/// list, then the first of its fields that does not decode.
pub open spec fn structure_error(n: YamlNode) -> Seq<char> {
    match n {
        YamlNode::Mapping(entries) => if req_entry(entries@, "name"@, |v: YamlNode| spec_dec_string(v)) is None {
            req_error(entries@, "name"@, |v: YamlNode| string_error(v))
        } else {
            match map_lookup(entries@, "fields"@) {
                None => missing_message("fields"@),
                Some(YamlNode::Sequence(items)) =>
                    field_def_error(items@[first_where(items@, |x: YamlNode| spec_dec_field_def(x) is None)]),
                Some(_) => type_message("a sequence of field definitions"@),
            }
        },
        _ => type_message("a structure mapping"@),
    }
}

/// The message for a structure list that does not decode: the first structure that does not.
pub open spec fn structures_error(n: Option<YamlNode>) -> Seq<char> {
    match n {
        Some(YamlNode::Sequence(items)) => structure_error(items@[first_where(items@, |x: YamlNode| !structure_decodable(x))]),
        Some(_) => type_message("a sequence of structure definitions"@),
        None => Seq::empty(),
    }
}

/// The message for a document whose top level does not have the shape of a schema: the
/// first of `schema_name`, `schema_version`, `endianness`, `structures` and `fields` that
/// does not decode.
pub open spec fn header_error(n: YamlNode) -> Seq<char> {
    match n {
        YamlNode::Mapping(entries) => {
            let e = entries@;
            if req_entry(e, "schema_name"@, |v: YamlNode| spec_dec_string(v)) is None {
                req_error(e, "schema_name"@, |v: YamlNode| string_error(v))
            } else if req_entry(e, "schema_version"@, |v: YamlNode| spec_dec_u32(v)) is None {
                req_error(e, "schema_version"@, |v: YamlNode| u32_error(v))
            } else if opt_entry(e, "endianness"@, |v: YamlNode| spec_dec_endianness(v)) is None {
                opt_error(e, "endianness"@, |v: YamlNode| endianness_error(v))
            } else if !(match map_lookup(e, "structures"@) {
                None => true,
                Some(YamlNode::Sequence(items)) =>
                    forall|i: int| 0 <= i < items@.len() ==> #[trigger] structure_decodable(items@[i]),
                Some(_) => false,
            }) {
                structures_error(map_lookup(e, "structures"@))
            } else {
                match map_lookup(e, "fields"@) {
                    None => missing_message("fields"@),
                    _ => type_message("a sequence of field items"@),
                }
            }
        },
        _ => type_message("a schema mapping"@),
    }
}

/// The message of a field-list entry that fails to decode as YAML: the structure instance's
/// or the field definition's, or the message for an entry that is not a mapping.
pub open spec fn raw_item_message(n: YamlNode) -> Seq<char> {
    match n {
        YamlNode::Mapping(entries) => if first_key_index(entries@, "struct"@) is Some {
            instance_error(n)
        } else {
            field_def_error(n)
        },
        _ => "invalid type: expected a mapping for each field item"@,
    }
}

fn untagged(name: &str) -> (s: String)
    ensures
        s@ == untagged_message(name@),
{
    let mut s = String::from_str("data did not match any variant of untagged enum ");
    s.append(name);
    s
}

fn type_error(what: &str) -> (s: String)
    ensures
        s@ == type_message(what@),
{
    let mut s = String::from_str("invalid type: expected ");
    s.append(what);
    s
}

fn dec_string(n: &YamlNode) -> (r: Result<String, String>)
    ensures
        decoded_as(r, spec_dec_string(*n), string_error(*n)),
{
    match n {
        YamlNode::Str(s) => Ok(s.clone()),
        _ => Err(type_error("a string")),
    }
}

fn dec_u64(n: &YamlNode) -> (r: Result<u64, String>)
    ensures
        decoded_as(r, spec_dec_u64(*n), u64_error(*n)),
{
    match n {
        YamlNode::Int(i) => {
            if 0 <= *i && *i <= u64::MAX as i128 {
                Ok(*i as u64)
            } else {
                Err(String::from_str("invalid value: integer out of range for u64"))
            }
        },
        _ => Err(type_error("u64")),
    }
}

fn dec_i64(n: &YamlNode) -> (r: Result<i64, String>)
    ensures
        decoded_as(r, spec_dec_i64(*n), i64_error(*n)),
{
    match n {
        YamlNode::Int(i) => {
            if i64::MIN as i128 <= *i && *i <= i64::MAX as i128 {
                Ok(*i as i64)
            } else {
                Err(String::from_str("invalid value: integer out of range for i64"))
            }
        },
        _ => Err(type_error("i64")),
    }
}

fn dec_u32(n: &YamlNode) -> (r: Result<u32, String>)
    ensures
        decoded_as(r, spec_dec_u32(*n), u32_error(*n)),
{
    match n {
        YamlNode::Int(i) => {
            if 0 <= *i && *i <= u32::MAX as i128 {
                Ok(*i as u32)
            } else {
                Err(String::from_str("invalid value: integer out of range for u32"))
            }
        },
        _ => Err(type_error("u32")),
    }
}

fn dec_endianness(n: &YamlNode) -> (r: Result<Endianness, String>)
    ensures
        decoded_as(r, spec_dec_endianness(*n), endianness_error(*n)),
{
    if let YamlNode::Str(s) = n {
        if str_equal(s.as_str(), "little") {
            return Ok(Endianness::Little);
        }
        if str_equal(s.as_str(), "big") {
            return Ok(Endianness::Big);
        }
        let mut m = String::from_str("unknown variant `");
        m.append(s.as_str());
        m.append("`, expected `little` or `big`");
        return Err(m);
    }
    Err(type_error("`little` or `big`"))
}

fn dec_field_type(n: &YamlNode) -> (r: Result<FieldType, String>)
    ensures
        decoded_as(r, spec_dec_field_type(*n), field_type_error(*n)),
{
    if let YamlNode::Str(s) = n {
        let t = s.as_str();
        if str_equal(t, "u8") { return Ok(FieldType::U8); }
        if str_equal(t, "u16") { return Ok(FieldType::U16); }
        if str_equal(t, "u32") { return Ok(FieldType::U32); }
        if str_equal(t, "u64") { return Ok(FieldType::U64); }
        if str_equal(t, "i32") { return Ok(FieldType::I32); }
        if str_equal(t, "f32") { return Ok(FieldType::F32); }
        if str_equal(t, "bytes") { return Ok(FieldType::Bytes); }
        if str_equal(t, "ascii") { return Ok(FieldType::Ascii); }
        let mut m = String::from_str("unknown variant `");
        m.append(t);
        m.append("`, expected one of `u8`, `u16`, `u32`, `u64`, `i32`, `f32`, `bytes`, `ascii`");
        return Err(m);
    }
    Err(type_error("a field type"))
}

/// The value under a required key, decoded by `f`.
pub open spec fn req_entry<T>(entries: Seq<YamlEntry>, k: Seq<char>, f: spec_fn(YamlNode) -> Option<T>) -> Option<T> {
    match map_lookup(entries, k) {
        Some(v) => f(v),
        None => None,
    }
}

/// The value under an optional key, decoded by `f`: `Some(None)` when the key is absent or
/// null.
pub open spec fn opt_entry<T>(entries: Seq<YamlEntry>, k: Seq<char>, f: spec_fn(YamlNode) -> Option<T>) -> Option<Option<T>> {
    match map_lookup(entries, k) {
        None => Some(None),
        Some(YamlNode::Null) => Some(None),
        Some(v) => match f(v) {
            Some(x) => Some(Some(x)),
            None => None,
        },
    }
}

fn lookup<'a>(entries: &'a Vec<YamlEntry>, k: &str) -> (r: Option<&'a YamlNode>)
    ensures
        match map_lookup(entries@, k@) {
            Some(v) => r matches Some(x) && *x == v,
            None => r is None,
        },
{
    proof { lemma_first_key_index_bound(entries@, k@); }
    match find_key(entries, k) {
        Some(i) => {
            assert(map_lookup(entries@, k@) == Some(entries@[i as int].value));
            Some(&entries[i].value)
        },
        None => None,
    }
}

fn missing(k: &str) -> (s: String)
    ensures
        s@ == missing_message(k@),
{
    let mut s = String::from_str("missing field `");
    s.append(k);
    s.append("`");
    s
}

/// An expression operator: `add` or `sub`.
pub open spec fn spec_dec_op(n: YamlNode) -> Option<IntExprOp> {
    match n {
        YamlNode::Str(s) => if s@ == "add"@ { Some(IntExprOp::Add) }
            else if s@ == "sub"@ { Some(IntExprOp::Sub) }
            else { None },
        _ => None,
    }
}

fn dec_op(n: &YamlNode) -> (r: Result<IntExprOp, String>)
    ensures
        decoded_as(r, spec_dec_op(*n), op_error(*n)),
{
    if let YamlNode::Str(s) = n {
        if str_equal(s.as_str(), "add") {
            return Ok(IntExprOp::Add);
        }
        if str_equal(s.as_str(), "sub") {
            return Ok(IntExprOp::Sub);
        }
        let mut m = String::from_str("unknown variant `");
        m.append(s.as_str());
        m.append("`, expected `add` or `sub`");
        return Err(m);
    }
    Err(type_error("`add` or `sub`"))
}

/// An integer expression: `{const: N}`, `{field: NAME}`, or `{op, left, right}`, tried in
/// that order.
pub open spec fn spec_dec_int_expr(n: YamlNode) -> Option<IntExpr>
    decreases n,
{
    match n {
        YamlNode::Mapping(entries) => {
            proof {
                lemma_first_key_index_bound(entries@, "left"@);
                lemma_first_key_index_bound(entries@, "right"@);
            }
            match req_entry(entries@, "const"@, |v: YamlNode| spec_dec_i64(v)) {
                Some(c) => Some(IntExpr::Const { value: c }),
                None => match req_entry(entries@, "field"@, |v: YamlNode| spec_dec_string(v)) {
                    Some(f) => Some(IntExpr::FieldRef { field: f }),
                    None => match (req_entry(entries@, "op"@, |v: YamlNode| spec_dec_op(v)),
                        first_key_index(entries@, "left"@), first_key_index(entries@, "right"@)) {
                        (Some(op), Some(li), Some(ri)) => match (spec_dec_int_expr(entries@[li].value), spec_dec_int_expr(entries@[ri].value)) {
                            (Some(l), Some(r)) => Some(IntExpr::Binary { op, left: Box::new(l), right: Box::new(r) }),
                            _ => None,
                        },
                        _ => None,
                    },
                },
            }
        },
        _ => None,
    }
}

fn dec_int_expr(n: &YamlNode) -> (r: Result<IntExpr, String>)
    ensures
        decoded_as(r, spec_dec_int_expr(*n), int_expr_error(*n)),
    decreases n,
{
    let entries = match n {
        YamlNode::Mapping(entries) => entries,
        _ => return Err(type_error("an integer expression mapping")),
    };
    proof {
        lemma_first_key_index_bound(entries@, "left"@);
        lemma_first_key_index_bound(entries@, "right"@);
    }
    if let Some(v) = lookup(entries, "const") {
        if let Ok(c) = dec_i64(v) {
            return Ok(IntExpr::Const { value: c });
        }
    }
    if let Some(v) = lookup(entries, "field") {
        if let Ok(f) = dec_string(v) {
            return Ok(IntExpr::FieldRef { field: f });
        }
    }
    let op = match lookup(entries, "op") {
        Some(v) => match dec_op(v) {
            Ok(op) => op,
            Err(_) => return Err(untagged("IntExpr")),
        },
        None => return Err(untagged("IntExpr")),
    };
    let li = match find_key(entries, "left") {
        Some(i) => i,
        None => return Err(untagged("IntExpr")),
    };
    let ri = match find_key(entries, "right") {
        Some(i) => i,
        None => return Err(untagged("IntExpr")),
    };
    let l = dec_int_expr(&entries[li].value)?;
    let r = dec_int_expr(&entries[ri].value)?;
    Ok(IntExpr::Binary { op, left: Box::new(l), right: Box::new(r) })
}

/// An offset: `{kind: Absolute|Relative, value: N}`, `{kind: FieldRef, value: NAME}` or
/// `{kind: Expr, value: EXPR}`.
pub open spec fn spec_dec_offset(n: YamlNode) -> Option<OffsetKind> {
    match n {
        YamlNode::Mapping(entries) => match (req_entry(entries@, "kind"@, |v: YamlNode| spec_dec_string(v)), map_lookup(entries@, "value"@)) {
            (Some(kind), Some(value)) =>
                if kind@ == "Absolute"@ {
                    match spec_dec_u64(value) { Some(o) => Some(OffsetKind::Absolute(o)), None => None }
                } else if kind@ == "Relative"@ {
                    match spec_dec_u64(value) { Some(o) => Some(OffsetKind::Relative(o)), None => None }
                } else if kind@ == "FieldRef"@ {
                    match spec_dec_string(value) { Some(s) => Some(OffsetKind::FieldRef(s)), None => None }
                } else if kind@ == "Expr"@ {
                    match spec_dec_int_expr(value) { Some(e) => Some(OffsetKind::Expr(e)), None => None }
                } else {
                    None
                },
            _ => None,
        },
        _ => None,
    }
}

fn dec_offset(n: &YamlNode) -> (r: Result<OffsetKind, String>)
    ensures
        decoded_as(r, spec_dec_offset(*n), offset_error(*n)),
{
    let entries = match n {
        YamlNode::Mapping(entries) => entries,
        _ => return Err(type_error("an offset mapping with `kind` and `value`")),
    };
    let kind = match lookup(entries, "kind") {
        Some(v) => dec_string(v)?,
        None => return Err(missing("kind")),
    };
    let value = match lookup(entries, "value") {
        Some(v) => v,
        None => return Err(missing("value")),
    };
    let k = kind.as_str();
    if str_equal(k, "Absolute") {
        Ok(OffsetKind::Absolute(dec_u64(value)?))
    } else if str_equal(k, "Relative") {
        Ok(OffsetKind::Relative(dec_u64(value)?))
    } else if str_equal(k, "FieldRef") {
        Ok(OffsetKind::FieldRef(dec_string(value)?))
    } else if str_equal(k, "Expr") {
        Ok(OffsetKind::Expr(dec_int_expr(value)?))
    } else {
        let mut m = String::from_str("unknown variant `");
        m.append(k);
        m.append("`, expected one of `Absolute`, `Relative`, `FieldRef`, `Expr`");
        Err(m)
    }
}

/// A length: a literal count, `{field: NAME}`, or `{expr: EXPR}`, tried in that order.
pub open spec fn spec_dec_length(n: YamlNode) -> Option<LengthSpec> {
    match spec_dec_u64(n) {
        Some(l) => Some(LengthSpec::Literal(l)),
        None => match n {
            YamlNode::Mapping(entries) => match req_entry(entries@, "field"@, |v: YamlNode| spec_dec_string(v)) {
                Some(f) => Some(LengthSpec::FieldRef { field: f }),
                None => match req_entry(entries@, "expr"@, |v: YamlNode| spec_dec_int_expr(v)) {
                    Some(e) => Some(LengthSpec::Expr { expr: e }),
                    None => None,
                },
            },
            _ => None,
        },
    }
}

fn dec_length(n: &YamlNode) -> (r: Result<LengthSpec, String>)
    ensures
        decoded_as(r, spec_dec_length(*n), length_error(*n)),
{
    if let Ok(l) = dec_u64(n) {
        return Ok(LengthSpec::Literal(l));
    }
    if let YamlNode::Mapping(entries) = n {
        if let Some(v) = lookup(entries, "field") {
            if let Ok(f) = dec_string(v) {
                return Ok(LengthSpec::FieldRef { field: f });
            }
        }
        if let Some(v) = lookup(entries, "expr") {
            if let Ok(e) = dec_int_expr(v) {
                return Ok(LengthSpec::Expr { expr: e });
            }
        }
    }
    Err(untagged("LengthSpec"))
}

/// A repeat: `{count: N}` with an optional `stride`.
pub open spec fn spec_dec_repeat(n: YamlNode) -> Option<RepeatInfo> {
    match n {
        YamlNode::Mapping(entries) => match (req_entry(entries@, "count"@, |v: YamlNode| spec_dec_u64(v)),
            opt_entry(entries@, "stride"@, |v: YamlNode| spec_dec_u64(v))) {
            (Some(count), Some(stride)) => Some(RepeatInfo { count, stride }),
            _ => None,
        },
        _ => None,
    }
}

fn dec_repeat(n: &YamlNode) -> (r: Result<RepeatInfo, String>)
    ensures
        decoded_as(r, spec_dec_repeat(*n), repeat_error(*n)),
{
    let entries = match n {
        YamlNode::Mapping(entries) => entries,
        _ => return Err(type_error("a repeat mapping")),
    };
    let count = match lookup(entries, "count") {
        Some(v) => dec_u64(v)?,
        None => return Err(missing("count")),
    };
    let stride = match lookup(entries, "stride") {
        None => None,
        Some(YamlNode::Null) => None,
        Some(v) => Some(dec_u64(v)?),
    };
    Ok(RepeatInfo { count, stride })
}

/// The entries of a condition mapping other than `field`: its operators.
pub open spec fn op_entries(entries: Seq<YamlEntry>) -> Seq<YamlEntry>
    decreases entries.len(),
{
    if entries.len() == 0 {
        Seq::empty()
    } else {
        let prev = op_entries(entries.drop_last());
        if key_is(entries.last().key, "field"@) { prev } else { prev.push(entries.last()) }
    }
}

/// A condition operator entry: `equals: N`, `not_equals: N` or `bit_set: BIT`.
pub open spec fn spec_dec_when_op(e: YamlEntry) -> Option<WhenOp> {
    if key_is(e.key, "equals"@) {
        match spec_dec_i64(e.value) { Some(v) => Some(WhenOp::Equals(v)), None => None }
    } else if key_is(e.key, "not_equals"@) {
        match spec_dec_i64(e.value) { Some(v) => Some(WhenOp::NotEquals(v)), None => None }
    } else if key_is(e.key, "bit_set"@) {
        match spec_dec_u64(e.value) { Some(v) => Some(WhenOp::BitSet(v)), None => None }
    } else {
        None
    }
}

/// A condition: `{field: NAME}` and exactly one operator.
pub open spec fn spec_dec_when(n: YamlNode) -> Option<WhenCondition> {
    match n {
        YamlNode::Mapping(entries) => {
            let ops = op_entries(entries@);
            match req_entry(entries@, "field"@, |v: YamlNode| spec_dec_string(v)) {
                Some(field) => if ops.len() == 1 {
                    match spec_dec_when_op(ops[0]) {
                        Some(op) => Some(WhenCondition { field, op }),
                        None => None,
                    }
                } else {
                    None
                },
                None => None,
            }
        },
        _ => None,
    }
}

fn dec_when_op(e: &YamlEntry) -> (r: Result<WhenOp, String>)
    ensures
        decoded_as(r, spec_dec_when_op(*e), when_op_error(*e)),
{
    if key_matches(&e.key, "equals") {
        return Ok(WhenOp::Equals(dec_i64(&e.value)?));
    }
    if key_matches(&e.key, "not_equals") {
        return Ok(WhenOp::NotEquals(dec_i64(&e.value)?));
    }
    if key_matches(&e.key, "bit_set") {
        return Ok(WhenOp::BitSet(dec_u64(&e.value)?));
    }
    let mut m = String::from_str("unsupported when operator");
    let ghost head = m@;
    if let YamlNode::Str(k) = &e.key {
        m.append(" `");
        m.append(k.as_str());
        m.append("`");
        assert(m@ =~= head + (" `"@ + k@ + "`"@));
    } else {
        assert(m@ =~= head + Seq::<char>::empty());
    }
    let ghost mid = m@;
    m.append("; expected `equals`, `not_equals`, or `bit_set`");
    assert(m@ == mid + "; expected `equals`, `not_equals`, or `bit_set`"@);
    Err(m)
}

fn dec_when(n: &YamlNode) -> (r: Result<WhenCondition, String>)
    ensures
        decoded_as(r, spec_dec_when(*n), when_error(*n)),
{
    let entries = match n {
        YamlNode::Mapping(entries) => entries,
        _ => return Err(type_error("a condition mapping")),
    };
    let mut count: usize = 0;
    let mut first: usize = 0;
    let mut i: usize = 0;
    while i < entries.len()
        invariant
            i <= entries.len(),
            count <= i,
            count == op_entries(entries@.subrange(0, i as int)).len(),
            count > 0 ==> first < i && op_entries(entries@.subrange(0, i as int))[0] == entries@[first as int],
        decreases entries.len() - i,
    {
        let ghost prefix = entries@.subrange(0, i + 1);
        assert(prefix.drop_last() =~= entries@.subrange(0, i as int));
        if !key_matches(&entries[i].key, "field") {
            if count == 0 {
                first = i;
            }
            count += 1;
        }
        i += 1;
    }
    assert(entries@.subrange(0, entries.len() as int) =~= entries@);
    let field = match lookup(entries, "field") {
        Some(v) => dec_string(v)?,
        None => return Err(missing("field")),
    };
    if count == 0 {
        return Err(String::from_str("when condition must specify exactly one operator: `equals`, `not_equals`, or `bit_set`"));
    }
    if count > 1 {
        return Err(String::from_str("when condition specifies multiple operators; exactly one of `equals`, `not_equals`, or `bit_set` is allowed"));
    }
    let op = dec_when_op(&entries[first])?;
    Ok(WhenCondition { field, op })
}

/// A scalar field definition.
pub open spec fn spec_dec_field_def(n: YamlNode) -> Option<FieldDef> {
    match n {
        YamlNode::Mapping(entries) => {
            let e = entries@;
            match (req_entry(e, "name"@, |v: YamlNode| spec_dec_string(v)),
                req_entry(e, "type"@, |v: YamlNode| spec_dec_field_type(v)),
                req_entry(e, "offset"@, |v: YamlNode| spec_dec_offset(v)),
                opt_entry(e, "length"@, |v: YamlNode| spec_dec_length(v)),
                opt_entry(e, "endianness"@, |v: YamlNode| spec_dec_endianness(v)),
                opt_entry(e, "description"@, |v: YamlNode| spec_dec_string(v)),
                opt_entry(e, "repeat"@, |v: YamlNode| spec_dec_repeat(v)),
                opt_entry(e, "when"@, |v: YamlNode| spec_dec_when(v))) {
                (Some(name), Some(ty), Some(offset), Some(length), Some(endianness), Some(description), Some(repeat), Some(when)) =>
                    Some(FieldDef { name, ty, offset, length, endianness, description, repeat, when }),
                _ => None,
            }
        },
        _ => None,
    }
}

fn dec_field_def(n: &YamlNode) -> (r: Result<FieldDef, String>)
    ensures
        decoded_as(r, spec_dec_field_def(*n), field_def_error(*n)),
{
    let entries = match n {
        YamlNode::Mapping(entries) => entries,
        _ => return Err(type_error("a field mapping")),
    };
    let name = match lookup(entries, "name") {
        Some(v) => dec_string(v)?,
        None => return Err(missing("name")),
    };
    let ty = match lookup(entries, "type") {
        Some(v) => dec_field_type(v)?,
        None => return Err(missing("type")),
    };
    let offset = match lookup(entries, "offset") {
        Some(v) => dec_offset(v)?,
        None => return Err(missing("offset")),
    };
    let length = match lookup(entries, "length") {
        None => None,
        Some(YamlNode::Null) => None,
        Some(v) => Some(dec_length(v)?),
    };
    let endianness = match lookup(entries, "endianness") {
        None => None,
        Some(YamlNode::Null) => None,
        Some(v) => Some(dec_endianness(v)?),
    };
    let description = match lookup(entries, "description") {
        None => None,
        Some(YamlNode::Null) => None,
        Some(v) => Some(dec_string(v)?),
    };
    let repeat = match lookup(entries, "repeat") {
        None => None,
        Some(YamlNode::Null) => None,
        Some(v) => Some(dec_repeat(v)?),
    };
    let when = match lookup(entries, "when") {
        None => None,
        Some(YamlNode::Null) => None,
        Some(v) => Some(dec_when(v)?),
    };
    Ok(FieldDef { name, ty, offset, length, endianness, description, repeat, when })
}

/// A structure instance definition.
pub open spec fn spec_dec_instance(n: YamlNode) -> Option<StructInstanceDef> {
    match n {
        YamlNode::Mapping(entries) => {
            let e = entries@;
            match (req_entry(e, "name"@, |v: YamlNode| spec_dec_string(v)),
                req_entry(e, "struct"@, |v: YamlNode| spec_dec_string(v)),
                req_entry(e, "offset"@, |v: YamlNode| spec_dec_offset(v)),
                opt_entry(e, "description"@, |v: YamlNode| spec_dec_string(v)),
                opt_entry(e, "repeat"@, |v: YamlNode| spec_dec_repeat(v)),
                opt_entry(e, "when"@, |v: YamlNode| spec_dec_when(v))) {
                (Some(name), Some(struct_name), Some(offset), Some(description), Some(repeat), Some(when)) =>
                    Some(StructInstanceDef { name, struct_name, offset, description, repeat, when }),
                _ => None,
            }
        },
        _ => None,
    }
}

fn dec_instance(n: &YamlNode) -> (r: Result<StructInstanceDef, String>)
    ensures
        decoded_as(r, spec_dec_instance(*n), instance_error(*n)),
{
    let entries = match n {
        YamlNode::Mapping(entries) => entries,
        _ => return Err(type_error("a structure instance mapping")),
    };
    let name = match lookup(entries, "name") {
        Some(v) => dec_string(v)?,
        None => return Err(missing("name")),
    };
    let struct_name = match lookup(entries, "struct") {
        Some(v) => dec_string(v)?,
        None => return Err(missing("struct")),
    };
    let offset = match lookup(entries, "offset") {
        Some(v) => dec_offset(v)?,
        None => return Err(missing("offset")),
    };
    let description = match lookup(entries, "description") {
        None => None,
        Some(YamlNode::Null) => None,
        Some(v) => Some(dec_string(v)?),
    };
    let repeat = match lookup(entries, "repeat") {
        None => None,
        Some(YamlNode::Null) => None,
        Some(v) => Some(dec_repeat(v)?),
    };
    let when = match lookup(entries, "when") {
        None => None,
        Some(YamlNode::Null) => None,
        Some(v) => Some(dec_when(v)?),
    };
    Ok(StructInstanceDef { name, struct_name, offset, description, repeat, when })
}

/// What a field-list entry decodes to: the entry, a validation message (`Err(Some(..))`), or
/// a YAML shape error (`Err(None)`).
pub open spec fn spec_raw_item(n: YamlNode) -> Result<RawFieldItem, Option<Seq<char>>> {
    match n {
        YamlNode::Mapping(entries) => {
            let e = entries@;
            match map_lookup(e, "include"@) {
                Some(YamlNode::Str(p)) =>
                    if e.len() != 1 {
                        Err(Some("Include items must contain exactly one key: `include`"@))
                    } else if is_blank(p@) {
                        Err(Some("Include path must not be empty"@))
                    } else {
                        Ok(RawFieldItem::Include { path: p })
                    },
                _ => {
                    let has_type = first_key_index(e, "type"@) is Some;
                    let has_struct = first_key_index(e, "struct"@) is Some;
                    if has_type && has_struct {
                        Err(Some("Field items cannot specify both `type` and `struct`"@))
                    } else if has_struct {
                        match spec_dec_instance(n) {
                            Some(inst) => Ok(RawFieldItem::FieldItem(FieldItem::StructInstance(inst))),
                            None => Err(None),
                        }
                    } else {
                        match spec_dec_field_def(n) {
                            Some(f) => Ok(RawFieldItem::FieldItem(FieldItem::Field(f))),
                            None => Err(None),
                        }
                    }
                },
            }
        },
        _ => Err(None),
    }
}

/// Whether `r` is the error a field-list entry's decoding outcome `o` stands for.
pub open spec fn item_error_matches(o: Option<Seq<char>>, yaml_message: Seq<char>, r: SchemaError) -> bool {
    match o {
        Some(m) => r matches SchemaError::Validation { message, path: None, location: None }
            && message@ == m,
        None => r matches SchemaError::Yaml { message, location: None } && message@ == yaml_message,
    }
}

fn dec_raw_item(n: &YamlNode) -> (r: Result<RawFieldItem, SchemaError>)
    ensures
        match spec_raw_item(*n) {
            Ok(item) => r == Ok::<RawFieldItem, SchemaError>(item),
            Err(o) => r matches Err(e) && item_error_matches(o, raw_item_message(*n), e),
        },
{
    let entries = match n {
        YamlNode::Mapping(entries) => entries,
        _ => return Err(SchemaError::yaml(
            String::from_str("invalid type: expected a mapping for each field item"), None)),
    };
    if let Some(YamlNode::Str(p)) = lookup(entries, "include") {
        if entries.len() != 1 {
            return Err(SchemaError::validation(
                String::from_str("Include items must contain exactly one key: `include`")));
        }
        if str_is_blank(p.as_str()) {
            return Err(SchemaError::validation(String::from_str("Include path must not be empty")));
        }
        return Ok(RawFieldItem::Include { path: copy_string(p) });
    }
    let has_type = find_key(entries, "type").is_some();
    let has_struct = find_key(entries, "struct").is_some();
    if has_type && has_struct {
        return Err(SchemaError::validation(
            String::from_str("Field items cannot specify both `type` and `struct`")));
    }
    if has_struct {
        return match dec_instance(n) {
            Ok(inst) => Ok(RawFieldItem::FieldItem(FieldItem::StructInstance(inst))),
            Err(m) => Err(SchemaError::yaml(m, None)),
        };
    }
    match dec_field_def(n) {
        Ok(f) => Ok(RawFieldItem::FieldItem(FieldItem::Field(f))),
        Err(m) => Err(SchemaError::yaml(m, None)),
    }
}

/// Whether `sd` is the structure definition that `n` decodes to.
pub open spec fn structure_decodes(n: YamlNode, sd: StructureDef) -> bool {
    match n {
        YamlNode::Mapping(entries) => {
            &&& req_entry(entries@, "name"@, |v: YamlNode| spec_dec_string(v)) == Some(sd.name)
            &&& map_lookup(entries@, "fields"@) matches Some(YamlNode::Sequence(items))
                && items@.len() == sd.fields@.len()
                && forall|i: int| 0 <= i < items@.len()
                    ==> spec_dec_field_def(#[trigger] items@[i]) == Some(sd.fields@[i])
        },
        _ => false,
    }
}

/// Whether `n` decodes to a structure definition: a mapping with a string `name` and a
/// sequence of field definitions under `fields`.
pub open spec fn structure_decodable(n: YamlNode) -> bool {
    match n {
        YamlNode::Mapping(entries) => {
            &&& req_entry(entries@, "name"@, |v: YamlNode| spec_dec_string(v)) is Some
            &&& map_lookup(entries@, "fields"@) matches Some(YamlNode::Sequence(items))
                && forall|i: int| 0 <= i < items@.len() ==> (#[trigger] spec_dec_field_def(items@[i])) is Some
        },
        _ => false,
    }
}

#[verifier::loop_isolation(false)]
fn dec_structure(n: &YamlNode) -> (r: Result<StructureDef, String>)
    ensures
        r is Ok <==> structure_decodable(*n),
        r matches Ok(sd) ==> structure_decodes(*n, sd),
        r matches Err(m) ==> m@ == structure_error(*n),
{
    let entries = match n {
        YamlNode::Mapping(entries) => entries,
        _ => return Err(type_error("a structure mapping")),
    };
    let name = match lookup(entries, "name") {
        Some(v) => dec_string(v)?,
        None => return Err(missing("name")),
    };
    let items = match lookup(entries, "fields") {
        Some(YamlNode::Sequence(items)) => items,
        Some(_) => return Err(type_error("a sequence of field definitions")),
        None => return Err(missing("fields")),
    };
    let mut fields: Vec<FieldDef> = Vec::new();
    let mut i: usize = 0;
    while i < items.len()
        invariant
            i <= items.len(),
            fields@.len() == i,
            forall|j: int| 0 <= j < i ==> spec_dec_field_def(#[trigger] items@[j]) == Some(fields@[j]),
        decreases items.len() - i,
    {
        let f = match dec_field_def(&items[i]) {
            Ok(f) => f,
            Err(m) => {
                assert(spec_dec_field_def(items@[i as int]) is None);
                assert(!(forall|j: int| 0 <= j < items@.len() ==> (#[trigger] spec_dec_field_def(items@[j])) is Some));
                proof {
                    let bad = |x: YamlNode| spec_dec_field_def(x) is None;
                    assert forall|j: int| 0 <= j < i implies !bad(#[trigger] items@[j]) by {
                        assert(spec_dec_field_def(items@[j]) == Some(fields@[j]));
                    }
                    lemma_first_where(items@, bad, i as int);
                }
                return Err(m);
            },
        };
        fields.push(f);
        i += 1;
    }
    Ok(StructureDef { name, fields })
}

/// The entries of a document's top-level mapping (none when it is not a mapping).
pub open spec fn document_entries(n: YamlNode) -> Seq<YamlEntry> {
    match n {
        YamlNode::Mapping(entries) => entries@,
        _ => Seq::empty(),
    }
}

/// The sequence stored under `k` in a document (empty when absent or not a sequence).
pub open spec fn document_list(n: YamlNode, k: Seq<char>) -> Seq<YamlNode> {
    match map_lookup(document_entries(n), k) {
        Some(YamlNode::Sequence(items)) => items@,
        _ => Seq::empty(),
    }
}

/// Whether a document's top level has the shape of a schema: a mapping with a string
/// `schema_name`, a `u32` `schema_version`, an optional byte order, an optional sequence of
/// structure definitions and a sequence under `fields`.
pub open spec fn document_header_ok(n: YamlNode) -> bool {
    let e = document_entries(n);
    &&& n is Mapping
    &&& req_entry(e, "schema_name"@, |v: YamlNode| spec_dec_string(v)) is Some
    &&& req_entry(e, "schema_version"@, |v: YamlNode| spec_dec_u32(v)) is Some
    &&& opt_entry(e, "endianness"@, |v: YamlNode| spec_dec_endianness(v)) is Some
    &&& match map_lookup(e, "structures"@) {
        None => true,
        Some(YamlNode::Sequence(items)) =>
            forall|i: int| 0 <= i < items@.len() ==> #[trigger] structure_decodable(items@[i]),
        Some(_) => false,
    }
    &&& map_lookup(e, "fields"@) matches Some(YamlNode::Sequence(_))
}

/// Whether the document header of `n` decodes to the name, version, byte order and
/// structures given.
pub open spec fn header_decodes(n: YamlNode, name: String, version: u32, endianness: Option<Endianness>, structures: Seq<StructureDef>) -> bool {
    let e = document_entries(n);
    let ds = document_list(n, "structures"@);
    &&& req_entry(e, "schema_name"@, |v: YamlNode| spec_dec_string(v)) == Some(name)
    &&& req_entry(e, "schema_version"@, |v: YamlNode| spec_dec_u32(v)) == Some(version)
    &&& opt_entry(e, "endianness"@, |v: YamlNode| spec_dec_endianness(v)) == Some(endianness)
    &&& ds.len() == structures.len()
    &&& forall|i: int| 0 <= i < ds.len() ==> #[trigger] structure_decodes(ds[i], structures[i])
}

/// Whether `raw` is the document that `n` decodes to.
pub open spec fn raw_schema_decodes(n: YamlNode, raw: RawSchema) -> bool {
    let items = document_list(n, "fields"@);
    &&& header_decodes(n, raw.schema_name, raw.schema_version, raw.endianness, raw.structures@)
    &&& items.len() == raw.fields@.len()
    &&& forall|i: int| 0 <= i < items.len() ==> spec_raw_item(#[trigger] items[i]) == Ok::<RawFieldItem, Option<Seq<char>>>(raw.fields@[i])
}

/// The index of the first field-list entry that does not decode.
pub open spec fn first_bad_item(items: Seq<YamlNode>) -> Option<int>
    decreases items.len(),
{
    if items.len() == 0 {
        None
    } else if spec_raw_item(items[0]) is Err {
        Some(0)
    } else {
        match first_bad_item(items.drop_first()) {
            Some(i) => Some(i + 1),
            None => None,
        }
    }
}

pub proof fn lemma_first_bad_item(items: Seq<YamlNode>)
    ensures
        match first_bad_item(items) {
            Some(i) => 0 <= i < items.len() && spec_raw_item(items[i]) is Err
                && forall|j: int| 0 <= j < i ==> (#[trigger] spec_raw_item(items[j])) is Ok,
            None => forall|j: int| 0 <= j < items.len() ==> (#[trigger] spec_raw_item(items[j])) is Ok,
        },
    decreases items.len(),
{
    if items.len() > 0 {
        lemma_first_bad_item(items.drop_first());
        assert forall|j: int| 1 <= j < items.len() implies items[j] == items.drop_first()[j - 1] by {}
    }
}

/// How a schema text fails to load as a document, when it does: the YAML reader's own error,
/// a top level of the wrong shape, or the first field-list entry that does not decode.
pub open spec fn document_failure(text: Seq<char>, r: SchemaError) -> bool {
    match yaml_document(text) {
        Err(f) => r == (SchemaError::Yaml { message: f.message, location: f.location }),
        Ok(n) => if !document_header_ok(n) {
            r matches SchemaError::Yaml { message, location: None } && message@ == header_error(n)
        } else {
            match first_bad_item(document_list(n, "fields"@)) {
                Some(i) => item_error_matches(spec_raw_item(document_list(n, "fields"@)[i])->Err_0,
                    raw_item_message(document_list(n, "fields"@)[i]), r),
                None => false,
            }
        },
    }
}

/// Whether a schema text loads as a document: it reads as YAML, its top level has the shape
/// of a schema and every field-list entry decodes.
pub open spec fn document_loads(text: Seq<char>) -> bool {
    match yaml_document(text) {
        Err(_) => false,
        Ok(n) => document_header_ok(n) && first_bad_item(document_list(n, "fields"@)) is None,
    }
}

#[verifier::loop_isolation(false)]
fn dec_structures(n: Option<&YamlNode>) -> (r: Result<Vec<StructureDef>, String>)
    ensures
        r is Ok <==> match n {
            None => true,
            Some(YamlNode::Sequence(items)) =>
                forall|i: int| 0 <= i < items@.len() ==> #[trigger] structure_decodable(items@[i]),
            Some(_) => false,
        },
        r matches Ok(v) ==> match n {
            None => v@.len() == 0,
            Some(YamlNode::Sequence(items)) => items@.len() == v@.len()
                && forall|i: int| 0 <= i < items@.len() ==> #[trigger] structure_decodes(items@[i], v@[i]),
            Some(_) => false,
        },
        r matches Err(m) ==> m@ == structures_error(match n { Some(x) => Some(*x), None => None }),
{
    let items = match n {
        None => return Ok(Vec::new()),
        Some(YamlNode::Sequence(items)) => items,
        Some(_) => return Err(type_error("a sequence of structure definitions")),
    };
    let mut out: Vec<StructureDef> = Vec::new();
    let mut i: usize = 0;
    while i < items.len()
        invariant
            i <= items.len(),
            out@.len() == i,
            forall|j: int| 0 <= j < i ==> #[trigger] structure_decodes(items@[j], out@[j]),
            forall|j: int| 0 <= j < i ==> #[trigger] structure_decodable(items@[j]),
        decreases items.len() - i,
    {
        let sd = match dec_structure(&items[i]) {
            Ok(sd) => sd,
            Err(m) => {
                assert(!structure_decodable(items@[i as int]));
                assert(!(forall|j: int| 0 <= j < items@.len() ==> #[trigger] structure_decodable(items@[j])));
                proof {
                    let bad = |x: YamlNode| !structure_decodable(x);
                    assert forall|j: int| 0 <= j < i implies !bad(#[trigger] items@[j]) by {
                        assert(structure_decodable(items@[j]));
                    }
                    lemma_first_where(items@, bad, i as int);
                }
                return Err(m);
            },
        };
        out.push(sd);
        i += 1;
    }
    Ok(out)
}

/// Reads a schema text as a document: its header, its structures and its field list, with
/// entries that name other schema files kept as written.
#[verifier::loop_isolation(false)]
pub fn parse_raw_schema_str(text: &str) -> (r: Result<RawSchema, SchemaError>)
    ensures
        r is Ok <==> document_loads(text@),
        r matches Ok(raw) ==> yaml_document(text@) matches Ok(n) && raw_schema_decodes(n, raw),
        r matches Err(e) ==> document_failure(text@, e),
{
    let node = match read_yaml_document(text) {
        Ok(node) => node,
        Err(f) => return Err(SchemaError::yaml(f.message, f.location)),
    };
    let entries = match &node {
        YamlNode::Mapping(entries) => entries,
        _ => return Err(SchemaError::yaml(type_error("a schema mapping"), None)),
    };
    let schema_name = match lookup(entries, "schema_name") {
        Some(v) => match dec_string(v) {
            Ok(s) => s,
            Err(m) => return Err(SchemaError::yaml(m, None)),
        },
        None => return Err(SchemaError::yaml(missing("schema_name"), None)),
    };
    let schema_version = match lookup(entries, "schema_version") {
        Some(v) => match dec_u32(v) {
            Ok(s) => s,
            Err(m) => return Err(SchemaError::yaml(m, None)),
        },
        None => return Err(SchemaError::yaml(missing("schema_version"), None)),
    };
    let endianness = match lookup(entries, "endianness") {
        None => None,
        Some(YamlNode::Null) => None,
        Some(v) => match dec_endianness(v) {
            Ok(e) => Some(e),
            Err(m) => return Err(SchemaError::yaml(m, None)),
        },
    };
    let structures = match dec_structures(lookup(entries, "structures")) {
        Ok(s) => s,
        Err(m) => return Err(SchemaError::yaml(m, None)),
    };
    let items = match lookup(entries, "fields") {
        Some(YamlNode::Sequence(items)) => items,
        Some(_) => return Err(SchemaError::yaml(type_error("a sequence of field items"), None)),
        None => return Err(SchemaError::yaml(missing("fields"), None)),
    };
    assert(document_header_ok(node));
    assert(items@ == document_list(node, "fields"@));
    proof { lemma_first_bad_item(items@); }
    let mut fields: Vec<RawFieldItem> = Vec::new();
    let mut i: usize = 0;
    while i < items.len()
        invariant
            i <= items.len(),
            fields@.len() == i,
            forall|j: int| 0 <= j < i ==> spec_raw_item(#[trigger] items@[j]) == Ok::<RawFieldItem, Option<Seq<char>>>(fields@[j]),
        decreases items.len() - i,
    {
        match dec_raw_item(&items[i]) {
            Ok(item) => fields.push(item),
            Err(e) => {
                assert(first_bad_item(items@) == Some(i as int));
                return Err(e);
            },
        }
        i += 1;
    }
    Ok(RawSchema { schema_name, schema_version, endianness, structures, fields })
}

/// The field items of a field list, in order, without the entries that name other files.
pub open spec fn item_fields(items: Seq<RawFieldItem>) -> Seq<FieldItem>
    decreases items.len(),
{
    if items.len() == 0 {
        Seq::empty()
    } else {
        let prev = item_fields(items.drop_last());
        match items.last() {
            RawFieldItem::FieldItem(f) => prev.push(f),
            RawFieldItem::Include { .. } => prev,
        }
    }
}

/// Whether a field list names another schema file.
pub open spec fn names_other_file(items: Seq<RawFieldItem>) -> bool {
    exists|i: int| 0 <= i < items.len() && #[trigger] items[i] is Include
}

/// Without entries that name other files, the field items are the entries themselves.
pub proof fn lemma_item_fields_plain(items: Seq<RawFieldItem>)
    requires
        !names_other_file(items),
    ensures
        item_fields(items).len() == items.len(),
        forall|i: int| 0 <= i < items.len() ==> items[i] == RawFieldItem::FieldItem(#[trigger] item_fields(items)[i]),
    decreases items.len(),
{
    if items.len() > 0 {
        let rest = items.drop_last();
        assert forall|i: int| 0 <= i < rest.len() implies !(#[trigger] rest[i] is Include) by {
            assert(rest[i] == items[i]);
        }
        lemma_item_fields_plain(rest);
        assert(!(items[items.len() - 1] is Include));
    }
}

/// Whether a document's field list names another schema file.
pub fn contains_include(raw: &RawSchema) -> (r: bool)
    ensures
        r == names_other_file(raw.fields@),
{
    let mut i: usize = 0;
    while i < raw.fields.len()
        invariant
            i <= raw.fields.len(),
            forall|j: int| 0 <= j < i ==> !(#[trigger] raw.fields@[j] is Include),
        decreases raw.fields.len() - i,
    {
        if let RawFieldItem::Include { .. } = &raw.fields[i] {
            return true;
        }
        i += 1;
    }
    false
}

/// Builds a schema from a document: `structures` followed by the document's structures, and
/// `fields` followed by the document's field items; entries naming other files are dropped.
pub fn schema_from_raw(raw: RawSchema, structures: Vec<StructureDef>, fields: Vec<FieldItem>) -> (s: Schema)
    ensures
        s.schema_name == raw.schema_name,
        s.schema_version == raw.schema_version,
        s.endianness == raw.endianness,
        s.structures@ == structures@ + raw.structures@,
        s.fields@ == fields@ + item_fields(raw.fields@),
{
    let RawSchema { schema_name, schema_version, endianness, structures: mut raw_structures, fields: mut raw_fields } = raw;
    let ghost raw_items = raw_fields@;
    let mut structures = structures;
    let mut fields = fields;
    let ghost fields0 = fields@;
    structures.append(&mut raw_structures);
    let mut k: usize = 0;
    let ghost n = raw_items.len();
    assert(n == raw_fields.len());
    while raw_fields.len() > 0
        invariant
            k <= n,
            n == raw_items.len(),
            n <= usize::MAX,
            raw_fields@ == raw_items.subrange(k as int, n as int),
            fields@ == fields0 + item_fields(raw_items.subrange(0, k as int)),
        decreases raw_fields.len(),
    {
        assert(raw_fields@.len() == n - k);
        let item = raw_fields.remove(0);
        proof {
            let pre = raw_items.subrange(0, k as int + 1);
            assert(pre.drop_last() =~= raw_items.subrange(0, k as int));
            assert(pre.last() == item);
        }
        if let RawFieldItem::FieldItem(f) = item {
            fields.push(f);
        }
        k += 1;
        proof {
            assert(raw_fields@ =~= raw_items.subrange(k as int, n as int));
        }
    }
    assert(raw_items.subrange(0, n as int) =~= raw_items);
    Schema { schema_name, schema_version, endianness, structures, fields }
}

/// Whether a document's field list has an entry naming another schema file.
pub open spec fn document_names_other_file(n: YamlNode) -> bool {
    let items = document_list(n, "fields"@);
    exists|i: int| 0 <= i < items.len() && #[trigger] spec_raw_item(items[i]) matches Ok(RawFieldItem::Include { .. })
}

/// Whether `s` is the schema that document `n` decodes to, every field-list entry being a
/// field item.
pub open spec fn schema_decodes(n: YamlNode, s: Schema) -> bool {
    let items = document_list(n, "fields"@);
    &&& header_decodes(n, s.schema_name, s.schema_version, s.endianness, s.structures@)
    &&& items.len() == s.fields@.len()
    &&& forall|i: int| 0 <= i < items.len() ==> spec_raw_item(#[trigger] items[i])
        == Ok::<RawFieldItem, Option<Seq<char>>>(RawFieldItem::FieldItem(s.fields@[i]))
}

/// Whether `r` is what loading a schema from the text `yaml` gives (see `parse_schema_str`).
pub open spec fn text_parsed(yaml: Seq<char>, r: Result<Schema, SchemaError>) -> bool {
    &&& r matches Err(e) ==> e is Yaml || e is Validation
    &&& !document_loads(yaml) ==> (r matches Err(e) && document_failure(yaml, e))
    &&& document_loads(yaml) && document_names_other_file(yaml_document(yaml)->Ok_0) ==>
        (r matches Err(SchemaError::Validation { message, path: None, location: None })
        && message@ == "Schema includes require file-based loading via parse_schema_file"@)
    &&& document_loads(yaml) && !document_names_other_file(yaml_document(yaml)->Ok_0) ==> {
        let n = yaml_document(yaml)->Ok_0;
        &&& r matches Ok(s) ==> schema_decodes(n, s) && schema_is_valid(s)
        &&& r matches Err(e) ==> exists|s: Schema| #[trigger] schema_decodes(n, s)
            && (e matches SchemaError::Validation { message, path: None, location: None }
            && schema_violation(s) == Some(message@))
    }
}

/// Loads a schema from YAML text. A text that does not load as a document gives the error
/// of its first fault; a field list that names other files is refused, since that needs
/// file-based loading; otherwise the decoded schema is returned when it is valid, and the
/// first rule it breaks when it is not.
pub fn parse_schema_str(yaml: &str) -> (r: Result<Schema, SchemaError>)
    ensures
        text_parsed(yaml@, r),

{
    let raw = match parse_raw_schema_str(yaml) {
        Ok(raw) => raw,
        Err(e) => return Err(e),
    };
    let ghost n = yaml_document(yaml@)->Ok_0;
    let ghost items = document_list(n, "fields"@);
    if contains_include(&raw) {
        proof {
            let i = choose|i: int| 0 <= i < raw.fields@.len() && #[trigger] raw.fields@[i] is Include;
            assert(spec_raw_item(items[i]) == Ok::<RawFieldItem, Option<Seq<char>>>(raw.fields@[i]));
        }
        return Err(SchemaError::validation(
            String::from_str("Schema includes require file-based loading via parse_schema_file")));
    }
    proof {
        assert forall|i: int| 0 <= i < items.len() implies !(#[trigger] spec_raw_item(items[i]) matches Ok(RawFieldItem::Include { .. })) by {
            assert(spec_raw_item(items[i]) == Ok::<RawFieldItem, Option<Seq<char>>>(raw.fields@[i]));
        }
        lemma_item_fields_plain(raw.fields@);
    }
    let schema = schema_from_raw(raw, Vec::new(), Vec::new());
    proof {
        assert(schema.fields@ =~= item_fields(raw.fields@));
        assert(schema.structures@ =~= raw.structures@);
        assert(schema_decodes(n, schema));
    }
    match validate_schema(&schema) {
        Ok(()) => Ok(schema),
        Err(e) => Err(e),
    }
}

/// The name of a byte order as its `Debug` form prints it.
pub open spec fn endianness_name(e: Endianness) -> Seq<char> {
    match e {
        Endianness::Little => "Little"@,
        Endianness::Big => "Big"@,
    }
}

fn endianness_text(e: Endianness) -> (s: String)
    ensures
        s@ == endianness_name(e),
{
    match e {
        Endianness::Little => String::from_str("Little"),
        Endianness::Big => String::from_str("Big"),
    }
}

/// The message for a schema file whose byte order differs from the root schema's.
pub open spec fn endianness_mismatch_text(path: Seq<char>, schema: Endianness, root: Endianness) -> Seq<char> {
    "Included schema `"@ + path + "` declares "@ + endianness_name(schema)
        + " endianness, but root schema declares "@ + endianness_name(root)
        + "; schema-level defaults must match for includes in v1"@
}

/// Checks that a schema file named from another declares the root schema's byte order,
/// when both declare one.
pub fn validate_include_endianness(root_endianness: Option<Endianness>, schema_endianness: Option<Endianness>, path: &str) -> (r: Result<(), SchemaError>)
    ensures
        match (root_endianness, schema_endianness) {
            (Some(root), Some(schema)) if root != schema =>
                r matches Err(SchemaError::Validation { message, path: None, location: None })
                && message@ == endianness_mismatch_text(path@, schema, root),
            _ => r is Ok,
        },
{
    if let (Some(root), Some(schema)) = (root_endianness, schema_endianness) {
        if root != schema {
            let mut m = String::from_str("Included schema `");
            m.append(path);
            m.append("` declares ");
            let s = endianness_text(schema);
            m.append(s.as_str());
            m.append(" endianness, but root schema declares ");
            let t = endianness_text(root);
            m.append(t.as_str());
            m.append("; schema-level defaults must match for includes in v1");
            return Err(SchemaError::validation(m));
        }
    }
    Ok(())
}

proof fn lemma_items_violation_by_views(s1: Schema, s2: Schema, k: nat)
    requires
        s1.structures@ == s2.structures@,
        s1.fields@ == s2.fields@,
    ensures
        items_violation(s1, k) == items_violation(s2, k),
    decreases k,
{
    if k > 0 {
        lemma_items_violation_by_views(s1, s2, (k - 1) as nat);
    }
}

/// Whether a schema is valid depends only on its name, version and the contents of its
/// structure and field lists.
pub proof fn lemma_violation_by_views(s1: Schema, s2: Schema)
    requires
        s1.schema_name@ == s2.schema_name@,
        s1.schema_version == s2.schema_version,
        s1.structures@ == s2.structures@,
        s1.fields@ == s2.fields@,
    ensures
        schema_violation(s1) == schema_violation(s2),
{
    lemma_items_violation_by_views(s1, s2, s1.fields@.len());
}


/// Whether two structure lists agree in their names and field lists, entry by entry.
pub open spec fn same_structure_views(a: Seq<StructureDef>, b: Seq<StructureDef>) -> bool {
    &&& a.len() == b.len()
    &&& forall|i: int| 0 <= i < a.len() ==> (#[trigger] a[i]).name@ == b[i].name@ && a[i].fields@ == b[i].fields@
}

proof fn lemma_structure_fields_violation_by_views(a: StructureDef, b: StructureDef, k: nat)
    requires
        a.name@ == b.name@,
        a.fields@ == b.fields@,
    ensures
        structure_fields_violation(a, k) == structure_fields_violation(b, k),
    decreases k,
{
    if k > 0 {
        lemma_structure_fields_violation_by_views(a, b, (k - 1) as nat);
    }
}

proof fn lemma_structures_violation_by_views(a: Seq<StructureDef>, b: Seq<StructureDef>, k: nat)
    requires
        same_structure_views(a, b),
        k <= a.len(),
    ensures
        structures_violation(a, k) == structures_violation(b, k),
        forall|j: int, name: Seq<char>| 0 <= j <= a.len() ==> (name_among(a, j, name) <==> name_among(b, j, name)),
    decreases k,
{
    assert forall|j: int, name: Seq<char>| 0 <= j <= a.len() implies (name_among(a, j, name) <==> name_among(b, j, name)) by {
        if name_among(a, j, name) {
            let i = choose|i: int| 0 <= i < j && #[trigger] a[i].name@ == name;
            assert(b[i].name@ == name);
        }
        if name_among(b, j, name) {
            let i = choose|i: int| 0 <= i < j && #[trigger] b[i].name@ == name;
            assert(a[i].name@ == name);
        }
    }
    if k > 0 {
        lemma_structures_violation_by_views(a, b, (k - 1) as nat);
        lemma_structure_fields_violation_by_views(a[k - 1], b[k - 1], a[k - 1].fields@.len());
        assert(name_among(a, k - 1, a[k - 1].name@) == name_among(b, k - 1, b[k - 1].name@));
    }
}

proof fn lemma_items_violation_by_structure_views(s1: Schema, s2: Schema, k: nat)
    requires
        same_structure_views(s1.structures@, s2.structures@),
        s1.fields@ == s2.fields@,
        k <= s1.fields@.len(),
    ensures
        items_violation(s1, k) == items_violation(s2, k),
    decreases k,
{
    lemma_structures_violation_by_views(s1.structures@, s2.structures@, 0);
    if k > 0 {
        lemma_items_violation_by_structure_views(s1, s2, (k - 1) as nat);
        let n = s1.structures@.len() as int;
        assert(s1.structures.len() == s2.structures.len());
    }
}

/// Whether a schema is valid, and the first rule it breaks, depend only on its name,
/// version, field list, and the names and field lists of its structures.
pub proof fn lemma_violation_by_structure_views(s1: Schema, s2: Schema)
    requires
        s1.schema_name@ == s2.schema_name@,
        s1.schema_version == s2.schema_version,
        same_structure_views(s1.structures@, s2.structures@),
        s1.fields@ == s2.fields@,
    ensures
        schema_violation(s1) == schema_violation(s2),
{
    lemma_structures_violation_by_views(s1.structures@, s2.structures@, s1.structures@.len());
    lemma_items_violation_by_structure_views(s1, s2, s1.fields@.len());
}


/// Whether two errors are the same error: the same variant, message, path and position.
pub open spec fn same_error(e: SchemaError, f: SchemaError) -> bool {
    match (e, f) {
        (SchemaError::Yaml { message: a, location: la }, SchemaError::Yaml { message: b, location: lb }) =>
            a@ == b@ && la == lb,
        (SchemaError::Validation { message: a, path: pa, location: la },
            SchemaError::Validation { message: b, path: pb, location: lb }) =>
            a@ == b@ && la == lb && match (pa, pb) {
                (None, None) => true,
                (Some(x), Some(y)) => x@ == y@,
                _ => false,
            },
        (SchemaError::Io { path: a, source: x }, SchemaError::Io { path: b, source: y }) => a@ == b@ && x@ == y@,
        (SchemaError::IncludeCycle { cycle: a }, SchemaError::IncludeCycle { cycle: b }) => a@ == b@,
        _ => false,
    }
}

/// Whether two schemas agree in name, version, byte order, field list, and the names and
/// field lists of their structures.
pub open spec fn same_schema(a: Schema, b: Schema) -> bool {
    &&& a.schema_name@ == b.schema_name@
    &&& a.schema_version == b.schema_version
    &&& a.endianness == b.endianness
    &&& a.fields@ == b.fields@
    &&& same_structure_views(a.structures@, b.structures@)
}

/// A text fails to load in one way only: two errors that both describe the failure are the
/// same error.
pub proof fn lemma_document_failure_unique(text: Seq<char>, e: SchemaError, f: SchemaError)
    requires
        document_failure(text, e),
        document_failure(text, f),
    ensures
        same_error(e, f),
{
}

/// Two schemas that a document decodes to agree in everything `same_schema` compares.
pub proof fn lemma_decoded_schemas_agree(n: YamlNode, a: Schema, b: Schema)
    requires
        schema_decodes(n, a),
        schema_decodes(n, b),
    ensures
        same_schema(a, b),
{
    let ds = document_list(n, "structures"@);
    let items = document_list(n, "fields"@);
    assert forall|i: int| 0 <= i < a.structures@.len() implies
        (#[trigger] a.structures@[i]).name@ == b.structures@[i].name@ && a.structures@[i].fields@ == b.structures@[i].fields@ by {
        assert(structure_decodes(ds[i], a.structures@[i]));
        assert(structure_decodes(ds[i], b.structures@[i]));
        let x = a.structures@[i];
        let y = b.structures@[i];
        if let YamlNode::Mapping(entries) = ds[i] {
            if let Some(YamlNode::Sequence(its)) = map_lookup(entries@, "fields"@) {
                assert forall|j: int| 0 <= j < x.fields@.len() implies x.fields@[j] == y.fields@[j] by {
                    assert(spec_dec_field_def(its@[j]) == Some(x.fields@[j]));
                    assert(spec_dec_field_def(its@[j]) == Some(y.fields@[j]));
                }
                assert(x.fields@ =~= y.fields@);
            }
        }
    }
    assert forall|i: int| 0 <= i < a.fields@.len() implies a.fields@[i] == b.fields@[i] by {
        assert(spec_raw_item(items[i]) == Ok::<RawFieldItem, Option<Seq<char>>>(RawFieldItem::FieldItem(a.fields@[i])));
        assert(spec_raw_item(items[i]) == Ok::<RawFieldItem, Option<Seq<char>>>(RawFieldItem::FieldItem(b.fields@[i])));
    }
    assert(a.fields@ =~= b.fields@);
}


/// `c` in lower case where it is an ASCII capital letter, else `c` itself.
pub open spec fn ascii_lower_char(c: char) -> char {
    if 'A' <= c && c <= 'Z' { ((c as u32) + 32) as char } else { c }
}

/// `s` with its ASCII capital letters in lower case.
pub open spec fn ascii_lower(s: Seq<char>) -> Seq<char> {
    s.map_values(|c: char| ascii_lower_char(c))
}

/// A field type is written in a schema as the name of its variant in lower case (`u8`,
/// `u16`, `u32`, `u64`, `i32`, `f32`, `bytes`, `ascii`): a string decodes to a field type
/// exactly when it is that type's name in lower case, so `i32` gives `I32` and no other.
pub proof fn law_field_type_names_decode_to_their_variant(n: YamlNode, t: FieldType)
    requires
        n is Str,
    ensures
        spec_dec_field_type(n) == Some(t) <==> n->Str_0@ == ascii_lower(field_type_name(t)),
{
    reveal_strlit("U8");
    reveal_strlit("U16");
    reveal_strlit("U32");
    reveal_strlit("U64");
    reveal_strlit("I32");
    reveal_strlit("F32");
    reveal_strlit("Bytes");
    reveal_strlit("Ascii");
    reveal_strlit("u8");
    reveal_strlit("u16");
    reveal_strlit("u32");
    reveal_strlit("u64");
    reveal_strlit("i32");
    reveal_strlit("f32");
    reveal_strlit("bytes");
    reveal_strlit("ascii");
    assert(ascii_lower("U8"@) =~= "u8"@);
    assert(ascii_lower("U16"@) =~= "u16"@);
    assert(ascii_lower("U32"@) =~= "u32"@);
    assert(ascii_lower("U64"@) =~= "u64"@);
    assert(ascii_lower("I32"@) =~= "i32"@);
    assert(ascii_lower("F32"@) =~= "f32"@);
    assert(ascii_lower("Bytes"@) =~= "bytes"@);
    assert(ascii_lower("Ascii"@) =~= "ascii"@);
    let s = n->Str_0@;
    let names = seq!["u8"@, "u16"@, "u32"@, "u64"@, "i32"@, "f32"@, "bytes"@, "ascii"@];
    assert forall|i: int, j: int| 0 <= i < j < 8 implies names[i] != names[j] by {
        if names[i].len() == names[j].len() {
            assert(names[i][0] != names[j][0] || names[i][1] != names[j][1]);
        }
    }
    assert(names[0] == "u8"@ && names[1] == "u16"@ && names[2] == "u32"@ && names[3] == "u64"@);
    assert(names[4] == "i32"@ && names[5] == "f32"@ && names[6] == "bytes"@ && names[7] == "ascii"@);
}

/// A structure instance placed at a field's value (a `FieldRef` offset naming a field) is
/// refused for its offset exactly when it repeats: without a repeat such an offset is fine.
pub proof fn law_dynamic_instance_offset_refused_only_with_repeat(inst: StructInstanceDef, label: Seq<char>)
    requires
        inst.offset matches OffsetKind::FieldRef(r) && !is_blank(r@),
    ensures
        instance_offset_violation(inst, label) is Some <==> inst.repeat is Some,
{
}

/// Dropping the repeat of a structure instance that passes validation leaves an instance
/// that passes too: no rule refuses an instance for lacking a repeat.
pub proof fn law_instance_without_repeat_stays_valid(inst: StructInstanceDef, structures: Seq<StructureDef>, idx: nat)
    requires
        instance_violation(inst, structures, idx) is None,
    ensures
        instance_violation(StructInstanceDef { repeat: None, ..inst }, structures, idx) is None,
{
    let plain = StructInstanceDef { repeat: None, ..inst };
    if !is_blank(inst.name@) {
        let label = instance_label(inst.name@);
        match inst.offset {
            OffsetKind::Expr(e) => {
                if int_expr_violation(e, label, "offset"@) is Some {
                    assert(instance_offset_violation(inst, label) is Some);
                }
            },
            _ => {},
        }
        assert(instance_offset_violation(plain, label) is None);
        assert(instance_repeat_violation(plain, label) is None);
    }
}


proof fn lemma_items_violation_agree(s1: Schema, s2: Schema, n: nat)
    requires
        forall|i: int| 0 <= i < n ==> #[trigger] item_violation(s1, i) == item_violation(s2, i),
    ensures
        items_violation(s1, n) == items_violation(s2, n),
    decreases n,
{
    if n > 0 {
        lemma_items_violation_agree(s1, s2, (n - 1) as nat);
        assert(item_violation(s1, n - 1) == item_violation(s2, n - 1));
    }
}

/// A structure instance without a repeat that is placed at a field's value (a `FieldRef`
/// offset naming a field) is judged as if it were placed at a fixed offset: two schemas
/// that differ only in that one instance's offset are refused with the same message, or
/// both accepted.
pub proof fn law_unrepeated_dynamic_instance_judged_as_fixed(s1: Schema, s2: Schema, k: int, a: StructInstanceDef, o: u64)
    requires
        s1.schema_name@ == s2.schema_name@,
        s1.schema_version == s2.schema_version,
        s1.structures@ == s2.structures@,
        s1.fields@.len() == s2.fields@.len(),
        0 <= k < s1.fields@.len(),
        forall|i: int| 0 <= i < s1.fields@.len() && i != k ==> #[trigger] s1.fields@[i] == s2.fields@[i],
        s1.fields@[k] == FieldItem::StructInstance(a),
        a.offset matches OffsetKind::FieldRef(r) && !is_blank(r@),
        a.repeat is None,
        s2.fields@[k] == FieldItem::StructInstance(StructInstanceDef { offset: OffsetKind::Absolute(o), ..a }),
    ensures
        schema_violation(s1) == schema_violation(s2),
{
    assert forall|i: int| 0 <= i < s1.fields@.len() implies #[trigger] item_violation(s1, i) == item_violation(s2, i) by {
        if i != k {
            assert(s1.fields@[i] == s2.fields@[i]);
        }
    }
    lemma_items_violation_agree(s1, s2, s1.fields@.len());
}

} // verus!
