use std::collections::HashMap;
use std::path::{Component, Path, PathBuf};

use binocular::ast::{
    Endianness, FieldDef, FieldItem, FieldType, IntExpr, IntExprOp, LengthSpec, OffsetKind, RepeatInfo, Schema,
    StructInstanceDef, WhenOp,
};
use binocular::loader::{LoadStep, SchemaFileLoader};
use binocular::parser::{parse_schema_str, validate_schema, MAX_REPEAT_COUNT};
use binocular::schema_error::SchemaError;

/// Schema files kept in memory, addressed by path.
struct FakeFiles {
    files: HashMap<PathBuf, String>,
}

impl FakeFiles {
    fn new() -> Self {
        FakeFiles { files: HashMap::new() }
    }

    fn dir(&self, prefix: &str) -> PathBuf {
        PathBuf::from("/schemas").join(prefix)
    }

    fn write(&mut self, path: PathBuf, contents: &str) {
        self.files.insert(normalize(&path), contents.to_string());
    }

    fn read(&self, path: &str) -> Result<String, String> {
        self.files
            .get(Path::new(path))
            .cloned()
            .ok_or_else(|| "No such file or directory (os error 2)".to_string())
    }
}

/// Resolves `.` and `..` components, as canonicalizing a path does.
fn normalize(path: &Path) -> PathBuf {
    let mut out = PathBuf::new();
    for component in path.components() {
        match component {
            Component::ParentDir => {
                out.pop();
            }
            Component::CurDir => {}
            other => out.push(other.as_os_str()),
        }
    }
    out
}

/// Loads a schema file and the files it names, reading from `files`.
fn load_schema_file(files: &FakeFiles, path: PathBuf) -> Result<Schema, SchemaError> {
    let mut loader = SchemaFileLoader::new();
    let mut step = loader.enter(normalize(&path).display().to_string());
    loop {
        step = match step {
            LoadStep::ReadFile { path } => loader.file_read(files.read(&path)),
            LoadStep::Resolve { from, path } => {
                let base = Path::new(&from).parent().map(Path::to_path_buf).unwrap_or_default();
                loader.enter(normalize(&base.join(path)).display().to_string())
            }
            LoadStep::Continue => loader.run(),
            LoadStep::Done(result) => return result,
        };
    }
}

fn field(schema: &Schema, index: usize) -> &FieldDef {
    match &schema.fields[index] {
        FieldItem::Field(field) => field,
        FieldItem::StructInstance(_) => panic!("expected scalar field at index {index}"),
    }
}

fn field_mut(schema: &mut Schema, index: usize) -> &mut FieldDef {
    match &mut schema.fields[index] {
        FieldItem::Field(field) => field,
        FieldItem::StructInstance(_) => panic!("expected scalar field at index {index}"),
    }
}

fn struct_instance(schema: &Schema, index: usize) -> &StructInstanceDef {
    match &schema.fields[index] {
        FieldItem::StructInstance(instance) => instance,
        FieldItem::Field(_) => panic!("expected struct instance at index {index}"),
    }
}

fn item_name(item: &FieldItem) -> &str {
    match item {
        FieldItem::Field(field) => field.name.as_str(),
        FieldItem::StructInstance(instance) => instance.name.as_str(),
    }
}

fn base_schema() -> Schema {
    Schema {
        schema_name: "test".to_string(),
        schema_version: 1,
        endianness: Some(Endianness::Little),
        structures: vec![],
        fields: vec![FieldItem::Field(FieldDef {
            name: "field1".to_string(),
            ty: FieldType::Bytes,
            offset: OffsetKind::Absolute(0),
            length: Some(LengthSpec::Literal(4)),
            endianness: None,
            description: None,
            repeat: None,
            when: None,
        })],
    }
}

fn expect_validation_error(yaml: &str) {
    match parse_schema_str(yaml) {
        Err(SchemaError::Validation { .. }) => {}
        other => panic!("expected validation error, got {other:?}"),
    }
}

#[test]
fn validate_schema_accepts_valid_schema() {
    let schema = base_schema();
    assert!(validate_schema(&schema).is_ok());
}

#[test]
fn validate_schema_rejects_empty_schema_name() {
    let mut schema = base_schema();
    schema.schema_name = "  ".into();
    let err = validate_schema(&schema).unwrap_err();
    assert!(err.to_string().contains("Schema name"));
}

#[test]
fn validate_schema_rejects_old_version() {
    let mut schema = base_schema();
    schema.schema_version = 0;
    let err = validate_schema(&schema).unwrap_err();
    assert!(err.to_string().contains("version"));
}

#[test]
fn validate_schema_rejects_empty_field_name() {
    let mut schema = base_schema();
    field_mut(&mut schema, 0).name = "".into();
    let err = validate_schema(&schema).unwrap_err();
    assert!(err.to_string().contains("empty name"));
}

#[test]
fn validate_schema_rejects_expr_offset() {
    let mut schema = base_schema();
    field_mut(&mut schema, 0).offset = OffsetKind::Expr(IntExpr::FieldRef { field: "".into() });
    let err = validate_schema(&schema).unwrap_err();
    assert!(err
        .to_string()
        .contains("empty offset expression field name"));
}

#[test]
fn validate_schema_accepts_repeat() {
    let mut schema = base_schema();
    field_mut(&mut schema, 0).repeat = Some(RepeatInfo {
        count: 2,
        stride: None,
    });
    assert!(validate_schema(&schema).is_ok());
}

#[test]
fn validate_schema_rejects_zero_repeat_count() {
    let mut schema = base_schema();
    field_mut(&mut schema, 0).repeat = Some(RepeatInfo {
        count: 0,
        stride: None,
    });
    let err = validate_schema(&schema).unwrap_err();
    assert!(err.to_string().contains("repeat count 0"));
}

#[test]
fn validate_schema_rejects_repeat_count_over_max() {
    let mut schema = base_schema();
    field_mut(&mut schema, 0).repeat = Some(RepeatInfo {
        count: MAX_REPEAT_COUNT + 1,
        stride: None,
    });
    let err = validate_schema(&schema).unwrap_err();
    assert!(err.to_string().contains("maximum supported count"));
}

#[test]
fn validate_schema_rejects_length_on_numeric() {
    let mut schema = base_schema();
    field_mut(&mut schema, 0).ty = FieldType::U16;
    let err = validate_schema(&schema).unwrap_err();
    assert!(err.to_string().contains("length"));
}

#[test]
fn validate_schema_rejects_zero_length() {
    let mut schema = base_schema();
    field_mut(&mut schema, 0).length = Some(LengthSpec::Literal(0));
    let err = validate_schema(&schema).unwrap_err();
    assert!(err.to_string().contains("length 0"));
}

#[test]
fn parse_schema_str_accepts_valid_yaml() {
    let yaml = r#"
schema_name: "Packet"
schema_version: 1
endianness: little
fields:
  - name: "header"
    type: bytes
    offset:
      kind: Absolute
      value: 0
    length: 4
  - name: "value"
    type: u16
    offset:
      kind: Absolute
      value: 4
"#;

    let schema = parse_schema_str(yaml).expect("valid schema should parse");
    assert_eq!(schema.schema_name, "Packet");
    assert_eq!(schema.fields.len(), 2);
}

#[test]
fn parse_schema_str_rejects_include_usage() {
    let yaml = r#"
schema_name: "Packet"
schema_version: 1
endianness: little
fields:
  - include: "common.yaml"
"#;

    let err = parse_schema_str(yaml).unwrap_err();
    assert!(err.to_string().contains("file-based loading"));
}

#[test]
fn parse_schema_rejects_bytes_without_length() {
    let yaml = r#"
schema_name: "NoLength"
schema_version: 1
endianness: little
fields:
  - name: "payload"
    type: bytes
    offset:
      kind: Absolute
      value: 0
"#;

    expect_validation_error(yaml);
}

#[test]
fn parse_schema_rejects_numeric_with_length() {
    let yaml = r#"
schema_name: "NumericLength"
schema_version: 1
endianness: little
fields:
  - name: "value"
    type: u32
    offset:
      kind: Absolute
      value: 0
    length: 4
"#;

    expect_validation_error(yaml);
}

#[test]
fn parse_schema_accepts_dynamic_length() {
    let yaml = r#"
schema_name: "DynamicLength"
schema_version: 1
endianness: little
fields:
  - name: "block_len"
    type: u16
    offset:
      kind: Absolute
      value: 0
  - name: "payload"
    type: bytes
    offset:
      kind: Absolute
      value: 2
    length:
      field: "block_len"
"#;

    let schema = parse_schema_str(yaml).expect("dynamic length should parse");
    assert!(matches!(
        field(&schema, 1).length,
        Some(LengthSpec::FieldRef { ref field }) if field == "block_len"
    ));
}

#[test]
fn parse_schema_accepts_expression_length() {
    let yaml = r#"
schema_name: "ExprLength"
schema_version: 1
endianness: little
fields:
  - name: "block_len"
    type: u16
    offset:
      kind: Absolute
      value: 0
  - name: "payload"
    type: bytes
    offset:
      kind: Absolute
      value: 2
    length:
      expr:
        op: sub
        left:
          field: "block_len"
        right:
          const: 4
"#;

    let schema = parse_schema_str(yaml).expect("expression length should parse");
    assert!(matches!(
        field(&schema, 1).length,
        Some(LengthSpec::Expr {
            expr: IntExpr::Binary {
                op: IntExprOp::Sub,
                ..
            }
        })
    ));
}

#[test]
fn parse_schema_accepts_dynamic_offset() {
    let yaml = r#"
schema_name: "DynamicOffset"
schema_version: 1
endianness: little
fields:
  - name: "data_offset"
    type: u32
    offset:
      kind: Absolute
      value: 0
  - name: "payload"
    type: bytes
    offset:
      kind: FieldRef
      value: "data_offset"
    length: 4
"#;

    let schema = parse_schema_str(yaml).expect("dynamic offset should parse");
    assert!(matches!(
        field(&schema, 1).offset,
        OffsetKind::FieldRef(ref field) if field == "data_offset"
    ));
}

#[test]
fn parse_schema_accepts_expression_offset() {
    let yaml = r#"
schema_name: "ExprOffset"
schema_version: 1
endianness: little
fields:
  - name: "data_offset"
    type: u32
    offset:
      kind: Absolute
      value: 0
  - name: "payload"
    type: bytes
    offset:
      kind: Expr
      value:
        op: add
        left:
          field: "data_offset"
        right:
          const: 4
    length: 4
"#;

    let schema = parse_schema_str(yaml).expect("expression offset should parse");
    assert!(matches!(
        field(&schema, 1).offset,
        OffsetKind::Expr(IntExpr::Binary {
            op: IntExprOp::Add,
            ..
        })
    ));
}

#[test]
fn parse_schema_accepts_when_on_scalar_struct_instance_and_child_field() {
    let yaml = r#"
schema_name: "Conditional"
schema_version: 1
endianness: little
structures:
  - name: packet
    fields:
      - name: flags
        type: u16
        offset: { kind: Relative, value: 0 }
      - name: payload
        type: bytes
        offset: { kind: Relative, value: 2 }
        length: 2
        when:
          field: packet.flags
          bit_set: 2
fields:
  - name: product_code
    type: u16
    offset: { kind: Absolute, value: 0 }
  - name: extra
    type: u8
    offset: { kind: Absolute, value: 2 }
    when:
      field: product_code
      not_equals: 94
  - name: packet
    struct: packet
    offset: { kind: Absolute, value: 4 }
    when:
      field: product_code
      equals: 94
"#;

    let schema = parse_schema_str(yaml).expect("conditional schema should parse");

    assert!(matches!(
        field(&schema, 1)
            .when
            .as_ref()
            .map(|condition| &condition.op),
        Some(WhenOp::NotEquals(94))
    ));
    assert!(matches!(
        struct_instance(&schema, 2)
            .when
            .as_ref()
            .map(|condition| &condition.op),
        Some(WhenOp::Equals(94))
    ));
    assert!(matches!(
        schema.structures[0].fields[1]
            .when
            .as_ref()
            .map(|condition| &condition.op),
        Some(WhenOp::BitSet(2))
    ));
}

#[test]
fn parse_schema_rejects_when_with_empty_field_reference() {
    let yaml = r#"
schema_name: "Conditional"
schema_version: 1
fields:
  - name: value
    type: u8
    offset: { kind: Absolute, value: 0 }
    when:
      field: ""
      equals: 1
"#;

    expect_validation_error(yaml);
}

#[test]
fn parse_schema_rejects_when_without_operator() {
    let yaml = r#"
schema_name: "Conditional"
schema_version: 1
fields:
  - name: value
    type: u8
    offset: { kind: Absolute, value: 0 }
    when:
      field: flags
"#;

    let err = parse_schema_str(yaml).unwrap_err();
    assert!(matches!(err, SchemaError::Yaml { .. }));
    assert!(err.to_string().contains("exactly one"));
}

#[test]
fn parse_schema_rejects_when_with_multiple_operators() {
    let yaml = r#"
schema_name: "Conditional"
schema_version: 1
fields:
  - name: value
    type: u8
    offset: { kind: Absolute, value: 0 }
    when:
      field: flags
      equals: 1
      not_equals: 2
"#;

    let err = parse_schema_str(yaml).unwrap_err();
    assert!(matches!(err, SchemaError::Yaml { .. }));
    assert!(err.to_string().contains("multiple operators"));
}

#[test]
fn parse_schema_rejects_when_with_unsupported_operator() {
    let yaml = r#"
schema_name: "Conditional"
schema_version: 1
fields:
  - name: value
    type: u8
    offset: { kind: Absolute, value: 0 }
    when:
      field: flags
      greater_than: 1
"#;

    let err = parse_schema_str(yaml).unwrap_err();
    assert!(matches!(err, SchemaError::Yaml { .. }));
    assert!(err.to_string().contains("greater_than"));
}

#[test]
fn parse_schema_rejects_when_with_non_integer_operator_value() {
    let yaml = r#"
schema_name: "Conditional"
schema_version: 1
fields:
  - name: value
    type: u8
    offset: { kind: Absolute, value: 0 }
    when:
      field: flags
      equals: yes
"#;

    let err = parse_schema_str(yaml).unwrap_err();
    assert!(matches!(err, SchemaError::Yaml { .. }));
}

#[test]
fn parse_schema_rejects_when_with_bit_set_above_max() {
    let yaml = r#"
schema_name: "Conditional"
schema_version: 1
fields:
  - name: value
    type: u8
    offset: { kind: Absolute, value: 0 }
    when:
      field: flags
      bit_set: 64
"#;

    let err = parse_schema_str(yaml).unwrap_err();
    assert!(matches!(err, SchemaError::Validation { .. }));
    assert!(err.to_string().contains("maximum supported index is 63"));
}

#[test]
fn parse_schema_rejects_dynamic_length_on_repeated_field() {
    let yaml = r#"
schema_name: "DynamicRepeated"
schema_version: 1
endianness: little
fields:
  - name: "payload"
    type: bytes
    offset:
      kind: Absolute
      value: 0
    length:
      field: "block_len"
    repeat:
      count: 2
"#;

    expect_validation_error(yaml);
}

#[test]
fn parse_schema_rejects_expression_length_on_repeated_field() {
    let yaml = r#"
schema_name: "DynamicRepeated"
schema_version: 1
endianness: little
fields:
  - name: "payload"
    type: bytes
    offset:
      kind: Absolute
      value: 0
    length:
      expr:
        op: sub
        left:
          field: "block_len"
        right:
          const: 1
    repeat:
      count: 2
"#;

    expect_validation_error(yaml);
}

#[test]
fn parse_schema_rejects_empty_dynamic_offset_reference() {
    let yaml = r#"
schema_name: "DynamicOffset"
schema_version: 1
endianness: little
fields:
  - name: "payload"
    type: bytes
    offset:
      kind: FieldRef
      value: ""
    length: 4
"#;

    expect_validation_error(yaml);
}

#[test]
fn parse_schema_rejects_dynamic_offset_on_repeated_field() {
    let yaml = r#"
schema_name: "DynamicOffsetRepeat"
schema_version: 1
endianness: little
fields:
  - name: "payload"
    type: bytes
    offset:
      kind: FieldRef
      value: "data_offset"
    length: 4
    repeat:
      count: 2
"#;

    expect_validation_error(yaml);
}

#[test]
fn parse_schema_rejects_expression_offset_on_repeated_field() {
    let yaml = r#"
schema_name: "DynamicOffsetRepeat"
schema_version: 1
endianness: little
fields:
  - name: "payload"
    type: bytes
    offset:
      kind: Expr
      value:
        op: add
        left:
          field: "data_offset"
        right:
          const: 4
    length: 4
    repeat:
      count: 2
"#;

    expect_validation_error(yaml);
}

#[test]
fn parse_schema_rejects_string_expression_offset_payload() {
    let yaml = r#"
schema_name: "ExprOffset"
schema_version: 1
endianness: little
fields:
  - name: "value"
    type: u16
    offset:
      kind: Expr
      value: "a+b"
"#;

    let err = parse_schema_str(yaml).unwrap_err();
    assert!(matches!(err, SchemaError::Yaml { .. }));
}

#[test]
fn parse_schema_rejects_expression_with_empty_field_ref() {
    let yaml = r#"
schema_name: "ExprOffset"
schema_version: 1
endianness: little
fields:
  - name: "payload"
    type: bytes
    offset:
      kind: Absolute
      value: 0
    length:
      expr:
        op: add
        left:
          field: ""
        right:
          const: 4
"#;

    expect_validation_error(yaml);
}

#[test]
fn parse_schema_rejects_expression_with_unsupported_op() {
    let yaml = r#"
schema_name: "ExprOffset"
schema_version: 1
endianness: little
fields:
  - name: "payload"
    type: bytes
    offset:
      kind: Absolute
      value: 0
    length:
      expr:
        op: mul
        left:
          const: 2
        right:
          const: 4
"#;

    let err = parse_schema_str(yaml).unwrap_err();
    assert!(matches!(err, SchemaError::Yaml { .. }));
}

#[test]
fn parse_schema_rejects_empty_field_name() {
    let yaml = r#"
schema_name: "EmptyField"
schema_version: 1
endianness: little
fields:
  - name: ""
    type: u16
    offset:
      kind: Absolute
      value: 0
"#;

    expect_validation_error(yaml);
}

#[test]
fn parse_schema_accepts_repeat_usage() {
    let yaml = r#"
schema_name: "WithRepeat"
schema_version: 1
endianness: little
fields:
  - name: "values"
    type: u8
    offset:
      kind: Absolute
      value: 0
    repeat:
      count: 2
"#;

    let schema = parse_schema_str(yaml).expect("repeat should be accepted");
    assert_eq!(field(&schema, 0).repeat.as_ref().map(|r| r.count), Some(2));
}

#[test]
fn parse_schema_rejects_zero_repeat_count() {
    let yaml = r#"
schema_name: "WithRepeat"
schema_version: 1
endianness: little
fields:
  - name: "values"
    type: u8
    offset:
      kind: Absolute
      value: 0
    repeat:
      count: 0
"#;

    expect_validation_error(yaml);
}

#[test]
fn parse_schema_rejects_repeat_count_over_max() {
    let yaml = format!(
        r#"
schema_name: "WithRepeat"
schema_version: 1
endianness: little
fields:
  - name: "values"
    type: u8
    offset:
      kind: Absolute
      value: 0
    repeat:
      count: {}
"#,
        MAX_REPEAT_COUNT + 1
    );

    expect_validation_error(&yaml);
}

#[test]
fn parse_schema_accepts_structure_instance() {
    let yaml = r#"
schema_name: "Structured"
schema_version: 1
endianness: little
structures:
  - name: header
    fields:
      - name: magic
        type: u16
        offset:
          kind: Relative
          value: 0
      - name: length
        type: u16
        offset:
          kind: Relative
          value: 2
fields:
  - name: header
    struct: header
    offset:
      kind: Absolute
      value: 0
"#;

    let schema = parse_schema_str(yaml).expect("structured schema should parse");
    assert_eq!(schema.structures.len(), 1);
    assert_eq!(schema.structures[0].name, "header");
    assert!(matches!(
        &schema.fields[0],
        FieldItem::StructInstance(instance)
            if instance.name == "header" && instance.struct_name == "header"
    ));
}

#[test]
fn parse_schema_rejects_duplicate_structure_name() {
    let yaml = r#"
schema_name: "DuplicateStruct"
schema_version: 1
structures:
  - name: header
    fields:
      - name: magic
        type: u16
        offset: { kind: Relative, value: 0 }
  - name: header
    fields:
      - name: length
        type: u16
        offset: { kind: Relative, value: 2 }
fields: []
"#;

    let err = parse_schema_str(yaml).unwrap_err();
    assert!(err.to_string().contains("Duplicate structure name"));
}

#[test]
fn parse_schema_rejects_unknown_struct_reference() {
    let yaml = r#"
schema_name: "UnknownStruct"
schema_version: 1
fields:
  - name: header
    struct: missing
    offset: { kind: Absolute, value: 0 }
"#;

    let err = parse_schema_str(yaml).unwrap_err();
    assert!(err.to_string().contains("unknown structure"));
}

#[test]
fn parse_schema_rejects_empty_structure_name() {
    let yaml = r#"
schema_name: "EmptyStruct"
schema_version: 1
structures:
  - name: ""
    fields:
      - name: magic
        type: u16
        offset: { kind: Relative, value: 0 }
fields: []
"#;

    expect_validation_error(yaml);
}

#[test]
fn parse_schema_rejects_empty_structure_child_name() {
    let yaml = r#"
schema_name: "EmptyChild"
schema_version: 1
structures:
  - name: header
    fields:
      - name: ""
        type: u16
        offset: { kind: Relative, value: 0 }
fields: []
"#;

    expect_validation_error(yaml);
}

#[test]
fn parse_schema_rejects_absolute_structure_child_offset() {
    let yaml = r#"
schema_name: "AbsoluteChild"
schema_version: 1
structures:
  - name: header
    fields:
      - name: magic
        type: u16
        offset: { kind: Absolute, value: 0 }
fields: []
"#;

    let err = parse_schema_str(yaml).unwrap_err();
    assert!(err
        .to_string()
        .contains("absolute offset inside a structure"));
}

#[test]
fn parse_schema_rejects_relative_top_level_offset() {
    let yaml = r#"
schema_name: "RelativeTop"
schema_version: 1
fields:
  - name: value
    type: u16
    offset: { kind: Relative, value: 0 }
"#;

    let err = parse_schema_str(yaml).unwrap_err();
    assert!(err
        .to_string()
        .contains("relative offset outside a structure"));
}

#[test]
fn parse_schema_rejects_dynamic_structure_child_offset() {
    let yaml = r#"
schema_name: "DynamicChild"
schema_version: 1
structures:
  - name: header
    fields:
      - name: magic
        type: u16
        offset: { kind: FieldRef, value: base }
fields: []
"#;

    let err = parse_schema_str(yaml).unwrap_err();
    assert!(err
        .to_string()
        .contains("dynamic offset inside a structure"));
}

#[test]
fn parse_schema_rejects_repeated_struct_without_stride() {
    let yaml = r#"
schema_name: "RepeatedStruct"
schema_version: 1
structures:
  - name: record
    fields:
      - name: id
        type: u16
        offset: { kind: Relative, value: 0 }
fields:
  - name: records
    struct: record
    offset: { kind: Absolute, value: 0 }
    repeat:
      count: 2
"#;

    let err = parse_schema_str(yaml).unwrap_err();
    assert!(err.to_string().contains("must specify repeat stride"));
}

#[test]
fn parse_schema_file_preserves_include_field_order() {
    let mut files = FakeFiles::new();
    let dir = files.dir("include_order");
    files.write(
        dir.join("root.yaml"),
        r#"
schema_name: "Root"
schema_version: 1
endianness: little
fields:
  - name: "magic"
    type: u32
    offset:
      kind: Absolute
      value: 0
  - include: "common.yaml"
  - name: "tail"
    type: bytes
    offset:
      kind: Absolute
      value: 16
    length: 4
"#,
    );
    files.write(
        dir.join("common.yaml"),
        r#"
schema_name: "Common"
schema_version: 1
endianness: little
fields:
  - name: "version"
    type: u16
    offset:
      kind: Absolute
      value: 4
  - name: "flags"
    type: u16
    offset:
      kind: Absolute
      value: 6
"#,
    );

    let schema = load_schema_file(&files, dir.join("root.yaml")).expect("include should resolve");
    let names = schema.fields.iter().map(item_name).collect::<Vec<_>>();
    assert_eq!(names, vec!["magic", "version", "flags", "tail"]);
}

#[test]
fn parse_schema_file_merges_included_structures_and_field_items_at_include_position() {
    let mut files = FakeFiles::new();
    let dir = files.dir("include_structures");
    files.write(
        dir.join("root.yaml"),
        r#"
schema_name: "Root"
schema_version: 1
endianness: little
fields:
  - name: "magic"
    type: u16
    offset:
      kind: Absolute
      value: 0
  - include: "common.yaml"
  - name: "tail"
    type: u16
    offset:
      kind: Absolute
      value: 8
"#,
    );
    files.write(
        dir.join("common.yaml"),
        r#"
schema_name: "Common"
schema_version: 1
endianness: little
structures:
  - name: header
    fields:
      - name: value
        type: u16
        offset:
          kind: Relative
          value: 0
fields:
  - name: "common_header"
    struct: header
    offset:
      kind: Absolute
      value: 2
"#,
    );

    let schema = load_schema_file(&files, dir.join("root.yaml")).expect("include should resolve");
    assert_eq!(schema.structures.len(), 1);
    assert_eq!(schema.structures[0].name, "header");

    let names = schema.fields.iter().map(item_name).collect::<Vec<_>>();
    assert_eq!(names, vec!["magic", "common_header", "tail"]);
}

#[test]
fn parse_schema_file_rejects_duplicate_structure_names_across_includes() {
    let mut files = FakeFiles::new();
    let dir = files.dir("include_duplicate_structure");
    files.write(
        dir.join("root.yaml"),
        r#"
schema_name: "Root"
schema_version: 1
structures:
  - name: header
    fields:
      - name: magic
        type: u16
        offset: { kind: Relative, value: 0 }
fields:
  - include: "common.yaml"
"#,
    );
    files.write(
        dir.join("common.yaml"),
        r#"
schema_name: "Common"
schema_version: 1
structures:
  - name: header
    fields:
      - name: length
        type: u16
        offset: { kind: Relative, value: 0 }
fields: []
"#,
    );

    let err = load_schema_file(&files, dir.join("root.yaml")).unwrap_err();
    assert!(err.to_string().contains("Duplicate structure name"));
}

#[test]
fn parse_schema_file_supports_nested_relative_includes() {
    let mut files = FakeFiles::new();
    let dir = files.dir("nested_include");
    files.write(
        dir.join("root.yaml"),
        r#"
schema_name: "Root"
schema_version: 1
endianness: little
fields:
  - include: "parts/common.yaml"
  - name: "tail"
    type: bytes
    offset:
      kind: Absolute
      value: 12
    length: 2
"#,
    );
    files.write(
        dir.join("parts/common.yaml"),
        r#"
schema_name: "Common"
schema_version: 1
endianness: little
fields:
  - name: "magic"
    type: u32
    offset:
      kind: Absolute
      value: 0
  - include: "../shared/more.yaml"
"#,
    );
    files.write(
        dir.join("shared/more.yaml"),
        r#"
schema_name: "More"
schema_version: 1
endianness: little
fields:
  - name: "value"
    type: u32
    offset:
      kind: Absolute
      value: 4
"#,
    );

    let schema = load_schema_file(&files, dir.join("root.yaml")).expect("nested include should work");
    let names = schema.fields.iter().map(item_name).collect::<Vec<_>>();
    assert_eq!(names, vec!["magic", "value", "tail"]);
}

#[test]
fn parse_schema_file_rejects_missing_include_file() {
    let mut files = FakeFiles::new();
    let dir = files.dir("missing_include");
    files.write(
        dir.join("root.yaml"),
        r#"
schema_name: "Root"
schema_version: 1
endianness: little
fields:
  - include: "missing.yaml"
"#,
    );

    let err = load_schema_file(&files, dir.join("root.yaml")).unwrap_err();
    assert!(matches!(err, SchemaError::Io { .. }));
    assert!(err.to_string().contains("missing.yaml"));
}

#[test]
fn parse_schema_file_rejects_include_cycles() {
    let mut files = FakeFiles::new();
    let dir = files.dir("include_cycle");
    files.write(
        dir.join("a.yaml"),
        r#"
schema_name: "A"
schema_version: 1
endianness: little
fields:
  - include: "b.yaml"
"#,
    );
    files.write(
        dir.join("b.yaml"),
        r#"
schema_name: "B"
schema_version: 1
endianness: little
fields:
  - include: "a.yaml"
"#,
    );

    let err = load_schema_file(&files, dir.join("a.yaml")).unwrap_err();
    assert!(matches!(err, SchemaError::IncludeCycle { .. }));
    assert!(err.to_string().contains("cycle"));
}

#[test]
fn parse_schema_file_rejects_include_items_with_extra_keys() {
    let mut files = FakeFiles::new();
    let dir = files.dir("include_extra_keys");
    files.write(
        dir.join("root.yaml"),
        r#"
schema_name: "Root"
schema_version: 1
endianness: little
fields:
  - include: "common.yaml"
    offset: 10
"#,
    );
    files.write(
        dir.join("common.yaml"),
        r#"
schema_name: "Common"
schema_version: 1
endianness: little
fields:
  - name: "value"
    type: u8
    offset:
      kind: Absolute
      value: 0
"#,
    );

    let err = load_schema_file(&files, dir.join("root.yaml")).unwrap_err();
    assert!(matches!(err, SchemaError::Validation { .. }));
    assert!(err.to_string().contains("exactly one key"));
}

#[test]
fn parse_schema_file_accepts_valid_repeat_in_included_fields() {
    let mut files = FakeFiles::new();
    let dir = files.dir("include_repeat_valid");
    files.write(
        dir.join("root.yaml"),
        r#"
schema_name: "Root"
schema_version: 1
endianness: little
fields:
  - include: "common.yaml"
"#,
    );
    files.write(
        dir.join("common.yaml"),
        r#"
schema_name: "Common"
schema_version: 1
endianness: little
fields:
  - name: "values"
    type: u8
    offset:
      kind: Absolute
      value: 0
    repeat:
      count: 3
"#,
    );

    let schema = load_schema_file(&files, dir.join("root.yaml")).expect("repeat should be valid");
    assert_eq!(
        field(&schema, 0).repeat.as_ref().map(|repeat| repeat.count),
        Some(3)
    );
}

#[test]
fn parse_schema_file_rejects_invalid_repeat_in_included_fields() {
    let mut files = FakeFiles::new();
    let dir = files.dir("include_repeat_invalid");
    files.write(
        dir.join("root.yaml"),
        r#"
schema_name: "Root"
schema_version: 1
endianness: little
fields:
  - include: "common.yaml"
"#,
    );
    files.write(
        dir.join("common.yaml"),
        r#"
schema_name: "Common"
schema_version: 1
endianness: little
fields:
  - name: "values"
    type: u8
    offset:
      kind: Absolute
      value: 0
    repeat:
      count: 0
"#,
    );

    let err = load_schema_file(&files, dir.join("root.yaml")).unwrap_err();
    assert!(matches!(err, SchemaError::Validation { .. }));
    assert!(err.to_string().contains("repeat count 0"));
}

#[test]
fn parse_schema_file_rejects_string_expression_offsets_in_included_fields() {
    let mut files = FakeFiles::new();
    let dir = files.dir("include_expr_offset");
    files.write(
        dir.join("root.yaml"),
        r#"
schema_name: "Root"
schema_version: 1
endianness: little
fields:
  - include: "common.yaml"
"#,
    );
    files.write(
        dir.join("common.yaml"),
        r#"
schema_name: "Common"
schema_version: 1
endianness: little
fields:
  - name: "value"
    type: u16
    offset:
      kind: Expr
      value: "a+b"
"#,
    );

    let err = load_schema_file(&files, dir.join("root.yaml")).unwrap_err();
    assert!(matches!(err, SchemaError::Yaml { .. }));
}

#[test]
fn parse_schema_file_rejects_conflicting_include_endianness() {
    let mut files = FakeFiles::new();
    let dir = files.dir("include_endianness_conflict");
    files.write(
        dir.join("root.yaml"),
        r#"
schema_name: "Root"
schema_version: 1
endianness: little
fields:
  - include: "common.yaml"
"#,
    );
    files.write(
        dir.join("common.yaml"),
        r#"
schema_name: "Common"
schema_version: 1
endianness: big
fields:
  - name: "value"
    type: u16
    offset:
      kind: Absolute
      value: 0
"#,
    );

    let err = load_schema_file(&files, dir.join("root.yaml")).unwrap_err();
    assert!(matches!(err, SchemaError::Validation { .. }));
    let message = err.to_string();
    assert!(message.contains("common.yaml"));
    assert!(message.contains("Big"));
    assert!(message.contains("Little"));
    assert!(message.contains("must match for includes in v1"));
}

#[test]
fn parse_schema_file_accepts_matching_include_endianness() {
    let mut files = FakeFiles::new();
    let dir = files.dir("include_endianness_match");
    files.write(
        dir.join("root.yaml"),
        r#"
schema_name: "Root"
schema_version: 1
endianness: little
fields:
  - include: "common.yaml"
"#,
    );
    files.write(
        dir.join("common.yaml"),
        r#"
schema_name: "Common"
schema_version: 1
endianness: little
fields:
  - name: "value"
    type: u16
    offset:
      kind: Absolute
      value: 0
"#,
    );

    let schema =
        load_schema_file(&files, dir.join("root.yaml")).expect("matching include should work");
    assert_eq!(schema.fields.len(), 1);
    assert_eq!(field(&schema, 0).name, "value");
}

#[test]
fn parse_schema_file_keeps_field_level_endianness_in_includes() {
    let mut files = FakeFiles::new();
    let dir = files.dir("include_field_endianness");
    files.write(
        dir.join("root.yaml"),
        r#"
schema_name: "Root"
schema_version: 1
fields:
  - include: "common.yaml"
"#,
    );
    files.write(
        dir.join("common.yaml"),
        r#"
schema_name: "Common"
schema_version: 1
endianness: big
fields:
  - name: "value"
    type: u16
    offset:
      kind: Absolute
      value: 0
    endianness: little
"#,
    );

    let schema = load_schema_file(&files, dir.join("root.yaml"))
        .expect("include without root default should work");
    assert_eq!(schema.fields.len(), 1);
    assert_eq!(field(&schema, 0).endianness, Some(Endianness::Little));
}


#[test]
fn a_file_without_includes_loads_as_its_text() {
    let texts = [
        "schema_name: \"A\"\nschema_version: 1\nfields:\n  - name: magic\n    type: u32\n    offset: {kind: Absolute, value: 0}\n",
        "schema_name: \"\"\nschema_version: 1\nfields: []\n",
        "schema_name: \"B\"\nschema_version: 0\nfields: []\n",
        "schema_name: \"C\"\nschema_version: 1\nstructures:\n  - name: s\n    fields: []\nfields: []\n",
        "schema_name: [",
    ];
    for (i, text) in texts.iter().enumerate() {
        let mut files = FakeFiles::new();
        let path = files.dir("plain").join(format!("s{i}.yaml"));
        files.write(path.clone(), text);
        let loaded = load_schema_file(&files, path);
        let parsed = parse_schema_str(text);
        match (loaded, parsed) {
            (Ok(a), Ok(b)) => assert_eq!(format!("{a:?}"), format!("{b:?}")),
            (Err(a), Err(b)) => assert_eq!(a.to_string(), b.to_string()),
            (a, b) => panic!("loading and parsing disagree: {a:?} vs {b:?}"),
        }
    }
}

fn with_when(when: &str) -> String {
    format!(
        "schema_name: Conditional\nschema_version: 1\nfields:\n  - {{name: value, type: u8, offset: {{kind: Absolute, value: 0}}, when: {when}}}\n"
    )
}

#[test]
fn when_clause_errors_say_what_is_wrong() {
    let cases = [
        ("{field: flags}", "exactly one"),
        ("{field: flags, equals: 1, not_equals: 2}", "multiple operators"),
        ("{field: flags, greater_than: 1}", "greater_than"),
    ];
    for (when, text) in cases {
        match parse_schema_str(&with_when(when)) {
            Err(e @ SchemaError::Yaml { .. }) => assert!(e.to_string().contains(text), "{}", e.to_string()),
            other => panic!("expected a YAML error for {when}: {other:?}"),
        }
    }
    match parse_schema_str(&with_when("{field: flags, bit_set: 64}")) {
        Err(e @ SchemaError::Validation { .. }) => assert!(e.to_string().contains("maximum supported index is 63")),
        other => panic!("expected a validation error: {other:?}"),
    }
    assert!(matches!(parse_schema_str(&with_when("{field: '', equals: 1}")), Err(SchemaError::Validation { .. })));
}

#[test]
fn decode_errors_name_the_missing_or_bad_key() {
    let missing_type = "schema_name: A\nschema_version: 1\nfields:\n  - {name: x, offset: {kind: Absolute, value: 0}}\n";
    match parse_schema_str(missing_type) {
        Err(e) => assert_eq!(e.to_string(), "YAML parse error: missing field `type`"),
        Ok(_) => panic!("expected an error"),
    }
    let bad_kind = "schema_name: A\nschema_version: 1\nfields:\n  - {name: x, type: u8, offset: {kind: Sideways, value: 0}}\n";
    match parse_schema_str(bad_kind) {
        Err(e) => assert!(e.to_string().contains("unknown variant `Sideways`")),
        Ok(_) => panic!("expected an error"),
    }
    let bad_version = "schema_name: A\nschema_version: -1\nfields: []\n";
    match parse_schema_str(bad_version) {
        Err(e) => assert!(e.to_string().contains("integer out of range for u32")),
        Ok(_) => panic!("expected an error"),
    }
}
