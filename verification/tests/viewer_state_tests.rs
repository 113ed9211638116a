use binocular::ast::{FieldDef, FieldType, OffsetKind};
use binocular::buffer::MemoryBuffer;
use binocular::interpret::FieldEval;
use binocular::document::{DocumentView, SchemaFileRead, SearchMode, HEX_PAGE_SIZE};
use binocular::parser::parse_schema_str;
use binocular::schema_error::{SchemaError, SchemaLocation};
use binocular::viewer::{
    collect_diagnostics, diagnostic_count, field_item_count, field_matches_filter, filtered_field_items,
    find_best_field_for_schema_name, ClickedField, DiagnosticCategory, DiagnosticTarget, FieldTableItem, GuiDiagnostic,
};

fn field_eval(display_name: &str, error: Option<&str>) -> FieldEval {
    field_eval_with_schema_name(display_name, display_name, 0, error)
}

fn field_eval_with_schema_name(display_name: &str, schema_name: &str, offset: u64, error: Option<&str>) -> FieldEval {
    FieldEval {
        field: FieldDef {
            name: schema_name.to_string(),
            ty: FieldType::U8,
            offset: OffsetKind::Absolute(0),
            length: None,
            endianness: None,
            description: None,
            repeat: None,
            when: None,
        },
        display_name: display_name.to_string(),
        resolved_offset: offset,
        offset_valid: true,
        byte_len: 1,
        value: None,
        error: error.map(str::to_string),
    }
}

fn matching_names<'a>(evaluations: &'a [FieldEval], query: &str, errors_only: bool) -> Vec<&'a str> {
    evaluations
        .iter()
        .filter(|eval| field_matches_filter(eval, query, errors_only))
        .map(|eval| eval.display_name.as_str())
        .collect()
}

/// A document over an in-memory file, with the buffer it reads.
fn memory_doc(bytes: &[u8]) -> (DocumentView, MemoryBuffer) {
    (DocumentView::new(bytes.len() as u64), MemoryBuffer::from_vec(bytes.to_vec()))
}

#[test]
fn schema_field_matching_prefers_schema_field_leaf() {
    let evaluations = vec![
        field_eval_with_schema_name("records[0].id", "id", 4, None),
        field_eval_with_schema_name("header.id", "id", 8, None),
    ];

    let field = find_best_field_for_schema_name(&evaluations, "id").expect("id should match first repeated field");

    assert_eq!(field.display_name, "records[0].id");
    assert_eq!(field.offset, 4);
}

#[test]
fn schema_field_matching_uses_dotted_display_name() {
    let evaluations = vec![
        field_eval_with_schema_name("header.id", "id", 4, None),
        field_eval_with_schema_name("records[0].id", "id", 8, None),
    ];

    let field = find_best_field_for_schema_name(&evaluations, "records.id")
        .expect("dotted schema name should match normalized display name");

    assert_eq!(field.display_name, "records[0].id");
    assert_eq!(field.offset, 8);
}

#[test]
fn schema_field_matching_returns_none_for_missing_name() {
    let evaluations = vec![field_eval_with_schema_name("payload", "payload", 4, None)];

    assert!(find_best_field_for_schema_name(&evaluations, "missing").is_none());
}

#[test]
fn runtime_field_errors_are_collected_as_diagnostics() {
    let (mut doc, _buffer) = memory_doc(&[0x12]);
    doc.field_evaluations = Some(vec![
        field_eval("header.magic", None),
        field_eval("header.length", Some("read out of bounds")),
    ]);

    let diagnostics = doc.diagnostics();

    assert_eq!(diagnostics.len(), 1);
    assert_eq!(diagnostics[0].category, DiagnosticCategory::Interpretation);
    assert!(matches!(
        &diagnostics[0].target,
        DiagnosticTarget::Field { name, .. } if name == "header.length"
    ));
    assert_eq!(doc.diagnostic_count(), 1);
}

#[test]
fn diagnostics_are_collected_from_runtime_rows_and_search() {
    let evaluations = vec![field_eval("header.magic", None), field_eval("header.length", Some("read out of bounds"))];
    let search_error = "bad query".to_string();

    let diagnostics = collect_diagnostics(&[], Some(&evaluations), Some(&search_error));

    assert_eq!(diagnostics.len(), 2);
    assert_eq!(diagnostics[0].category, DiagnosticCategory::Interpretation);
    assert_eq!(diagnostics[1].category, DiagnosticCategory::Search);
    assert_eq!(diagnostic_count(0, Some(&evaluations), true), 2);
    assert_eq!(diagnostic_count(3, None, false), 3);
}

#[test]
fn field_filter_empty_query_shows_all_rows() {
    let evaluations = vec![
        field_eval("header.magic", None),
        field_eval("packet.header.length", Some("short read")),
        field_eval("payload", None),
    ];

    assert_eq!(matching_names(&evaluations, "", false), vec!["header.magic", "packet.header.length", "payload"]);
}

#[test]
fn field_filter_matches_name_substrings() {
    let evaluations = vec![
        field_eval("header.magic", None),
        field_eval("packet.header.length", None),
        field_eval("payload", None),
    ];

    assert_eq!(matching_names(&evaluations, "header", false), vec!["header.magic", "packet.header.length"]);
}

#[test]
fn field_filter_is_case_insensitive() {
    let evaluations = vec![
        field_eval("Header.Magic", None),
        field_eval("packet.HEADER.length", None),
        field_eval("payload", None),
    ];

    assert_eq!(matching_names(&evaluations, "header", false), vec!["Header.Magic", "packet.HEADER.length"]);
}

#[test]
fn field_filter_errors_only_shows_error_rows() {
    let evaluations = vec![
        field_eval("header.magic", None),
        field_eval("packet.header.length", Some("short read")),
        field_eval("payload", Some("invalid offset")),
    ];

    assert_eq!(matching_names(&evaluations, "", true), vec!["packet.header.length", "payload"]);
}

#[test]
fn field_filter_query_and_errors_only_both_apply() {
    let evaluations = vec![
        field_eval("header.magic", None),
        field_eval("packet.header.length", Some("short read")),
        field_eval("payload", Some("invalid offset")),
    ];

    assert_eq!(matching_names(&evaluations, "header", true), vec!["packet.header.length"]);
}

#[test]
fn document_find_replaces_previous_results() {
    let (mut doc, buffer) = memory_doc(b"BIN HELLO BIN");
    doc.search_query = "BIN".to_string();
    doc.find_search_matches(&buffer).unwrap();
    assert_eq!(doc.search_matches, vec![0, 10]);
    assert_eq!(doc.current_search_match, Some(0));

    doc.search_query = "HELLO".to_string();
    doc.find_search_matches(&buffer).unwrap();

    assert_eq!(doc.search_matches, vec![4]);
    assert_eq!(doc.current_search_match, Some(0));
    assert_eq!(doc.active_search_query, "HELLO");
    assert_eq!(doc.active_search_pattern_len, 5);
    assert_eq!(doc.search_error, None);
}

#[test]
fn document_editing_query_does_not_rescan() {
    let (mut doc, buffer) = memory_doc(b"BIN HELLO BIN");
    doc.search_query = "BIN".to_string();
    doc.find_search_matches(&buffer).unwrap();

    doc.search_query = "HELLO".to_string();

    assert_eq!(doc.search_matches, vec![0, 10]);
    assert_eq!(doc.active_search_query, "BIN");
    assert_eq!(doc.active_search_pattern_len, 3);
    assert_eq!(doc.search_status().as_deref(), Some("Match 1 of 2"));
}

#[test]
fn document_hex_search_finds_byte_patterns() {
    let (mut doc, buffer) = memory_doc(&[0xDE, 0xAD, 0xBE, 0xEF, 0x00, 0xDE, 0xAD, 0xBE, 0xEF]);
    doc.search_mode = SearchMode::Hex;
    doc.search_query = "DE AD BE EF".to_string();

    doc.find_search_matches(&buffer).unwrap();

    assert_eq!(doc.search_matches, vec![0, 5]);
    assert_eq!(doc.current_search_match, Some(0));
    assert_eq!(doc.active_search_query, "DE AD BE EF");
    assert_eq!(doc.active_search_pattern_len, 4);
    assert_eq!(doc.search_error, None);
}

#[test]
fn document_hex_search_compact_query_uses_byte_length_for_highlights() {
    let (mut doc, buffer) = memory_doc(&[0xDE, 0xAD, 0xBE, 0xEF]);
    doc.search_mode = SearchMode::Hex;
    doc.search_query = "deadbeef".to_string();

    doc.find_search_matches(&buffer).unwrap();

    assert_eq!(doc.search_matches, vec![0]);
    assert_eq!(doc.active_search_pattern_len, 4);
    assert_eq!(doc.search_status().as_deref(), Some("Match 1 of 1"));
}

#[test]
fn document_hex_search_reports_no_matches() {
    let (mut doc, buffer) = memory_doc(&[0xDE, 0xAD, 0xBE, 0xEF]);
    doc.search_mode = SearchMode::Hex;
    doc.search_query = "FF".to_string();

    doc.find_search_matches(&buffer).unwrap();

    assert!(doc.search_matches.is_empty());
    assert_eq!(doc.current_search_match, None);
    assert_eq!(doc.active_search_pattern_len, 1);
    assert_eq!(doc.search_status().as_deref(), Some("No matches"));
    assert_eq!(doc.search_error, None);
}

#[test]
fn document_invalid_hex_search_clears_stale_results() {
    let (mut doc, buffer) = memory_doc(b"BIN HELLO BIN");
    doc.search_query = "BIN".to_string();
    doc.find_search_matches(&buffer).unwrap();
    assert_eq!(doc.search_matches, vec![0, 10]);

    doc.search_mode = SearchMode::Hex;
    doc.search_query = "DE AD ZQ".to_string();
    doc.find_search_matches(&buffer).unwrap();

    assert!(doc.search_matches.is_empty());
    assert_eq!(doc.current_search_match, None);
    assert_eq!(doc.active_search_query, "");
    assert_eq!(doc.active_search_pattern_len, 0);
    assert_eq!(doc.search_status(), None);
    assert!(doc.search_error.as_deref().is_some_and(|error| error.contains("unexpected character")));
    let diagnostics = doc.diagnostics();
    assert_eq!(diagnostics.len(), 1);
    assert_eq!(diagnostics[0].category, DiagnosticCategory::Search);

    doc.clear_search();

    assert!(doc.diagnostics().is_empty());
}

#[test]
fn search_navigation_wraps_in_both_directions() {
    let (mut doc, buffer) = memory_doc(b"A.A.A");
    doc.search_query = "A".to_string();
    doc.find_search_matches(&buffer).unwrap();
    assert_eq!(doc.search_matches, vec![0, 2, 4]);
    assert_eq!(doc.current_search_match, Some(0));

    doc.previous_search_match();
    assert_eq!(doc.current_search_match, Some(2));
    doc.next_search_match();
    assert_eq!(doc.current_search_match, Some(0));
    doc.next_search_match();
    doc.next_search_match();
    assert_eq!(doc.search_status().as_deref(), Some("Match 3 of 3"));
    doc.next_search_match();
    assert_eq!(doc.current_search_match, Some(0));
    doc.select_search_match(7);
    assert_eq!(doc.current_search_match, Some(1));
}

#[test]
fn selecting_a_far_match_scrolls_the_hex_view() {
    let mut bytes = vec![0u8; 5000];
    bytes[3000] = 0xAB;
    bytes[4990] = 0xAB;
    let (mut doc, buffer) = memory_doc(&bytes);
    doc.search_mode = SearchMode::Hex;
    doc.search_query = "AB".to_string();
    doc.find_search_matches(&buffer).unwrap();

    assert_eq!(doc.search_matches, vec![3000, 4990]);
    assert_eq!(doc.hex_start_offset, 3000);
    assert_eq!(doc.hex_offset_input, "0xBB8");

    doc.next_search_match();
    assert_eq!(doc.hex_start_offset, 5000 - 1024);
    assert_eq!(doc.hex_offset_input, "0xF88");

    doc.previous_search_match();
    assert_eq!(doc.hex_start_offset, 3000);
}

#[test]
fn blank_query_leaves_search_untouched() {
    let (mut doc, buffer) = memory_doc(b"BIN");
    doc.search_query = "   ".to_string();
    doc.find_search_matches(&buffer).unwrap();
    assert!(doc.search_matches.is_empty());
    assert_eq!(doc.search_status(), None);
}

#[test]
fn schema_cursor_activation_selects_matching_field_and_reveals_row() {
    let (mut doc, _buffer) = memory_doc(&[0xAA, 0xBB, 0xCC, 0xDD, 0xEE]);
    doc.schema_editor_text = "fields:\n  - name: length\n".to_string();
    doc.field_evaluations = Some(vec![
        field_eval_with_schema_name("header.magic", "magic", 0, None),
        field_eval_with_schema_name("header.length", "length", 3, None),
    ]);
    doc.field_filter_query = "magic".to_string();
    doc.field_filter_errors_only = true;
    doc.collapsed_field_groups.push("header".to_string());

    doc.activate_schema_editor_cursor_line(1);

    assert_eq!(doc.selected_field_name.as_deref(), Some("header.length"));
    assert_eq!(doc.selected_field_range, Some((3, 1)));
    let highlight = doc
        .schema_cursor_name_highlight
        .as_ref()
        .expect("schema-origin selection should highlight clicked name");
    assert_eq!(&doc.schema_editor_text[highlight.start_byte..highlight.end_byte], "length");
    assert!(doc.field_filter_query.is_empty());
    assert!(!doc.field_filter_errors_only);
    assert!(!doc.collapsed_field_groups.contains(&"header".to_string()));
    assert!(doc.selected_field_scroll_pending);
}

#[test]
fn schema_cursor_activation_clears_stale_reverse_scroll_on_no_match() {
    let (mut doc, _buffer) = memory_doc(&[0xAA]);
    doc.schema_editor_text = "fields:\n  - name: missing\n  type: u8\n".to_string();
    doc.field_evaluations = Some(vec![field_eval_with_schema_name("payload", "payload", 0, None)]);
    doc.selected_field_name = Some("payload".to_string());
    doc.selected_field_range = Some((0, 1));
    doc.selected_field_scroll_pending = true;

    doc.activate_schema_editor_cursor_line(1);

    assert_eq!(doc.selected_field_name.as_deref(), Some("payload"));
    assert_eq!(doc.selected_field_range, Some((0, 1)));
    assert!(doc.schema_cursor_name_highlight.is_none());
    assert!(!doc.selected_field_scroll_pending);

    doc.selected_field_scroll_pending = true;
    doc.activate_schema_editor_cursor_line(2);
    assert_eq!(doc.selected_field_name.as_deref(), Some("payload"));
    assert!(doc.schema_cursor_name_highlight.is_none());
    assert!(!doc.selected_field_scroll_pending);
}

#[test]
fn selecting_field_updates_or_clears_schema_match() {
    let (mut doc, _buffer) = memory_doc(&[0x12]);
    doc.schema_editor_text = "\nschema_name: \"Test\"\nfields:\n  - name: magic\n    type: u8\n".to_string();

    doc.select_field_with_schema_name("header.magic".to_string(), "magic".to_string(), 0, 1);

    assert_eq!(doc.selected_field_name.as_deref(), Some("header.magic"));
    assert_eq!(doc.selected_field_range, Some((0, 1)));
    assert_eq!(doc.schema_match.as_ref().map(|schema_match| schema_match.line), Some(4));
    assert!(doc.schema_match_scroll_pending);

    doc.select_field_with_schema_name("missing".to_string(), "missing".to_string(), 0, 1);

    assert_eq!(doc.selected_field_name.as_deref(), Some("missing"));
    assert_eq!(doc.selected_field_range, Some((0, 1)));
    assert!(doc.schema_match.is_none());
    assert!(!doc.schema_match_scroll_pending);
}

#[test]
fn activating_runtime_diagnostic_expands_group_and_clears_hiding_filters() {
    let (mut doc, _buffer) = memory_doc(&[0x12]);
    doc.field_filter_query = "payload".to_string();
    doc.field_filter_errors_only = true;
    doc.collapsed_field_groups.push("header".to_string());

    doc.activate_runtime_diagnostic("header.length", 0, 1, true);

    assert!(!doc.collapsed_field_groups.contains(&"header".to_string()));
    assert!(doc.field_filter_query.is_empty());
    assert!(!doc.field_filter_errors_only);
    assert_eq!(doc.selected_field_name.as_deref(), Some("header.length"));
    assert_eq!(doc.selected_field_range, Some((0, 1)));
}

fn schema_diagnostic(message: &str) -> GuiDiagnostic {
    GuiDiagnostic {
        category: DiagnosticCategory::SchemaParse,
        message: message.to_string(),
        target: DiagnosticTarget::Schema { location: None },
        snippet: None,
    }
}

#[test]
fn picking_a_field_in_the_schema_reveals_and_scrolls_to_it() {
    let (mut doc, _buffer) = memory_doc(&vec![0u8; 4000]);
    doc.field_filter_query = "other".to_string();
    doc.field_filter_errors_only = true;
    doc.collapsed_field_groups.push("records[0]".to_string());
    doc.collapsed_field_groups.push("header".to_string());

    doc.select_field_from_schema(ClickedField {
        display_name: "records[0].id".to_string(),
        schema_field_name: "id".to_string(),
        offset: 3500,
        byte_len: 4,
        offset_valid: true,
    });

    assert_eq!(doc.selected_field_name.as_deref(), Some("records[0].id"));
    assert_eq!(doc.selected_field_range, Some((3500, 4)));
    assert!(doc.selected_field_scroll_pending);
    assert_eq!(doc.collapsed_field_groups, vec!["header".to_string()]);
    assert!(doc.field_filter_query.is_empty());
    assert!(!doc.field_filter_errors_only);
    assert_eq!(doc.hex_start_offset, 4000 - HEX_PAGE_SIZE);
    assert_eq!(doc.hex_offset_input, "0xBA0");
}

#[test]
fn picking_a_field_without_an_offset_keeps_the_hex_view() {
    let (mut doc, _buffer) = memory_doc(&[0u8; 16]);
    doc.field_filter_query = "payload".to_string();

    doc.select_field_from_schema(ClickedField {
        display_name: "payload".to_string(),
        schema_field_name: "payload".to_string(),
        offset: 0,
        byte_len: 0,
        offset_valid: false,
    });

    assert_eq!(doc.selected_field_range, None);
    assert_eq!(doc.field_filter_query, "payload");
    assert_eq!(doc.hex_start_offset, 0);
    assert_eq!(doc.hex_offset_input, "0x0");
}

#[test]
fn runtime_diagnostic_without_offset_selects_no_range() {
    let (mut doc, _buffer) = memory_doc(&[0x12]);
    doc.schema_editor_text = "fields:\n  - name: length\n".to_string();

    doc.activate_runtime_diagnostic("length", 0, 1, false);

    assert_eq!(doc.selected_field_name.as_deref(), Some("length"));
    assert_eq!(doc.selected_field_range, None);
    assert!(doc.selected_field_scroll_pending);
    assert!(doc.schema_match.is_none());
}

#[test]
fn schema_diagnostics_are_activated_by_content() {
    let (mut doc, _buffer) = memory_doc(&[0x12]);
    doc.set_schema_diagnostic(schema_diagnostic("first"));
    assert_eq!(doc.schema_diagnostics.len(), 1);
    assert_eq!(doc.active_schema_diagnostic, Some(0));

    doc.schema_diagnostics.push(schema_diagnostic("second"));
    doc.activate_schema_diagnostic(&schema_diagnostic("second"));
    assert_eq!(doc.active_schema_diagnostic, Some(1));

    doc.activate_schema_diagnostic(&schema_diagnostic("third"));
    assert_eq!(doc.active_schema_diagnostic, None);

    doc.clear_schema_diagnostics();
    assert!(doc.schema_diagnostics.is_empty());
    assert_eq!(doc.diagnostic_count(), 0);
}

#[test]
fn committing_a_schema_interprets_it_and_clears_the_editor_state() {
    let (mut doc, buffer) = memory_doc(&[0x12]);
    doc.schema_editor_dirty = true;
    doc.schema_editor_error = Some("old error".to_string());
    doc.set_schema_diagnostic(schema_diagnostic("old diagnostic"));
    doc.selected_field_range = Some((0, 1));
    doc.selected_field_name = Some("old".to_string());
    let schema = parse_schema_str(
        "schema_name: \"Test\"\nschema_version: 1\nfields:\n  - name: \"renamed\"\n    type: u8\n    offset:\n      kind: Absolute\n      value: 0\n",
    )
    .expect("schema should parse");

    doc.commit_schema(&buffer, schema);

    let names: Vec<String> =
        doc.field_evaluations.as_ref().unwrap().iter().map(|eval| eval.display_name.clone()).collect();
    assert_eq!(names, vec!["renamed".to_string()]);
    assert!(!doc.schema_editor_dirty);
    assert!(doc.schema_editor_error.is_none());
    assert!(doc.schema_diagnostics.is_empty());
    assert_eq!(doc.active_schema_diagnostic, None);
    assert!(doc.selected_field_range.is_none());
    assert!(doc.selected_field_name.is_none());
}

#[test]
fn expanding_a_group_removes_every_copy_of_it() {
    let (mut doc, _buffer) = memory_doc(&[]);
    doc.collapsed_field_groups = vec!["a".to_string(), "b".to_string(), "a".to_string()];

    doc.expand_field_group("a");

    assert_eq!(doc.collapsed_field_groups, vec!["b".to_string()]);
}

#[test]
fn clearing_the_selection_forgets_the_schema_match() {
    let (mut doc, _buffer) = memory_doc(&[0x12]);
    doc.schema_editor_text = "fields:\n  - name: magic\n".to_string();
    doc.select_field("magic".to_string(), 0, 1);
    assert!(doc.schema_match.is_some());

    doc.clear_selected_field();

    assert!(doc.selected_field_name.is_none());
    assert!(doc.selected_field_range.is_none());
    assert!(doc.schema_match.is_none());
    assert!(!doc.schema_match_scroll_pending);
}

fn field_item_labels(items: &[FieldTableItem<'_>]) -> Vec<String> {
    let mut labels = Vec::new();

    for item in items {
        match item {
            FieldTableItem::Ungrouped(eval) => {
                labels.push(format!("field:{}", eval.display_name));
            }
            FieldTableItem::Group { name, children } => {
                labels.push(format!("group:{name}"));
                labels.extend(children.iter().map(|child| format!("child:{}", child.name)));
            }
        }
    }

    labels
}

#[test]
fn filtered_field_items_group_dotted_names() {
    let evaluations = vec![
        field_eval("header.magic", None),
        field_eval("header.length", None),
        field_eval("records[0].id", None),
        field_eval("records[0].value", None),
        field_eval("payload", None),
    ];

    let items = filtered_field_items(&evaluations, "", false);

    assert_eq!(
        field_item_labels(&items),
        vec![
            "group:header",
            "child:magic",
            "child:length",
            "group:records[0]",
            "child:id",
            "child:value",
            "field:payload",
        ]
    );
    assert_eq!(field_item_count(&items), 5);
}

#[test]
fn filtered_field_items_filter_by_group_or_child_name() {
    let evaluations = vec![
        field_eval("header.magic", None),
        field_eval("header.length", None),
        field_eval("records[0].id", None),
        field_eval("payload", None),
    ];

    let group_items = filtered_field_items(&evaluations, "header", false);
    assert_eq!(field_item_labels(&group_items), vec!["group:header", "child:magic", "child:length"]);
    assert_eq!(field_item_count(&group_items), 2);

    let child_items = filtered_field_items(&evaluations, "magic", false);
    assert_eq!(field_item_labels(&child_items), vec!["group:header", "child:magic"]);
    assert_eq!(field_item_count(&child_items), 1);
}

#[test]
fn filtered_field_items_errors_only_omits_empty_groups() {
    let evaluations = vec![
        field_eval("header.magic", None),
        field_eval("header.length", Some("short read")),
        field_eval("records[0].id", None),
        field_eval("payload", Some("invalid offset")),
    ];

    let items = filtered_field_items(&evaluations, "", true);

    assert_eq!(field_item_labels(&items), vec!["group:header", "child:length", "field:payload"]);
    assert_eq!(field_item_count(&items), 2);
}

#[test]
fn field_table_gathers_a_group_at_its_first_row() {
    let evaluations = vec![
        field_eval("a.x", None),
        field_eval("solo", None),
        field_eval("b.y", None),
        field_eval("a.z", None),
        field_eval(".hidden", None),
    ];

    let items = filtered_field_items(&evaluations, "", false);

    assert_eq!(
        field_item_labels(&items),
        vec!["group:a", "child:x", "child:z", "field:solo", "group:b", "child:y", "field:.hidden"]
    );
    assert_eq!(field_item_count(&items), evaluations.len());
}

fn schema_yaml(field_name: &str, value_offset: u64) -> String {
    format!(
        r#"
schema_name: "Test"
schema_version: 1
fields:
  - name: "{field_name}"
    type: u8
    offset:
      kind: Absolute
      value: {value_offset}
"#
    )
}

fn evaluation_names(doc: &DocumentView) -> Vec<String> {
    doc.field_evaluations
        .as_ref()
        .expect("document should have field evaluations")
        .iter()
        .map(|eval| eval.display_name.clone())
        .collect()
}

/// Applies the editor's text as the viewer does, parsing it next to the schema file.
fn apply_editor(doc: &mut DocumentView, buffer: &MemoryBuffer) {
    let parsed = doc.schema_path.as_ref().map(|_| parse_schema_str(&doc.schema_editor_text));
    doc.apply_schema_editor(buffer, parsed, None);
}

/// What reading the schema file gives when it holds `text`.
fn read_of(text: &str) -> SchemaFileRead {
    SchemaFileRead::Read { source: text.to_string(), parsed: parse_schema_str(text) }
}

#[test]
fn apply_schema_editor_success_updates_interpretation_and_clears_editor_state() {
    let (mut doc, buffer) = memory_doc(&[0x12]);
    doc.schema_path = Some("/tmp/apply_success.yaml".to_string());
    doc.schema_editor_text = schema_yaml("renamed", 0);
    doc.schema_editor_dirty = true;
    doc.schema_editor_error = Some("old error".to_string());
    doc.schema_diagnostics.push(GuiDiagnostic {
        category: DiagnosticCategory::SchemaParse,
        message: "old diagnostic".to_string(),
        target: DiagnosticTarget::Schema { location: None },
        snippet: None,
    });
    doc.active_schema_diagnostic = Some(0);
    doc.selected_field_range = Some((0, 1));
    doc.selected_field_name = Some("old".to_string());

    apply_editor(&mut doc, &buffer);

    assert_eq!(evaluation_names(&doc), vec!["renamed"]);
    assert!(!doc.schema_editor_dirty);
    assert!(doc.schema_editor_error.is_none());
    assert!(doc.schema_diagnostics.is_empty());
    assert_eq!(doc.active_schema_diagnostic, None);
    assert!(doc.selected_field_range.is_none());
    assert!(doc.selected_field_name.is_none());
}

#[test]
fn apply_schema_editor_failure_keeps_the_previous_interpretation() {
    let (mut doc, buffer) = memory_doc(&[0x12]);
    doc.schema_path = Some("/tmp/apply_failure.yaml".to_string());
    doc.schema_editor_text = schema_yaml("good", 0);
    apply_editor(&mut doc, &buffer);
    doc.selected_field_range = Some((0, 1));
    doc.selected_field_name = Some("good".to_string());

    doc.schema_editor_text = "schema_name: [".to_string();
    doc.schema_editor_dirty = true;
    apply_editor(&mut doc, &buffer);

    assert_eq!(evaluation_names(&doc), vec!["good"]);
    assert!(doc.schema_editor_dirty);
    assert!(doc.schema_editor_error.as_deref().is_some_and(|e| e.starts_with("Failed to parse or validate schema: YAML parse error")));
    assert_eq!(doc.selected_field_range, Some((0, 1)));
    assert_eq!(doc.selected_field_name.as_deref(), Some("good"));
    assert_eq!(doc.schema_diagnostics.len(), 1);
    assert_eq!(doc.schema_diagnostics[0].category, DiagnosticCategory::SchemaParse);
    assert!(matches!(doc.schema_diagnostics[0].target, DiagnosticTarget::Schema { location: Some(_) }));
}

#[test]
fn parse_error_snippets_come_from_the_file_the_error_points_into() {
    let (mut doc, buffer) = memory_doc(&[0x12]);
    doc.schema_path = Some("/s/main.yaml".to_string());
    doc.schema_editor_text = "line one\nline two\nline three\n".to_string();

    let in_this_file = SchemaError::Validation {
        message: "bad field".to_string(),
        path: None,
        location: Some(SchemaLocation { line: 2, column: 1 }),
    };
    doc.apply_schema_editor(&buffer, Some(Err(in_this_file)), Some("other a\nother b\n"));
    let snippet = doc.schema_diagnostics[0].snippet.clone().expect("snippet from the editor's text");
    assert!(snippet.contains(">    2 | line two"));
    assert!(snippet.contains("     1 | line one"));

    let in_other_file = SchemaError::Validation {
        message: "bad field".to_string(),
        path: Some("/s/part.yaml".to_string()),
        location: Some(SchemaLocation { line: 2, column: 1 }),
    };
    doc.apply_schema_editor(&buffer, Some(Err(in_other_file)), Some("other a\nother b\n"));
    let snippet = doc.schema_diagnostics[0].snippet.clone().expect("snippet from the other file");
    assert!(snippet.contains(">    2 | other b"));
    assert_eq!(doc.schema_diagnostics[0].category, DiagnosticCategory::SchemaValidation);

    let unreadable_other = SchemaError::Validation {
        message: "bad field".to_string(),
        path: Some("/s/part.yaml".to_string()),
        location: Some(SchemaLocation { line: 2, column: 1 }),
    };
    doc.apply_schema_editor(&buffer, Some(Err(unreadable_other)), None);
    assert!(doc.schema_diagnostics[0].snippet.is_none());
}

#[test]
fn apply_schema_editor_without_a_schema_file_reports_it() {
    let (mut doc, buffer) = memory_doc(&[0x12]);
    doc.schema_editor_text = schema_yaml("good", 0);

    apply_editor(&mut doc, &buffer);

    assert!(doc.field_evaluations.is_none());
    assert_eq!(doc.schema_editor_error.as_deref(), Some("No schema path available for Apply Schema"));
    assert_eq!(doc.schema_diagnostics.len(), 1);
    assert_eq!(doc.schema_diagnostics[0].category, DiagnosticCategory::SchemaValidation);
    assert_eq!(doc.active_schema_diagnostic, Some(0));
}

#[test]
fn reload_schema_from_disk_replaces_editor_text_and_clears_error_state() {
    let disk_schema = schema_yaml("from_disk", 0);
    let (mut doc, buffer) = memory_doc(&[0x12]);
    doc.schema_path = Some("/tmp/reload_success.yaml".to_string());
    doc.schema_editor_text = "schema_name: [".to_string();
    doc.schema_editor_dirty = true;
    doc.schema_editor_error = Some("old error".to_string());

    doc.reload_schema_from_disk(&buffer, Some(read_of(&disk_schema)), None);

    assert_eq!(doc.schema_editor_text, disk_schema);
    assert_eq!(evaluation_names(&doc), vec!["from_disk"]);
    assert!(!doc.schema_editor_dirty);
    assert!(doc.schema_editor_error.is_none());
    assert!(doc.schema_diagnostics.is_empty());
}

#[test]
fn reload_schema_from_disk_failure_records_diagnostic_and_preserves_results() {
    let (mut doc, buffer) = memory_doc(&[0x12]);
    doc.schema_path = Some("/tmp/reload_missing.yaml".to_string());
    doc.schema_editor_text = schema_yaml("good", 0);
    apply_editor(&mut doc, &buffer);

    doc.reload_schema_from_disk(
        &buffer,
        Some(SchemaFileRead::Unreadable("No such file or directory (os error 2)".to_string())),
        None,
    );

    assert_eq!(evaluation_names(&doc), vec!["good"]);
    assert!(doc.schema_editor_error.is_some());
    assert_eq!(doc.schema_diagnostics.len(), 1);
    assert_eq!(doc.schema_diagnostics[0].category, DiagnosticCategory::IncludeResolution);
    assert_eq!(
        doc.last_error.as_deref(),
        Some("Failed to read schema source: No such file or directory (os error 2)")
    );
}

#[test]
fn reload_schema_with_a_parse_error_takes_the_text_and_reports_it() {
    let (mut doc, buffer) = memory_doc(&[0x12]);
    doc.schema_path = Some("/tmp/reload_bad.yaml".to_string());
    doc.schema_editor_text = schema_yaml("good", 0);
    apply_editor(&mut doc, &buffer);
    doc.schema_editor_dirty = true;

    doc.reload_schema_from_disk(&buffer, Some(read_of("schema_name: [")), None);

    assert_eq!(evaluation_names(&doc), vec!["good"]);
    assert_eq!(doc.schema_editor_text, "schema_name: [");
    assert!(!doc.schema_editor_dirty);
    assert!(doc.schema_editor_error.as_deref().is_some_and(|e| e.starts_with("Failed to parse or validate schema: ")));
    assert_eq!(doc.last_error, doc.schema_editor_error);
    assert_eq!(doc.schema_diagnostics[0].category, DiagnosticCategory::SchemaParse);
    assert!(doc.schema_cursor_name_highlight.is_none());
    assert!(doc.schema_editor_cursor_char_index.is_none());
}

#[test]
fn reload_without_a_schema_file_reports_it() {
    let (mut doc, buffer) = memory_doc(&[0x12]);

    doc.reload_schema_from_disk(&buffer, None, None);

    assert_eq!(doc.schema_editor_error.as_deref(), Some("No schema loaded to reload"));
    assert_eq!(doc.schema_diagnostics.len(), 1);
    assert!(doc.last_error.is_none());
}

#[test]
fn loading_a_schema_file_takes_its_path_and_text() {
    let (mut doc, buffer) = memory_doc(&[0x12]);
    let text = schema_yaml("loaded", 0);

    doc.load_schema_file(&buffer, "/tmp/loaded.yaml".to_string(), read_of(&text), None);

    assert_eq!(doc.schema_path.as_deref(), Some("/tmp/loaded.yaml"));
    assert_eq!(doc.schema_editor_text, text);
    assert_eq!(evaluation_names(&doc), vec!["loaded"]);
    assert!(doc.last_error.is_none());
}

#[test]
fn loading_an_unreadable_schema_file_keeps_the_document() {
    let (mut doc, buffer) = memory_doc(&[0x12]);

    doc.load_schema_file(&buffer, "/tmp/gone.yaml".to_string(), SchemaFileRead::Unreadable("denied".to_string()), None);

    assert!(doc.schema_path.is_none());
    assert!(doc.schema.is_none());
    assert_eq!(doc.last_error.as_deref(), Some("Failed to read schema source: denied"));
    assert!(!doc.last_error_is_offset);
    assert_eq!(doc.schema_diagnostics[0].category, DiagnosticCategory::IncludeResolution);
    assert!(matches!(
        &doc.schema_diagnostics[0].target,
        DiagnosticTarget::Schema { location: Some(location) } if location.path == "/tmp/gone.yaml" && location.line == 1
    ));
}

#[test]
fn loading_an_invalid_schema_file_reports_the_parse_error() {
    let (mut doc, buffer) = memory_doc(&[0x12]);

    doc.load_schema_file(&buffer, "/tmp/bad.yaml".to_string(), read_of("schema_name: ["), None);

    assert!(doc.schema_path.is_none());
    assert!(doc.schema_editor_text.is_empty());
    assert!(doc.last_error.as_deref().is_some_and(|e| e.starts_with("Failed to parse or validate schema: YAML parse error")));
    assert_eq!(doc.schema_diagnostics[0].category, DiagnosticCategory::SchemaParse);
}
