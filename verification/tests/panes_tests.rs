use binocular::ast::{FieldDef, FieldType, OffsetKind};
use binocular::buffer::MemoryBuffer;
use binocular::document::{DocumentView, SearchMode};
use binocular::interpret::FieldEval;
use binocular::panes::{
    byte_mark, clicked_row, diagnostic_line, group_row_label, hex_ascii_column, hex_page_len, hex_row_label,
    highlight_split,
    parse_offset_input, row_is_selected, row_scrolls_into_view, schema_editor_rows, selected_visible_range, table_rows,
    ByteMark,
};
use binocular::viewer::filtered_field_items;
use binocular::panes::{fields_shown_label, schema_label};
use binocular::viewer::{
    copy_diagnostic, DiagnosticCategory, DiagnosticTarget, GuiDiagnostic, SchemaHighlight, SchemaMatch, SourceLocation,
};

fn field_eval(display_name: &str, schema_name: &str, offset: u64, offset_valid: bool, error: Option<&str>) -> FieldEval {
    FieldEval {
        field: FieldDef {
            name: schema_name.to_string(),
            ty: FieldType::U8,
            offset: OffsetKind::Absolute(0),
            length: None,
            endianness: None,
            description: None,
            repeat: None,
            when: None,
        },
        display_name: display_name.to_string(),
        resolved_offset: offset,
        offset_valid,
        byte_len: 1,
        value: None,
        error: error.map(str::to_string),
    }
}

#[test]
fn offset_input_reads_hex_and_decimal() {
    assert_eq!(parse_offset_input("0x10"), Some(16));
    assert_eq!(parse_offset_input("0X1f"), Some(31));
    assert_eq!(parse_offset_input("  42 \t"), Some(42));
    assert_eq!(parse_offset_input("+7"), Some(7));
    assert_eq!(parse_offset_input("0x+a"), Some(10));
    assert_eq!(parse_offset_input("18446744073709551615"), Some(u64::MAX));
    assert_eq!(parse_offset_input("0xFFFFFFFFFFFFFFFF"), Some(u64::MAX));
}

#[test]
fn offset_input_rejects_what_is_not_a_number() {
    assert_eq!(parse_offset_input(""), None);
    assert_eq!(parse_offset_input("   "), None);
    assert_eq!(parse_offset_input("0x"), None);
    assert_eq!(parse_offset_input("+"), None);
    assert_eq!(parse_offset_input("-1"), None);
    assert_eq!(parse_offset_input("12ab"), None);
    assert_eq!(parse_offset_input("0x1_0"), None);
    assert_eq!(parse_offset_input("18446744073709551616"), None);
    assert_eq!(parse_offset_input("0x10000000000000000"), None);
}

#[test]
fn go_to_offset_moves_the_view_and_clamps_to_the_last_page() {
    let mut doc = DocumentView::new(5000);
    doc.hex_offset_input = " 0xBB8 ".to_string();
    doc.go_to_offset_input();
    assert_eq!(doc.hex_start_offset, 3000);
    assert_eq!(doc.hex_offset_input, "0xBB8");

    doc.hex_offset_input = "99999".to_string();
    doc.go_to_offset_input();
    assert_eq!(doc.hex_start_offset, 5000 - 1024);
    assert_eq!(doc.hex_offset_input, "0xF88");
}

#[test]
fn invalid_offset_is_reported_and_cleared_by_the_next_move() {
    let mut doc = DocumentView::new(5000);
    doc.hex_offset_input = " zz ".to_string();
    doc.go_to_offset_input();
    assert_eq!(doc.last_error.as_deref(), Some("Invalid offset: zz"));
    assert!(doc.last_error_is_offset);
    assert_eq!(doc.hex_start_offset, 0);

    doc.next_hex_page();
    assert_eq!(doc.hex_start_offset, 1024);
    assert_eq!(doc.hex_offset_input, "0x400");
    assert!(doc.last_error.is_none());
    assert!(!doc.last_error_is_offset);
}

#[test]
fn other_errors_survive_page_moves() {
    let mut doc = DocumentView::new(5000);
    doc.last_error = Some("Search failed: read out of bounds".to_string());
    doc.next_hex_page();
    assert_eq!(doc.last_error.as_deref(), Some("Search failed: read out of bounds"));

    doc.dismiss_last_error();
    assert!(doc.last_error.is_none());
}

#[test]
fn page_buttons_stop_at_the_ends_of_the_file() {
    let mut doc = DocumentView::new(2500);
    assert!(!doc.can_page_back());
    assert!(doc.can_page_forward());

    doc.next_hex_page();
    assert_eq!(doc.hex_start_offset, 1024);
    doc.next_hex_page();
    assert_eq!(doc.hex_start_offset, 2500 - 1024);
    assert!(!doc.can_page_forward());
    assert!(doc.can_page_back());

    doc.previous_hex_page();
    assert_eq!(doc.hex_start_offset, 2500 - 2048);
    doc.previous_hex_page();
    assert_eq!(doc.hex_start_offset, 0);
    assert_eq!(doc.hex_offset_input, "0x0");

    let small = DocumentView::new(100);
    assert!(!small.can_page_forward());
}

#[test]
fn find_reports_a_read_error_as_a_search_failure() {
    let mut doc = DocumentView::new(64);
    let buffer = MemoryBuffer::from_vec(vec![0u8; 8]);
    doc.search_query = "AB".to_string();

    doc.run_search(&buffer);

    assert_eq!(doc.search_error.as_deref(), Some("Search failed: read out of bounds"));
    assert_eq!(doc.last_error, doc.search_error);
    assert!(doc.search_matches.is_empty());
    assert!(doc.has_search_state());
}

#[test]
fn find_clears_an_offset_error() {
    let mut doc = DocumentView::new(5);
    let buffer = MemoryBuffer::from_vec(b"AB.AB".to_vec());
    doc.last_error = Some("Invalid offset: q".to_string());
    doc.last_error_is_offset = true;
    doc.search_mode = SearchMode::Hex;
    doc.search_query = "41 42".to_string();

    doc.run_search(&buffer);

    assert_eq!(doc.search_matches, vec![0, 3]);
    assert!(doc.last_error.is_none());

    doc.clear_search();
    assert!(!doc.has_search_state());
}

#[test]
fn toggling_a_group_collapses_and_expands_it() {
    let mut doc = DocumentView::new(0);
    assert!(doc.toggle_field_group("header"));
    assert_eq!(doc.collapsed_field_groups, vec!["header".to_string()]);
    assert!(doc.toggle_field_group("records[0]"));
    assert!(!doc.toggle_field_group("header"));
    assert_eq!(doc.collapsed_field_groups, vec!["records[0]".to_string()]);
}

#[test]
fn clicking_a_diagnostic_goes_to_what_it_points_at() {
    let mut doc = DocumentView::new(16);
    doc.collapsed_field_groups.push("header".to_string());
    let field = GuiDiagnostic {
        category: DiagnosticCategory::Interpretation,
        message: "read out of bounds".to_string(),
        target: DiagnosticTarget::Field { name: "header.length".to_string(), offset: 4, byte_len: 2, offset_valid: true },
        snippet: None,
    };
    doc.activate_diagnostic(&field);
    assert_eq!(doc.selected_field_name.as_deref(), Some("header.length"));
    assert_eq!(doc.selected_field_range, Some((4, 2)));
    assert!(doc.collapsed_field_groups.is_empty());

    let schema = GuiDiagnostic {
        category: DiagnosticCategory::SchemaValidation,
        message: "bad".to_string(),
        target: DiagnosticTarget::Schema { location: None },
        snippet: None,
    };
    doc.set_schema_diagnostic(copy_diagnostic(&schema));
    doc.active_schema_diagnostic = None;
    doc.activate_diagnostic(&schema);
    assert_eq!(doc.active_schema_diagnostic, Some(0));

    let search = GuiDiagnostic {
        category: DiagnosticCategory::Search,
        message: "bad query".to_string(),
        target: DiagnosticTarget::Search,
        snippet: None,
    };
    doc.activate_diagnostic(&search);
    assert_eq!(doc.selected_field_name.as_deref(), Some("header.length"));
}

#[test]
fn hex_view_shows_a_page_or_the_rest_of_the_file() {
    assert_eq!(hex_page_len(5000, 0), 1024);
    assert_eq!(hex_page_len(5000, 4500), 500);
    assert_eq!(hex_page_len(100, 200), 0);
}

#[test]
fn selection_is_cut_to_the_visible_bytes() {
    assert_eq!(selected_visible_range(Some((10, 20)), 0, 1024), Some((10, 30)));
    assert_eq!(selected_visible_range(Some((1000, 100)), 0, 1024), Some((1000, 1024)));
    assert_eq!(selected_visible_range(Some((10, 0)), 0, 1024), None);
    assert_eq!(selected_visible_range(Some((2000, 4)), 0, 1024), None);
    assert_eq!(selected_visible_range(Some((u64::MAX - 1, 10)), 0, u64::MAX), Some((u64::MAX - 1, u64::MAX)));
    assert_eq!(selected_visible_range(None, 0, 1024), None);
}

#[test]
fn current_match_wins_over_selection_and_other_matches() {
    let ranges = vec![(0, 4, false), (8, 12, true)];
    assert_eq!(byte_mark(9, Some((8, 10)), &ranges), ByteMark::ActiveMatch);
    assert_eq!(byte_mark(2, Some((0, 3)), &ranges), ByteMark::Selected);
    assert_eq!(byte_mark(3, Some((0, 3)), &ranges), ByteMark::Match);
    assert_eq!(byte_mark(6, Some((0, 3)), &ranges), ByteMark::Plain);
    assert_eq!(byte_mark(12, None, &ranges), ByteMark::Plain);
}

#[test]
fn hex_rows_are_labelled_with_padded_offsets() {
    assert_eq!(hex_row_label(0), "00000000:");
    assert_eq!(hex_row_label(0x1A0), "000001A0:");
    assert_eq!(hex_row_label(0x1_0000_0000), "100000000:");
}

#[test]
fn rows_are_selected_by_range_or_name() {
    let eval = field_eval("header.magic", "magic", 4, true, None);
    assert!(row_is_selected(&eval, None, Some((4, 1))));
    assert!(row_is_selected(&eval, Some("header.magic"), None));
    assert!(!row_is_selected(&eval, Some("magic"), Some((4, 2))));
    assert!(row_scrolls_into_view(&eval, Some("header.magic"), true));
    assert!(!row_scrolls_into_view(&eval, Some("header.magic"), false));
    assert!(!row_scrolls_into_view(&eval, None, true));
}

#[test]
fn only_rows_with_a_resolved_offset_can_be_picked() {
    let picked = clicked_row(&field_eval("header.magic", "magic", 4, true, None)).expect("row should be picked");
    assert_eq!(picked.display_name, "header.magic");
    assert_eq!(picked.schema_field_name, "magic");
    assert_eq!(picked.offset, 4);
    assert!(clicked_row(&field_eval("payload", "payload", 0, false, Some("invalid offset"))).is_none());
}

#[test]
fn group_rows_show_whether_they_are_collapsed() {
    assert_eq!(group_row_label("header", true), "▶ header");
    assert_eq!(group_row_label("header", false), "▼ header");
}

#[test]
fn diagnostic_lines_name_category_message_and_target() {
    let d = GuiDiagnostic {
        category: DiagnosticCategory::SchemaParse,
        message: "expected a mapping".to_string(),
        target: DiagnosticTarget::Schema {
            location: Some(SourceLocation { path: "schema.yaml".to_string(), line: 3, column: 5 }),
        },
        snippet: None,
    };
    assert_eq!(diagnostic_line(&d), "Schema Parse - expected a mapping [schema.yaml:3:5]");
}

#[test]
fn editor_highlights_only_whole_characters() {
    let text = "aé b";
    assert_eq!(highlight_split(text, Some((0, 1))), Some((0, 1)));
    assert_eq!(highlight_split(text, Some((1, 3))), Some((1, 3)));
    assert_eq!(highlight_split(text, Some((1, 2))), None);
    assert_eq!(highlight_split(text, Some((3, 5))), Some((3, 5)));
    assert_eq!(highlight_split(text, Some((3, 6))), None);
    assert_eq!(highlight_split(text, Some((3, 1))), None);
    assert_eq!(highlight_split(text, None), None);
}

#[test]
fn editor_asks_for_at_least_four_rows() {
    assert_eq!(schema_editor_rows(""), 4);
    assert_eq!(schema_editor_rows("a\nb"), 4);
    assert_eq!(schema_editor_rows("a\nb\nc\nd\ne\n"), 5);
}

#[test]
fn schema_can_be_applied_with_a_file_and_text() {
    let mut doc = DocumentView::new(0);
    doc.schema_editor_text = "fields: []".to_string();
    assert!(!doc.can_apply_schema());
    doc.schema_path = Some("schema.yaml".to_string());
    assert!(doc.can_apply_schema());
    doc.schema_editor_text = " \n\t".to_string();
    assert!(!doc.can_apply_schema());
}

#[test]
fn editing_the_schema_marks_it_modified_and_forgets_the_match() {
    let mut doc = DocumentView::new(0);
    doc.schema_editor_text = "fields:\n  - name: magic\n".to_string();
    doc.select_field("magic".to_string(), 0, 0);
    doc.selected_field_scroll_pending = true;
    assert!(doc.schema_match.is_some());

    doc.schema_editor_cursor_event(Some(3), true, false, true);

    assert!(doc.schema_editor_dirty);
    assert!(doc.schema_match.is_none());
    assert!(!doc.selected_field_scroll_pending);
    assert_eq!(doc.schema_editor_cursor_char_index, Some(3));
}

#[test]
fn moving_the_cursor_onto_a_name_selects_its_field() {
    let mut doc = DocumentView::new(8);
    doc.schema_editor_text = "fields:\n  - name: length\n".to_string();
    doc.field_evaluations = Some(vec![field_eval("header.length", "length", 3, true, None)]);

    doc.schema_editor_cursor_event(Some(2), false, false, true);
    assert!(doc.selected_field_name.is_none());

    doc.schema_editor_cursor_event(Some(12), false, false, true);
    assert_eq!(doc.selected_field_name.as_deref(), Some("header.length"));
    let (start, end) = doc.editor_highlight_range().expect("name should be highlighted");
    assert_eq!(&doc.schema_editor_text[start..end], "length");

    doc.schema_editor_cursor_event(Some(12), false, false, true);
    assert_eq!(doc.schema_editor_cursor_char_index, Some(12));
}

#[test]
fn editor_highlight_falls_back_to_the_matched_line() {
    let mut doc = DocumentView::new(0);
    doc.schema_match = Some(SchemaMatch { line: 2, line_start_byte: 8, line_end_byte: 23, snippet: "- name: magic".to_string() });
    assert_eq!(doc.editor_highlight_range(), Some((8, 23)));
    doc.schema_cursor_name_highlight = Some(SchemaHighlight { line: 2, start_byte: 16, end_byte: 21 });
    assert_eq!(doc.editor_highlight_range(), Some((16, 21)));
}

#[test]
fn status_lines_describe_selection_and_diagnostics() {
    let mut doc = DocumentView::new(0);
    assert_eq!(doc.selected_field_label(), None);
    assert_eq!(doc.diagnostics_status(), None);

    doc.selected_field_name = Some("header.magic".to_string());
    doc.selected_field_range = Some((0x1A, 4));
    assert_eq!(doc.selected_field_label().as_deref(), Some("Selected: header.magic @ 0x0000001A (len 4)"));

    doc.field_evaluations = Some(vec![field_eval("a", "a", 0, true, Some("short read")), field_eval("b", "b", 1, true, None)]);
    doc.search_error = Some("bad".to_string());
    assert_eq!(doc.diagnostics_status().as_deref(), Some("Diagnostics: 2 errors"));
}

#[test]
fn collapsed_groups_hide_their_rows() {
    let evaluations = vec![
        field_eval("header.magic", "magic", 0, true, None),
        field_eval("header.length", "length", 4, true, None),
        field_eval("payload", "payload", 8, true, None),
        field_eval("records[0].id", "id", 12, true, None),
    ];
    let items = filtered_field_items(&evaluations, "", false);

    let open = table_rows(&items, &Vec::new());
    let labels: Vec<&str> = open.iter().map(|row| row.label.as_str()).collect();
    assert_eq!(labels, vec!["▼ header", "    magic", "    length", "payload", "▼ records[0]", "    id"]);
    assert!(open[0].eval.is_none());
    assert_eq!(open[2].eval.map(|eval| eval.resolved_offset), Some(4));

    let closed = table_rows(&items, &vec!["header".to_string()]);
    let labels: Vec<&str> = closed.iter().map(|row| row.label.as_str()).collect();
    assert_eq!(labels, vec!["▶ header", "payload", "▼ records[0]", "    id"]);
}

#[test]
fn ascii_column_shows_printable_bytes_and_dots() {
    assert_eq!(hex_ascii_column(b"Hi\x00~\x7f \x1f"), "Hi.~. .");
    assert_eq!(hex_ascii_column(&[0xC3, 0xA9]), "..");
    assert_eq!(hex_ascii_column(&[]), "");
}

#[test]
fn go_after_a_page_move_keeps_the_view() {
    let mut doc = DocumentView::new(10_000);
    doc.next_hex_page();
    doc.next_hex_page();
    let start = doc.hex_start_offset;
    let input = doc.hex_offset_input.clone();

    doc.go_to_offset_input();

    assert_eq!(doc.hex_start_offset, start);
    assert_eq!(doc.hex_offset_input, input);
}

#[test]
fn toggling_twice_restores_which_groups_are_collapsed() {
    let mut doc = DocumentView::new(0);
    doc.collapsed_field_groups = vec!["a".to_string(), "b".to_string()];
    let first = doc.toggle_field_group("a");
    let second = doc.toggle_field_group("a");
    assert_ne!(first, second);
    let mut groups = doc.collapsed_field_groups.clone();
    groups.sort();
    assert_eq!(groups, vec!["a".to_string(), "b".to_string()]);
}

#[test]
fn fields_pane_labels_name_the_schema_and_count_rows() {
    assert_eq!(fields_shown_label(3, 12), "Showing 3 / 12 fields");
    assert_eq!(schema_label("Packet", 2, Some("packet.yml")), "Schema: Packet (v2) - packet.yml");
    assert_eq!(schema_label("Packet", 1, None), "Schema: Packet (v1)");
}
