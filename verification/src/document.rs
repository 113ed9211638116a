//! The viewer's state for one open file: the interpretation and the schema text it came
//! from, the selected field and where it is defined, the row filters, the search, and the
//! part of the file the hex view shows.
use vstd::prelude::*;
use vstd::utf8::encode_utf8;
use crate::ast::{copy_string, Schema};
use crate::schema_error::{schema_error_text, SchemaError};
use crate::buffer::FileBuffer;
use crate::error::{buffer_error_text, BufferError};
use crate::interpret::{interpret_schema, rows_view, spec_interpret_schema, FieldEval};
use crate::search::{find_byte_pattern_matches, occurrences_below, parse_hex_pattern, spec_hex_pattern, SEARCH_CHUNK_SIZE};
use crate::text::{utf8_len, decimal, hex_upper, is_blank, str_equal, str_is_blank, u64_to_decimal, u64_to_hex_upper};
use crate::viewer::{
    collect_diagnostics, diagnostic_count, field_name_matches_filter,
    best_row, failed_rows, line_at, name_entry, nth_line_start, find_best_field_for_schema_name, find_best_schema_name_match, first_found, last_dot, lemma_first_found, name_candidates, name_passes_filter, row_diagnostic,
    saturating_add, schema_field_name_match_at_line, schema_match_for, split_field_group, texts,
    error_location, schema_error_diagnostic, schema_error_diagnostic_is, schema_error_location,
    ClickedField, DiagnosticCategory, DiagnosticTarget, GuiDiagnostic, SchemaHighlight, SchemaMatch, SourceLocation,
};

verus! {

/// The number of bytes the hex view shows at a time.
pub const HEX_PAGE_SIZE: u64 = 1024;

/// How a search query is read: as text (its UTF-8 bytes) or as hex byte notation.
#[derive(Debug, Clone, Copy, PartialEq, Eq, Structural)]
pub enum SearchMode {
    Ascii,
    Hex,
}

/// The viewer's state for one open file of `size` bytes.
#[derive(Debug)]
pub struct DocumentView {
    pub size: u64,
    pub schema: Option<Schema>,
    pub field_evaluations: Option<Vec<FieldEval>>,
    pub last_error: Option<String>,
    pub last_error_is_offset: bool,
    pub schema_path: Option<String>,
    pub schema_editor_text: String,
    pub schema_editor_dirty: bool,
    pub schema_editor_error: Option<String>,
    pub schema_diagnostics: Vec<GuiDiagnostic>,
    pub active_schema_diagnostic: Option<usize>,
    pub schema_match: Option<SchemaMatch>,
    pub schema_match_scroll_pending: bool,
    pub schema_cursor_name_highlight: Option<SchemaHighlight>,
    pub schema_editor_cursor_char_index: Option<usize>,
    pub hex_start_offset: u64,
    pub hex_offset_input: String,
    pub selected_field_range: Option<(u64, usize)>,
    pub selected_field_name: Option<String>,
    pub selected_field_scroll_pending: bool,
    pub search_query: String,
    pub search_mode: SearchMode,
    pub active_search_query: String,
    pub active_search_pattern_len: usize,
    pub search_matches: Vec<u64>,
    pub current_search_match: Option<usize>,
    pub search_error: Option<String>,
    pub field_filter_query: String,
    pub field_filter_errors_only: bool,
    pub collapsed_field_groups: Vec<String>,
}

/// The schema, its interpretation, the editor's state and the schema diagnostics agree.
pub open spec fn same_schema_state(a: DocumentView, b: DocumentView) -> bool {
    &&& a.schema == b.schema
    &&& a.field_evaluations == b.field_evaluations
    &&& a.last_error == b.last_error
    &&& a.last_error_is_offset == b.last_error_is_offset
    &&& a.schema_path == b.schema_path
    &&& a.schema_editor_text == b.schema_editor_text
    &&& a.schema_editor_dirty == b.schema_editor_dirty
    &&& a.schema_editor_error == b.schema_editor_error
    &&& a.schema_diagnostics == b.schema_diagnostics
    &&& a.active_schema_diagnostic == b.active_schema_diagnostic
    &&& a.schema_editor_cursor_char_index == b.schema_editor_cursor_char_index
}

/// The search state agrees.
pub open spec fn same_search(a: DocumentView, b: DocumentView) -> bool {
    &&& a.search_query == b.search_query
    &&& a.search_mode == b.search_mode
    &&& a.active_search_query == b.active_search_query
    &&& a.active_search_pattern_len == b.active_search_pattern_len
    &&& a.search_matches == b.search_matches
    &&& a.current_search_match == b.current_search_match
    &&& a.search_error == b.search_error
}

/// The file size and the hex view's position agree.
pub open spec fn same_hex(a: DocumentView, b: DocumentView) -> bool {
    &&& a.size == b.size
    &&& a.hex_start_offset == b.hex_start_offset
    &&& a.hex_offset_input == b.hex_offset_input
}

/// The selected field agrees.
pub open spec fn same_selection(a: DocumentView, b: DocumentView) -> bool {
    &&& a.selected_field_range == b.selected_field_range
    &&& a.selected_field_name == b.selected_field_name
    &&& a.selected_field_scroll_pending == b.selected_field_scroll_pending
}

/// The schema line matched to the selection and the highlighted name agree.
pub open spec fn same_schema_match(a: DocumentView, b: DocumentView) -> bool {
    &&& a.schema_match == b.schema_match
    &&& a.schema_match_scroll_pending == b.schema_match_scroll_pending
    &&& a.schema_cursor_name_highlight == b.schema_cursor_name_highlight
}

/// The row filters agree.
pub open spec fn same_filters(a: DocumentView, b: DocumentView) -> bool {
    &&& a.field_filter_query == b.field_filter_query
    &&& a.field_filter_errors_only == b.field_filter_errors_only
    &&& a.collapsed_field_groups == b.collapsed_field_groups
}

/// Whether `new` is `old` after taking `schema` as the schema of a file holding `contents`:
/// the schema interpreted, the editor's error state, the schema diagnostics, the last error
/// and the selection cleared; the editor's text, the schema's path, the search, the hex view
/// and the row filters kept.
pub open spec fn committed(old: DocumentView, new: DocumentView, contents: Seq<u8>, schema: Schema) -> bool {
    &&& new.schema == Some(schema)
    &&& new.field_evaluations matches Some(v) && rows_view(v@) == spec_interpret_schema(contents, schema)
    &&& !new.schema_editor_dirty
    &&& new.schema_editor_error is None
    &&& new.schema_cursor_name_highlight is None
    &&& new.schema_editor_cursor_char_index is None
    &&& new.schema_diagnostics@.len() == 0
    &&& new.active_schema_diagnostic is None
    &&& new.last_error is None
    &&& !new.last_error_is_offset
    &&& new.selected_field_range is None
    &&& new.selected_field_name is None
    &&& !new.selected_field_scroll_pending
    &&& new.schema_match is None
    &&& !new.schema_match_scroll_pending
    &&& new.schema_editor_text == old.schema_editor_text
    &&& new.schema_path == old.schema_path
    &&& same_search(old, new)
    &&& same_hex(old, new)
    &&& same_filters(old, new)
}

/// Whether `new` and `r` are what running `old`'s query over a file holding `contents` gives:
/// a blank query changes nothing; an invalid hex query clears the last results and records
/// its error; a read error is returned with nothing changed; otherwise the matches replace the
/// last results and the first becomes current.
pub open spec fn searched(old: DocumentView, new: DocumentView, contents: Seq<u8>, r: Result<(), String>) -> bool {
    &&& is_blank(old.search_query@) ==> r is Ok && new == old
    &&& !is_blank(old.search_query@) ==> match query_pattern(old.search_query@, old.search_mode) {
        Err(m) => r is Ok
            && (new.search_error matches Some(e) && e@ == m)
            && new.active_search_query@.len() == 0
            && new.active_search_pattern_len == 0
            && new.search_matches@.len() == 0
            && new.current_search_match is None
            && new.search_query == old.search_query
            && new.search_mode == old.search_mode
            && same_schema_state(old, new)
            && same_hex(old, new)
            && same_selection(old, new)
            && same_schema_match(old, new)
            && same_filters(old, new),
        Ok(p) => match search_outcome(contents, old.size, p) {
            Err(e) => r matches Err(x) && x@ == e && new == old,
            Ok(found) => r is Ok
                && new.active_search_query@ == old.search_query@
                && new.active_search_pattern_len == p.len()
                && new.search_matches@ == found
                && new.search_error is None
                && new.search_query == old.search_query
                && new.search_mode == old.search_mode
                && same_schema_state(old, new)
                && same_selection(old, new)
                && same_schema_match(old, new)
                && same_filters(old, new)
                && (found.len() == 0 ==> new.current_search_match is None
                    && same_hex(old, new))
                && (found.len() > 0 ==> new.current_search_match == Some(0usize)
                    && scrolled(old, new, found[0])),
        }
    }
}

/// Whether `new` is `old` after going to the row `name` of an interpretation diagnostic (see
/// `activate_runtime_diagnostic`).
pub open spec fn runtime_diagnostic_activated(old: DocumentView, new: DocumentView, name: Seq<char>, offset: u64, byte_len: usize, offset_valid: bool) -> bool {
    &&& filters_reveal(old, new, name)
    &&& new.selected_field_name matches Some(n) && n@ == name
    &&& new.selected_field_range == if offset_valid { Some((offset, byte_len)) } else { None }
    &&& new.selected_field_scroll_pending
    &&& new.schema_cursor_name_highlight is None
    &&& offset_valid ==> ({
        let mid = DocumentView { field_filter_query: new.field_filter_query,
            field_filter_errors_only: false, collapsed_field_groups: new.collapsed_field_groups, ..old };
        matched_in_schema(mid, new, name, name)
    })
    &&& !offset_valid ==> new.schema_match is None && !new.schema_match_scroll_pending
    &&& !offset_valid || byte_len == 0 ==> same_hex(old, new)
    &&& offset_valid && byte_len > 0 ==> scrolled(old, new, offset)
    &&& same_schema_state(old, new)
    &&& same_search(old, new)
}

/// Whether `new` is `old` after the editor's cursor came to rest on line `line_index` (see
/// `activate_schema_editor_cursor_line`).
pub open spec fn cursor_line_activated(old: DocumentView, new: DocumentView, line_index: usize) -> bool {
    let text = old.schema_editor_text@;
    let picked = match (entry_at_line(text, line_index as nat), old.field_evaluations) {
        (Some((_, (n, _, _))), Some(evs)) => best_row(evs@, n),
        _ => None,
    };
    match picked {
        Some(i) => {
            let (st, (n, a, b)) = entry_at_line(text, line_index as nat)->Some_0;
            let row = old.field_evaluations->Some_0@[i];
            &&& new.schema_cursor_name_highlight matches Some(h)
                && h.line == line_index + 1
                && h.start_byte as nat == utf8_len(text.take(st)) + a
                && h.end_byte as nat == utf8_len(text.take(st)) + b
            &&& picked_from_schema(old, new, row.display_name@, row.resolved_offset, row.byte_len, row.offset_valid)
        },
        None => {
            &&& new.schema_cursor_name_highlight is None
            &&& !new.selected_field_scroll_pending
            &&& new.selected_field_range == old.selected_field_range
            &&& new.selected_field_name == old.selected_field_name
            &&& new.schema_match == old.schema_match
            &&& new.schema_match_scroll_pending == old.schema_match_scroll_pending
            &&& same_schema_state(old, new)
            &&& same_search(old, new)
            &&& same_hex(old, new)
            &&& same_filters(old, new)
        },
    }
}

/// `a - b`, or zero when that is negative.
pub open spec fn saturating_sub(a: u64, b: u64) -> u64 {
    if a >= b { (a - b) as u64 } else { 0 }
}

/// Whether `offset` lies outside the page of the hex view that starts at `start`.
pub open spec fn off_page(start: u64, offset: u64) -> bool {
    offset < start || offset >= saturating_add(start, HEX_PAGE_SIZE as nat)
}

/// Where the hex view starts when it scrolls to `offset`: there, but no further than one
/// page before the end of the file.
pub open spec fn scroll_target(size: u64, offset: u64) -> u64 {
    let max_start = saturating_sub(size, HEX_PAGE_SIZE);
    if offset <= max_start { offset } else { max_start }
}

/// Whether `new`'s hex view is `old`'s brought to `offset`: moved there (see
/// `scroll_target`) when `offset` is off the page, unchanged otherwise.
pub open spec fn scrolled(old: DocumentView, new: DocumentView, offset: u64) -> bool {
    &&& new.size == old.size
    &&& off_page(old.hex_start_offset, offset) ==> {
        let t = scroll_target(old.size, offset);
        &&& new.hex_start_offset == t
        &&& new.hex_offset_input@ == "0x"@ + hex_upper(t as nat)
    }
    &&& !off_page(old.hex_start_offset, offset) ==>
        new.hex_start_offset == old.hex_start_offset && new.hex_offset_input == old.hex_offset_input
}

/// Whether `new` is `old` after selecting search match `index` (taken modulo the number of
/// matches), the hex view scrolled to it; with no matches there is no current match and
/// nothing else changes.
pub open spec fn selected(old: DocumentView, new: DocumentView, index: int) -> bool {
    &&& same_schema_state(old, new)
    &&& same_selection(old, new)
    &&& same_schema_match(old, new)
    &&& same_filters(old, new)
    &&& new.search_query == old.search_query
    &&& new.search_mode == old.search_mode
    &&& new.active_search_query == old.active_search_query
    &&& new.active_search_pattern_len == old.active_search_pattern_len
    &&& new.search_matches == old.search_matches
    &&& new.search_error == old.search_error
    &&& old.search_matches@.len() == 0 ==> new.current_search_match is None && same_hex(old, new)
    &&& old.search_matches@.len() > 0 ==> {
        let i = index % old.search_matches@.len() as int;
        &&& new.current_search_match == Some(i as usize)
        &&& scrolled(old, new, old.search_matches@[i])
    }
}

/// The match that "next" moves to: the one after the current match, wrapping around, or
/// the first.
pub open spec fn next_index(current: Option<usize>, n: int) -> int {
    match current {
        Some(i) => (i + 1) % n,
        None => 0,
    }
}

/// The match that "previous" moves to: the one before the current match, wrapping around,
/// or the first.
pub open spec fn previous_index(current: Option<usize>, n: int) -> int {
    match current {
        Some(i) => if i == 0 { n - 1 } else { i - 1 },
        None => 0,
    }
}

/// The status line of a search: none before a search, else the current match's number and
/// the number of matches.
pub open spec fn status_text(s: DocumentView) -> Option<Seq<char>> {
    if s.active_search_query@.len() == 0 {
        None
    } else if s.search_matches@.len() == 0 {
        Some("No matches"@)
    } else {
        let current = match s.current_search_match { Some(i) => i as nat, None => 0 };
        Some("Match "@ + decimal(current + 1) + " of "@ + decimal(s.search_matches@.len()))
    }
}

/// What searching the first `size` bytes of `data` for `pattern` gives: the start offsets
/// of every occurrence in order, or the error that stops the search.
pub open spec fn search_outcome(data: Seq<u8>, size: u64, pattern: Seq<u8>) -> Result<Seq<u64>, Seq<char>> {
    if pattern.len() == 0 || pattern.len() > size {
        Ok(Seq::empty())
    } else if pattern.len() - 1 > usize::MAX - SEARCH_CHUNK_SIZE {
        Err("Search query is too large"@)
    } else if size <= data.len() {
        Ok(occurrences_below(data.subrange(0, size as int), pattern, (size - pattern.len() + 1) as nat))
    } else {
        Err(buffer_error_text(BufferError::OutOfBounds))
    }
}

/// The bytes a query searches for: its UTF-8 encoding, or the bytes its hex notation
/// stands for (`Err` with the message when that notation is invalid).
pub open spec fn query_pattern(query: Seq<char>, mode: SearchMode) -> Result<Seq<u8>, Seq<char>> {
    match mode {
        SearchMode::Ascii => Ok(encode_utf8(query)),
        SearchMode::Hex => spec_hex_pattern(query),
    }
}

impl DocumentView {
    /// The state of a file of `size` bytes just opened: no schema, nothing selected or
    /// searched, the view at the start.
    pub fn new(size: u64) -> (d: DocumentView)
        ensures
            d.size == size,
            d.schema is None,
            d.field_evaluations is None,
            d.last_error is None,
            !d.last_error_is_offset,
            d.schema_path is None,
            d.schema_editor_text@.len() == 0,
            !d.schema_editor_dirty,
            d.schema_editor_error is None,
            d.schema_diagnostics@.len() == 0,
            d.active_schema_diagnostic is None,
            d.schema_match is None,
            !d.schema_match_scroll_pending,
            d.schema_cursor_name_highlight is None,
            d.schema_editor_cursor_char_index is None,
            d.hex_start_offset == 0,
            d.hex_offset_input@ == "0x0"@,
            d.selected_field_range is None,
            d.selected_field_name is None,
            !d.selected_field_scroll_pending,
            d.search_query@.len() == 0,
            d.search_mode == SearchMode::Ascii,
            d.active_search_query@.len() == 0,
            d.active_search_pattern_len == 0,
            d.search_matches@.len() == 0,
            d.current_search_match is None,
            d.search_error is None,
            d.field_filter_query@.len() == 0,
            !d.field_filter_errors_only,
            d.collapsed_field_groups@.len() == 0,
    {
        DocumentView {
            size,
            schema: None,
            field_evaluations: None,
            last_error: None,
            last_error_is_offset: false,
            schema_path: None,
            schema_editor_text: String::new(),
            schema_editor_dirty: false,
            schema_editor_error: None,
            schema_diagnostics: Vec::new(),
            active_schema_diagnostic: None,
            schema_match: None,
            schema_match_scroll_pending: false,
            schema_cursor_name_highlight: None,
            schema_editor_cursor_char_index: None,
            hex_start_offset: 0,
            hex_offset_input: String::from_str("0x0"),
            selected_field_range: None,
            selected_field_name: None,
            selected_field_scroll_pending: false,
            search_query: String::new(),
            search_mode: SearchMode::Ascii,
            active_search_query: String::new(),
            active_search_pattern_len: 0,
            search_matches: Vec::new(),
            current_search_match: None,
            search_error: None,
            field_filter_query: String::new(),
            field_filter_errors_only: false,
            collapsed_field_groups: Vec::new(),
        }
    }

    /// Brings `offset` into the hex view when it lies off the current page.
    fn scroll_to(&mut self, offset: u64)
        ensures
            scrolled(*old(self), *final(self), offset),
            same_schema_state(*old(self), *final(self)),
            same_search(*old(self), *final(self)),
            same_selection(*old(self), *final(self)),
            same_schema_match(*old(self), *final(self)),
            same_filters(*old(self), *final(self)),
    {
        let page_end = self.hex_start_offset.saturating_add(HEX_PAGE_SIZE);
        if offset < self.hex_start_offset || offset >= page_end {
            let max_start = self.size.saturating_sub(HEX_PAGE_SIZE);
            let new_offset = if offset <= max_start { offset } else { max_start };
            self.hex_start_offset = new_offset;
            let mut input = String::from_str("0x");
            let h = u64_to_hex_upper(new_offset);
            input.append(h.as_str());
            self.hex_offset_input = input;
        }
    }

    /// Forgets the last search's results, keeping the query being edited.
    pub fn clear_active_search(&mut self)
        ensures
            final(self).active_search_query@.len() == 0,
            final(self).active_search_pattern_len == 0,
            final(self).search_matches@.len() == 0,
            final(self).current_search_match is None,
            final(self).search_query == old(self).search_query,
            final(self).search_mode == old(self).search_mode,
            final(self).search_error == old(self).search_error,
            same_schema_state(*old(self), *final(self)),
            same_hex(*old(self), *final(self)),
            same_selection(*old(self), *final(self)),
            same_schema_match(*old(self), *final(self)),
            same_filters(*old(self), *final(self)),
    {
        self.active_search_query = String::new();
        self.active_search_pattern_len = 0;
        self.search_matches = Vec::new();
        self.current_search_match = None;
    }

    /// Clears the query, the last search's results and any search error.
    pub fn clear_search(&mut self)
        ensures
            final(self).search_query@.len() == 0,
            final(self).active_search_query@.len() == 0,
            final(self).active_search_pattern_len == 0,
            final(self).search_matches@.len() == 0,
            final(self).current_search_match is None,
            final(self).search_error is None,
            final(self).search_mode == old(self).search_mode,
            same_schema_state(*old(self), *final(self)),
            same_hex(*old(self), *final(self)),
            same_selection(*old(self), *final(self)),
            same_schema_match(*old(self), *final(self)),
            same_filters(*old(self), *final(self)),
    {
        self.search_query = String::new();
        self.clear_active_search();
        self.search_error = None;
    }

    /// Makes search match `index` (taken modulo the number of matches) the current one and
    /// scrolls the hex view to it; with no matches there is no current match.
    pub fn select_search_match(&mut self, index: usize)
        ensures
            selected(*old(self), *final(self), index as int),
    {
        if self.search_matches.len() == 0 {
            self.current_search_match = None;
            return;
        }
        let index = index % self.search_matches.len();
        self.current_search_match = Some(index);
        let offset = self.search_matches[index];
        self.scroll_to(offset);
    }

    /// Moves to the next match, wrapping around; to the first when none is current.
    pub fn next_search_match(&mut self)
        ensures
            selected(*old(self), *final(self), next_index(old(self).current_search_match, old(self).search_matches@.len() as int)),
    {
        if self.search_matches.len() == 0 {
            self.current_search_match = None;
            return;
        }
        let n = self.search_matches.len();
        let next = match self.current_search_match {
            Some(i) => (i % n + 1) % n,
            None => 0,
        };
        proof {
            if let Some(i) = old(self).current_search_match {
                let ni = n as int;
                let ii = i as int;
                assert((ii % ni + 1) % ni == (ii + 1) % ni) by (nonlinear_arith)
                    requires ni > 0, ii >= 0;
            }
        }
        self.select_search_match(next);
    }

    /// Moves to the previous match, wrapping around; to the first when none is current.
    pub fn previous_search_match(&mut self)
        ensures
            selected(*old(self), *final(self), previous_index(old(self).current_search_match, old(self).search_matches@.len() as int)),
    {
        if self.search_matches.len() == 0 {
            self.current_search_match = None;
            return;
        }
        let n = self.search_matches.len();
        let previous = match self.current_search_match {
            Some(i) => if i == 0 { n - 1 } else { i - 1 },
            None => 0,
        };
        self.select_search_match(previous);
    }

    /// The status line of the search.
    pub fn search_status(&self) -> (r: Option<String>)
        requires
            self.current_search_match != Some(usize::MAX),
        ensures
            match status_text(*self) {
                Some(t) => r matches Some(s) && s@ == t,
                None => r is None,
            },
    {
        if self.active_search_query.as_str().is_empty() {
            return None;
        }
        if self.search_matches.len() == 0 {
            return Some(String::from_str("No matches"));
        }
        let current: usize = match self.current_search_match {
            Some(i) => i,
            None => 0,
        };
        let mut s = String::from_str("Match ");
        let c = u64_to_decimal((current + 1) as u64);
        s.append(c.as_str());
        s.append(" of ");
        let n = u64_to_decimal(self.search_matches.len() as u64);
        s.append(n.as_str());
        Some(s)
    }

    /// Runs the query over `buffer`: a blank query does nothing; an invalid hex query clears
    /// the last results and records its error; otherwise the matches replace the last
    /// results and the first becomes current. An error reading the buffer is returned with
    /// the state unchanged.
    pub fn find_search_matches<B: FileBuffer + ?Sized>(&mut self, buffer: &B) -> (r: Result<(), String>)
        ensures
            searched(*old(self), *final(self), buffer.contents(), r),

    {
        if str_is_blank(self.search_query.as_str()) {
            return Ok(());
        }
        let hex_pattern: Vec<u8>;
        let pattern: &[u8] = match self.search_mode {
            SearchMode::Ascii => self.search_query.as_str().as_bytes(),
            SearchMode::Hex => match parse_hex_pattern(self.search_query.as_str()) {
                Ok(p) => {
                    hex_pattern = p;
                    hex_pattern.as_slice()
                },
                Err(err) => {
                    self.clear_active_search();
                    self.search_error = Some(err);
                    return Ok(());
                },
            },
        };
        let ghost pv = pattern@;
        assert(query_pattern(self.search_query@, self.search_mode) == Ok::<Seq<u8>, Seq<char>>(pv));
        let found = match find_byte_pattern_matches(buffer, self.size, pattern) {
            Ok(v) => v,
            Err(e) => {
                assert(search_outcome(buffer.contents(), self.size, pv) == Err::<Seq<u64>, Seq<char>>(e@));
                return Err(e);
            },
        };
        proof {
            if pv.len() == 0 || pv.len() > self.size {
                assert(found@ =~= Seq::<u64>::empty());
            }
        }
        assert(search_outcome(buffer.contents(), self.size, pv) == Ok::<Seq<u64>, Seq<char>>(found@));
        let plen = pattern.len();
        let query = copy_string(&self.search_query);
        self.active_search_query = query;
        self.active_search_pattern_len = plen;
        self.search_matches = found;
        self.current_search_match = None;
        self.search_error = None;
        if self.search_matches.len() > 0 {
            self.select_search_match(0);
        }
        Ok(())
    }
}

/// The names `s` without those equal to `g`.
pub open spec fn without(s: Seq<Seq<char>>, g: Seq<char>) -> Seq<Seq<char>>
    decreases s.len(),
{
    if s.len() == 0 {
        Seq::empty()
    } else if s.last() == g {
        without(s.drop_last(), g)
    } else {
        without(s.drop_last(), g).push(s.last())
    }
}

/// Whether `new`'s schema-line match is what looking up the field named `display_name` in
/// the schema text of `old` gives: the line found, marked for scrolling, or none.
pub open spec fn matched_in_schema(old: DocumentView, new: DocumentView, display_name: Seq<char>, schema_field_name: Seq<char>) -> bool {
    match first_found(old.schema_editor_text@, name_candidates(display_name, schema_field_name)) {
        Some(c) => schema_match_for(old.schema_editor_text@, c, new.schema_match) && new.schema_match_scroll_pending,
        None => new.schema_match is None && !new.schema_match_scroll_pending,
    }
}

/// Whether `new`'s filters are `old`'s made to show the row `name`: its group expanded, a
/// name filter it does not pass cleared, and the errors-only filter off.
pub open spec fn filters_reveal(old: DocumentView, new: DocumentView, name: Seq<char>) -> bool {
    &&& texts(new.collapsed_field_groups@) == match last_dot(name) {
        Some(i) => if 0 < i && i + 1 < name.len() { without(texts(old.collapsed_field_groups@), name.take(i)) }
            else { texts(old.collapsed_field_groups@) },
        None => texts(old.collapsed_field_groups@),
    }
    &&& name_passes_filter(name, old.field_filter_query@) ==> new.field_filter_query == old.field_filter_query
    &&& !name_passes_filter(name, old.field_filter_query@) ==> new.field_filter_query@.len() == 0
    &&& !new.field_filter_errors_only
}

impl DocumentView {
    /// Forgets the schema line matched to the selection.
    pub fn clear_schema_match(&mut self)
        ensures
            final(self).schema_match is None,
            !final(self).schema_match_scroll_pending,
            final(self).schema_cursor_name_highlight == old(self).schema_cursor_name_highlight,
            same_schema_state(*old(self), *final(self)),
            same_search(*old(self), *final(self)),
            same_hex(*old(self), *final(self)),
            same_selection(*old(self), *final(self)),
            same_filters(*old(self), *final(self)),
    {
        self.schema_match = None;
        self.schema_match_scroll_pending = false;
    }

    /// Forgets the highlighted name in the schema text.
    pub fn clear_schema_cursor_name_highlight(&mut self)
        ensures
            final(self).schema_cursor_name_highlight is None,
            final(self).schema_match == old(self).schema_match,
            final(self).schema_match_scroll_pending == old(self).schema_match_scroll_pending,
            same_schema_state(*old(self), *final(self)),
            same_search(*old(self), *final(self)),
            same_hex(*old(self), *final(self)),
            same_selection(*old(self), *final(self)),
            same_filters(*old(self), *final(self)),
    {
        self.schema_cursor_name_highlight = None;
    }

    /// Forgets the schema diagnostics.
    pub fn clear_schema_diagnostics(&mut self)
        ensures
            final(self).schema_diagnostics@.len() == 0,
            final(self).active_schema_diagnostic is None,
            final(self).schema == old(self).schema,
            final(self).field_evaluations == old(self).field_evaluations,
            final(self).last_error == old(self).last_error,
            final(self).last_error_is_offset == old(self).last_error_is_offset,
            final(self).schema_editor_text == old(self).schema_editor_text,
            final(self).schema_path == old(self).schema_path,
            final(self).schema_editor_dirty == old(self).schema_editor_dirty,
            final(self).schema_editor_error == old(self).schema_editor_error,
            final(self).schema_editor_cursor_char_index == old(self).schema_editor_cursor_char_index,
            same_search(*old(self), *final(self)),
            same_hex(*old(self), *final(self)),
            same_selection(*old(self), *final(self)),
            same_schema_match(*old(self), *final(self)),
            same_filters(*old(self), *final(self)),
    {
        self.schema_diagnostics = Vec::new();
        self.active_schema_diagnostic = None;
    }

    /// Shows `diagnostic` as the one schema diagnostic, active, and forgets the schema
    /// line matched to the selection and the highlighted name.
    pub fn set_schema_diagnostic(&mut self, diagnostic: GuiDiagnostic)
        ensures
            final(self).schema_diagnostics@ == seq![diagnostic],
            final(self).active_schema_diagnostic == Some(0usize),
            final(self).schema_match is None,
            !final(self).schema_match_scroll_pending,
            final(self).schema_cursor_name_highlight is None,
            final(self).schema == old(self).schema,
            final(self).field_evaluations == old(self).field_evaluations,
            final(self).last_error == old(self).last_error,
            final(self).last_error_is_offset == old(self).last_error_is_offset,
            final(self).schema_editor_text == old(self).schema_editor_text,
            final(self).schema_path == old(self).schema_path,
            final(self).schema_editor_dirty == old(self).schema_editor_dirty,
            final(self).schema_editor_error == old(self).schema_editor_error,
            final(self).schema_editor_cursor_char_index == old(self).schema_editor_cursor_char_index,
            same_search(*old(self), *final(self)),
            same_hex(*old(self), *final(self)),
            same_selection(*old(self), *final(self)),
            same_filters(*old(self), *final(self)),
    {
        let mut ds: Vec<GuiDiagnostic> = Vec::new();
        ds.push(diagnostic);
        self.schema_diagnostics = ds;
        self.active_schema_diagnostic = Some(0);
        self.clear_schema_match();
        self.clear_schema_cursor_name_highlight();
    }

    /// Deselects the selected field.
    pub fn clear_selected_field(&mut self)
        ensures
            final(self).selected_field_range is None,
            final(self).selected_field_name is None,
            !final(self).selected_field_scroll_pending,
            final(self).schema_match is None,
            !final(self).schema_match_scroll_pending,
            final(self).schema_cursor_name_highlight is None,
            same_schema_state(*old(self), *final(self)),
            same_search(*old(self), *final(self)),
            same_hex(*old(self), *final(self)),
            same_filters(*old(self), *final(self)),
    {
        self.selected_field_range = None;
        self.selected_field_name = None;
        self.selected_field_scroll_pending = false;
        self.clear_schema_match();
        self.clear_schema_cursor_name_highlight();
    }

    /// Looks up the schema line that defines the field and remembers it, marked for
    /// scrolling; forgets the previous match when there is none.
    pub fn update_schema_match_for_field(&mut self, display_name: &str, schema_field_name: &str)
        ensures
            matched_in_schema(*old(self), *final(self), display_name@, schema_field_name@),
            final(self).schema_cursor_name_highlight == old(self).schema_cursor_name_highlight,
            same_schema_state(*old(self), *final(self)),
            same_search(*old(self), *final(self)),
            same_hex(*old(self), *final(self)),
            same_selection(*old(self), *final(self)),
            same_filters(*old(self), *final(self)),
    {
        proof { lemma_first_found(self.schema_editor_text@, name_candidates(display_name@, schema_field_name@)); }
        match find_best_schema_name_match(self.schema_editor_text.as_str(), display_name, schema_field_name) {
            Some(m) => {
                self.schema_match = Some(m);
                self.schema_match_scroll_pending = true;
            },
            None => self.clear_schema_match(),
        }
    }

    /// Selects the row `display_name`, covering `byte_len` bytes at `offset`: looks up its
    /// schema line, forgets the highlighted name, and scrolls the hex view to the field
    /// unless it is empty.
    pub fn select_field_with_schema_name(&mut self, display_name: String, schema_field_name: String, offset: u64, byte_len: usize)
        ensures
            final(self).selected_field_name matches Some(n) && n@ == display_name@,
            final(self).selected_field_range == Some((offset, byte_len)),
            final(self).selected_field_scroll_pending == old(self).selected_field_scroll_pending,
            final(self).schema_cursor_name_highlight is None,
            matched_in_schema(*old(self), *final(self), display_name@, schema_field_name@),
            byte_len == 0 ==> same_hex(*old(self), *final(self)),
            byte_len > 0 ==> scrolled(*old(self), *final(self), offset),
            same_schema_state(*old(self), *final(self)),
            same_search(*old(self), *final(self)),
            same_filters(*old(self), *final(self)),
    {
        self.selected_field_name = Some(copy_string(&display_name));
        self.selected_field_range = Some((offset, byte_len));
        self.clear_schema_cursor_name_highlight();
        self.update_schema_match_for_field(display_name.as_str(), schema_field_name.as_str());
        if byte_len == 0 {
            return;
        }
        self.scroll_to(offset);
    }

    /// Selects the row `name`, whose schema name is the same.
    pub fn select_field(&mut self, name: String, offset: u64, byte_len: usize)
        ensures
            final(self).selected_field_name matches Some(n) && n@ == name@,
            final(self).selected_field_range == Some((offset, byte_len)),
            final(self).selected_field_scroll_pending == old(self).selected_field_scroll_pending,
            final(self).schema_cursor_name_highlight is None,
            matched_in_schema(*old(self), *final(self), name@, name@),
            byte_len == 0 ==> same_hex(*old(self), *final(self)),
            byte_len > 0 ==> scrolled(*old(self), *final(self), offset),
            same_schema_state(*old(self), *final(self)),
            same_search(*old(self), *final(self)),
            same_filters(*old(self), *final(self)),
    {
        let schema_field_name = copy_string(&name);
        self.select_field_with_schema_name(name, schema_field_name, offset, byte_len);
    }

    /// Expands the group named `group` in the field table.
    pub fn expand_field_group(&mut self, group: &str)
        ensures
            texts(final(self).collapsed_field_groups@) == without(texts(old(self).collapsed_field_groups@), group@),
            final(self).field_filter_query == old(self).field_filter_query,
            final(self).field_filter_errors_only == old(self).field_filter_errors_only,
            same_schema_state(*old(self), *final(self)),
            same_search(*old(self), *final(self)),
            same_hex(*old(self), *final(self)),
            same_selection(*old(self), *final(self)),
            same_schema_match(*old(self), *final(self)),
    {
        let mut kept: Vec<String> = Vec::new();
        let mut i: usize = 0;
        let ghost names = texts(self.collapsed_field_groups@);
        assert(names.take(0) =~= Seq::<Seq<char>>::empty());
        while i < self.collapsed_field_groups.len()
            invariant
                i <= self.collapsed_field_groups.len(),
                names == texts(self.collapsed_field_groups@),
                texts(kept@) == without(names.take(i as int), group@),
            decreases self.collapsed_field_groups.len() - i,
        {
            assert(names.take(i + 1).drop_last() =~= names.take(i as int));
            if !str_equal(self.collapsed_field_groups[i].as_str(), group) {
                let ghost before = kept@;
                kept.push(copy_string(&self.collapsed_field_groups[i]));
                assert(texts(kept@) =~= texts(before).push(names[i as int]));
            }
            i += 1;
        }
        assert(names.take(names.len() as int) =~= names);
        self.collapsed_field_groups = kept;
    }

    /// Makes the row `name` visible: expands its group, clears a name filter it does not
    /// pass, and turns off the errors-only filter.
    fn reveal_row(&mut self, name: &str)
        ensures
            filters_reveal(*old(self), *final(self), name@),
            same_schema_state(*old(self), *final(self)),
            same_search(*old(self), *final(self)),
            same_hex(*old(self), *final(self)),
            same_selection(*old(self), *final(self)),
            same_schema_match(*old(self), *final(self)),
    {
        if let Some((group, _)) = split_field_group(name) {
            self.expand_field_group(group);
        }
        if !field_name_matches_filter(name, self.field_filter_query.as_str()) {
            self.field_filter_query = String::new();
        }
        self.field_filter_errors_only = false;
    }

    /// Selects a field picked in the schema text: makes its row visible and selected, and
    /// scrolls the hex view to it when it has bytes at a resolved offset.
    pub fn select_field_from_schema(&mut self, field: ClickedField)
        ensures
            filters_reveal(*old(self), *final(self), field.display_name@),
            final(self).selected_field_name matches Some(n) && n@ == field.display_name@,
            final(self).selected_field_range == if field.offset_valid { Some((field.offset, field.byte_len)) } else { None },
            final(self).selected_field_scroll_pending,
            final(self).schema_match is None,
            !final(self).schema_match_scroll_pending,
            final(self).schema_cursor_name_highlight == old(self).schema_cursor_name_highlight,
            !field.offset_valid || field.byte_len == 0 ==> same_hex(*old(self), *final(self)),
            field.offset_valid && field.byte_len > 0 ==> scrolled(*old(self), *final(self), field.offset),
            same_schema_state(*old(self), *final(self)),
            same_search(*old(self), *final(self)),
    {
        self.clear_schema_match();
        self.reveal_row(field.display_name.as_str());
        let ClickedField { display_name, offset, byte_len, offset_valid, .. } = field;
        self.selected_field_name = Some(display_name);
        self.selected_field_range = if offset_valid { Some((offset, byte_len)) } else { None };
        self.selected_field_scroll_pending = true;
        if !offset_valid || byte_len == 0 {
            return;
        }
        self.scroll_to(offset);
    }

    /// Goes to the row of an interpretation diagnostic: makes it visible and selects it,
    /// or, when its offset could not be resolved, marks it selected without a range.
    pub fn activate_runtime_diagnostic(&mut self, name: &str, offset: u64, byte_len: usize, offset_valid: bool)
        ensures
            runtime_diagnostic_activated(*old(self), *final(self), name@, offset, byte_len, offset_valid),

    {
        self.reveal_row(name);
        if offset_valid {
            self.select_field(name.to_owned(), offset, byte_len);
            self.selected_field_scroll_pending = true;
        } else {
            self.selected_field_name = Some(name.to_owned());
            self.selected_field_range = None;
            self.selected_field_scroll_pending = true;
            self.clear_schema_match();
            self.clear_schema_cursor_name_highlight();
        }
    }
}

/// Whether two diagnostics say the same: same category, message, target and snippet.
pub open spec fn same_diagnostic(a: GuiDiagnostic, b: GuiDiagnostic) -> bool {
    &&& a.category == b.category
    &&& a.message@ == b.message@
    &&& match (a.target, b.target) {
        (DiagnosticTarget::Schema { location: la }, DiagnosticTarget::Schema { location: lb }) => match (la, lb) {
            (Some(x), Some(y)) => x.path@ == y.path@ && x.line == y.line && x.column == y.column,
            (None, None) => true,
            _ => false,
        },
        (DiagnosticTarget::Field { name: na, offset: oa, byte_len: ba, offset_valid: va },
            DiagnosticTarget::Field { name: nb, offset: ob, byte_len: bb, offset_valid: vb }) =>
            na@ == nb@ && oa == ob && ba == bb && va == vb,
        (DiagnosticTarget::Search, DiagnosticTarget::Search) => true,
        _ => false,
    }
    &&& match (a.snippet, b.snippet) {
        (Some(x), Some(y)) => x@ == y@,
        (None, None) => true,
        _ => false,
    }
}

fn diagnostics_equal(a: &GuiDiagnostic, b: &GuiDiagnostic) -> (r: bool)
    ensures
        r == same_diagnostic(*a, *b),
{
    if a.category != b.category || !str_equal(a.message.as_str(), b.message.as_str()) {
        return false;
    }
    let targets = match (&a.target, &b.target) {
        (DiagnosticTarget::Schema { location: la }, DiagnosticTarget::Schema { location: lb }) => match (la, lb) {
            (Some(x), Some(y)) => str_equal(x.path.as_str(), y.path.as_str()) && x.line == y.line && x.column == y.column,
            (None, None) => true,
            _ => false,
        },
        (DiagnosticTarget::Field { name: na, offset: oa, byte_len: ba, offset_valid: va },
            DiagnosticTarget::Field { name: nb, offset: ob, byte_len: bb, offset_valid: vb }) =>
            str_equal(na.as_str(), nb.as_str()) && *oa == *ob && *ba == *bb && *va == *vb,
        (DiagnosticTarget::Search, DiagnosticTarget::Search) => true,
        _ => false,
    };
    if !targets {
        return false;
    }
    match (&a.snippet, &b.snippet) {
        (Some(x), Some(y)) => str_equal(x.as_str(), y.as_str()),
        (None, None) => true,
        _ => false,
    }
}

/// Whether `new` is `old` after picking the field named `name` from the schema text, as
/// `select_field_from_schema` does.
pub open spec fn picked_from_schema(old: DocumentView, new: DocumentView, name: Seq<char>, offset: u64, byte_len: usize, offset_valid: bool) -> bool {
    &&& filters_reveal(old, new, name)
    &&& new.selected_field_name matches Some(n) && n@ == name
    &&& new.selected_field_range == if offset_valid { Some((offset, byte_len)) } else { None }
    &&& new.selected_field_scroll_pending
    &&& new.schema_match is None
    &&& !new.schema_match_scroll_pending
    &&& !offset_valid || byte_len == 0 ==> same_hex(old, new)
    &&& offset_valid && byte_len > 0 ==> scrolled(old, new, offset)
    &&& same_schema_state(old, new)
    &&& same_search(old, new)
}

/// The `name:` entry on line `line_index` of a schema text, when that line is one.
pub open spec fn entry_at_line(source: Seq<char>, line_index: nat) -> Option<(int, (Seq<char>, nat, nat))> {
    match nth_line_start(source, 0, line_index) {
        Some(st) => match name_entry(line_at(source, st)) {
            Some(e) => Some((st, e)),
            None => None,
        },
        None => None,
    }
}

/// Whether `new` is `old` with the first schema diagnostic equal to `diagnostic` marked
/// active, or none when there is no such diagnostic; nothing else changed.
pub open spec fn schema_diagnostic_activated(old: DocumentView, new: DocumentView, diagnostic: GuiDiagnostic) -> bool {
    &&& match new.active_schema_diagnostic {
        Some(i) => i < old.schema_diagnostics@.len()
            && same_diagnostic(old.schema_diagnostics@[i as int], diagnostic)
            && forall|j: int| 0 <= j < i ==> !same_diagnostic(#[trigger] old.schema_diagnostics@[j], diagnostic),
        None => forall|j: int| 0 <= j < old.schema_diagnostics@.len()
            ==> !same_diagnostic(#[trigger] old.schema_diagnostics@[j], diagnostic),
    }
    &&& new == DocumentView { active_schema_diagnostic: new.active_schema_diagnostic, ..old }
}

impl DocumentView {
    /// Marks the schema diagnostic equal to `diagnostic` as the active one, or none when
    /// there is no such diagnostic.
    pub fn activate_schema_diagnostic(&mut self, diagnostic: &GuiDiagnostic)
        ensures
            schema_diagnostic_activated(*old(self), *final(self), *diagnostic),

    {
        let mut i: usize = 0;
        while i < self.schema_diagnostics.len()
            invariant
                *self == *old(self),
                i <= self.schema_diagnostics.len(),
                forall|j: int| 0 <= j < i ==> !same_diagnostic(#[trigger] self.schema_diagnostics@[j], *diagnostic),
            decreases self.schema_diagnostics.len() - i,
        {
            if diagnostics_equal(&self.schema_diagnostics[i], diagnostic) {
                self.active_schema_diagnostic = Some(i);
                return;
            }
            i += 1;
        }
        self.active_schema_diagnostic = None;
    }

    /// Reacts to the editor's cursor resting on line `line_index` of the schema text: when
    /// the line is a `name:` entry for a row of the interpretation, highlights the name and
    /// selects that row; otherwise clears the highlight and stops any pending scroll.
    pub fn activate_schema_editor_cursor_line(&mut self, line_index: usize)
        ensures
            cursor_line_activated(*old(self), *final(self), line_index),

    {
        let entry = match schema_field_name_match_at_line(self.schema_editor_text.as_str(), line_index) {
            Some(e) => e,
            None => {
                self.clear_schema_cursor_name_highlight();
                self.selected_field_scroll_pending = false;
                return;
            },
        };
        let field = match &self.field_evaluations {
            Some(evs) => find_best_field_for_schema_name(evs.as_slice(), entry.name.as_str()),
            None => {
                self.clear_schema_cursor_name_highlight();
                self.selected_field_scroll_pending = false;
                return;
            },
        };
        match field {
            Some(field) => {
                self.schema_cursor_name_highlight = Some(entry.highlight);
                self.select_field_from_schema(field);
            },
            None => {
                self.clear_schema_cursor_name_highlight();
                self.selected_field_scroll_pending = false;
            },
        }
    }

    /// Takes `schema` as the document's schema: interprets it over `buffer`, and clears the
    /// editor's error state, the schema diagnostics, the last error and the selection.
    pub fn commit_schema<B: FileBuffer + ?Sized>(&mut self, buffer: &B, schema: Schema)
        ensures
            committed(*old(self), *final(self), buffer.contents(), schema),
    {
        let evaluations = interpret_schema(buffer, &schema);
        self.schema = Some(schema);
        self.field_evaluations = Some(evaluations);
        self.schema_editor_dirty = false;
        self.schema_editor_error = None;
        self.clear_schema_cursor_name_highlight();
        self.schema_editor_cursor_char_index = None;
        self.clear_schema_diagnostics();
        self.last_error = None;
        self.last_error_is_offset = false;
        self.clear_selected_field();
    }

    /// The diagnostics panel's list for this document.
    pub fn diagnostics(&self) -> (r: Vec<GuiDiagnostic>)
        ensures
            ({
                let a = self.schema_diagnostics@.len();
                let failed = match self.field_evaluations { Some(v) => failed_rows(v@), None => Seq::empty() };
                &&& r@.len() == a + failed.len() + if self.search_error is Some { 1int } else { 0int }
                &&& forall|i: int| 0 <= i < a ==> #[trigger] r@[i] == self.schema_diagnostics@[i]
                &&& forall|i: int| 0 <= i < failed.len() ==> row_diagnostic(#[trigger] r@[a + i], failed[i])
                &&& self.search_error matches Some(e) ==> r@.last().category == DiagnosticCategory::Search
                    && r@.last().message@ == e@ && r@.last().target == DiagnosticTarget::Search
                    && r@.last().snippet is None
            }),
    {
        let evaluations = match &self.field_evaluations {
            Some(v) => Some(v.as_slice()),
            None => None,
        };
        collect_diagnostics(self.schema_diagnostics.as_slice(), evaluations, self.search_error.as_ref())
    }

    /// The number of diagnostics the panel lists for this document.
    pub fn diagnostic_count(&self) -> (n: usize)
        requires
            self.schema_diagnostics@.len() + match self.field_evaluations { Some(v) => v@.len() as int, None => 0int } + 1 <= usize::MAX,
        ensures
            n == self.schema_diagnostics@.len()
                + (match self.field_evaluations { Some(v) => failed_rows(v@), None => Seq::<FieldEval>::empty() }).len()
                + if self.search_error is Some { 1int } else { 0int },
    {
        let evaluations = match &self.field_evaluations {
            Some(v) => Some(v.as_slice()),
            None => None,
        };
        diagnostic_count(self.schema_diagnostics.len(), evaluations, self.search_error.is_some())
    }
}

/// Moving to the next match and then back to the previous one returns to the match that
/// was current; so does moving back and then forward.
pub proof fn law_next_and_previous_cancel(s0: DocumentView, s1: DocumentView, s2: DocumentView, s3: DocumentView, s4: DocumentView)
    requires
        s0.current_search_match matches Some(i) && i < s0.search_matches@.len(),
        selected(s0, s1, next_index(s0.current_search_match, s0.search_matches@.len() as int)),
        selected(s1, s2, previous_index(s1.current_search_match, s1.search_matches@.len() as int)),
        selected(s0, s3, previous_index(s0.current_search_match, s0.search_matches@.len() as int)),
        selected(s3, s4, next_index(s3.current_search_match, s3.search_matches@.len() as int)),
    ensures
        s2.current_search_match == s0.current_search_match,
        s4.current_search_match == s0.current_search_match,
{
    let n = s0.search_matches@.len() as int;
    let i = s0.current_search_match->Some_0 as int;
    assert(0 <= i < n);
    let j = (i + 1) % n;
    if i + 1 < n {
        assert(j == i + 1) by (nonlinear_arith) requires j == (i + 1) % n, 0 <= i + 1 < n;
    } else {
        assert(j == 0) by (nonlinear_arith) requires j == (i + 1) % n, i + 1 == n, n > 0;
    }
    assert(s0.search_matches.len() == n);
    assert(j % n == j) by (nonlinear_arith) requires 0 <= j < n;
    assert(s1.current_search_match == Some(j as usize));
    assert(s1.search_matches@.len() == n);
    let q = if j == 0 { n - 1 } else { j - 1 };
    assert(q == i);
    assert(i % n == i) by (nonlinear_arith) requires 0 <= i < n;
    assert(previous_index(s1.current_search_match, n) == q);
    assert(s2.current_search_match == Some((q % n) as usize));
    let p = if i == 0 { n - 1 } else { i - 1 };
    assert(p % n == p) by (nonlinear_arith) requires 0 <= p < n;
    assert(s3.current_search_match == Some(p as usize));
    assert((p + 1) % n == i) by {
        if i == 0 {
            assert(p + 1 == n);
            assert((p + 1) % n == 0) by (nonlinear_arith) requires p + 1 == n, n > 0;
        } else {
            assert(p + 1 == i);
            assert((p + 1) % n == p + 1) by (nonlinear_arith) requires 0 <= p + 1 < n;
        }
    };
    assert(s3.search_matches@.len() == n);
    assert(next_index(s3.current_search_match, n) == i);
    assert(s4.current_search_match == Some((i % n) as usize));
}

/// Selecting a match by number wraps around: the current match is the number modulo the
/// number of matches.
pub proof fn law_selection_wraps(s0: DocumentView, s1: DocumentView, index: int)
    requires
        s0.search_matches@.len() > 0,
        index >= 0,
        selected(s0, s1, index),
    ensures
        s1.current_search_match == Some((index % s0.search_matches@.len() as int) as usize),
        s1.search_matches == s0.search_matches,
{
}

/// What reading a schema file and parsing its text (its includes resolved next to it) gave.
#[derive(Debug)]
pub enum SchemaFileRead {
    /// The file could not be read; the text says why.
    Unreadable(String),
    /// The file's text, and the schema or the error that parsing it gave.
    Read { source: String, parsed: Result<Schema, SchemaError> },
}

/// The text a parse error's snippet is cut from: `source` when the error points into the
/// schema file at `path` itself, `other_file_text` when it points into another file.
pub open spec fn snippet_source(error: SchemaError, path: Seq<char>, source: Seq<char>, other_file_text: Option<Seq<char>>) -> Option<Seq<char>> {
    match error_location(error, Some(path)) {
        Some((p, _, _)) => if p == path { Some(source) } else { other_file_text },
        None => None,
    }
}

/// The view of an optional text.
pub open spec fn opt_view(s: Option<&str>) -> Option<Seq<char>> {
    match s {
        Some(x) => Some(x@),
        None => None,
    }
}

fn choose_snippet_source<'a>(error: &SchemaError, path: &str, source: &'a str, other_file_text: Option<&'a str>) -> (r: Option<&'a str>)
    ensures
        opt_view(r) == snippet_source(*error, path@, source@, opt_view(other_file_text)),
{
    match schema_error_location(error, Some(path)) {
        Some(l) => if str_equal(l.path.as_str(), path) { Some(source) } else { other_file_text },
        None => None,
    }
}

/// Whether `d` reports that the schema file at `path` could not be read, with `message`.
pub open spec fn read_failure_is(d: GuiDiagnostic, path: Seq<char>, message: Seq<char>) -> bool {
    &&& d.category == DiagnosticCategory::IncludeResolution
    &&& d.message@ == message
    &&& d.target matches DiagnosticTarget::Schema { location: Some(x) } && x.path@ == path && x.line == 1 && x.column == 1
    &&& d.snippet is None
}

/// Whether `d` reports, with `message`, that the document has no schema file to work from.
pub open spec fn no_schema_file_is(d: GuiDiagnostic, message: Seq<char>) -> bool {
    &&& d.category == DiagnosticCategory::SchemaValidation
    &&& d.message@ == message
    &&& d.target == (DiagnosticTarget::Schema { location: None })
    &&& d.snippet is None
}

/// Whether `new` is `old` showing a single schema diagnostic `d`, the schema line matched to
/// the selection and the highlighted name forgotten; the schema, its interpretation and path,
/// the search, the hex view, the selection and the row filters kept.
pub open spec fn shows_schema_problem(old: DocumentView, new: DocumentView, d: spec_fn(GuiDiagnostic) -> bool) -> bool {
    &&& new.schema_diagnostics@.len() == 1
    &&& d(new.schema_diagnostics@[0])
    &&& new.active_schema_diagnostic == Some(0usize)
    &&& new.schema_match is None
    &&& !new.schema_match_scroll_pending
    &&& new.schema_cursor_name_highlight is None
    &&& new.schema == old.schema
    &&& new.field_evaluations == old.field_evaluations
    &&& new.schema_path == old.schema_path
    &&& same_search(old, new)
    &&& same_hex(old, new)
    &&& same_selection(old, new)
    &&& same_filters(old, new)
}

/// The message for a schema file that could not be read.
pub open spec fn read_failure_message(error: Seq<char>) -> Seq<char> {
    "Failed to read schema source: "@ + error
}

/// The message for a schema text that did not parse or validate.
pub open spec fn parse_failure_message(error: SchemaError) -> Seq<char> {
    "Failed to parse or validate schema: "@ + schema_error_text(error)
}

fn read_failure_message_of(error: &str) -> (s: String)
    ensures
        s@ == read_failure_message(error@),
{
    let mut s = String::from_str("Failed to read schema source: ");
    s.append(error);
    s
}

fn parse_failure_message_of(error: &SchemaError) -> (s: String)
    ensures
        s@ == parse_failure_message(*error),
{
    let mut s = String::from_str("Failed to parse or validate schema: ");
    let text = error.to_string();
    s.append(text.as_str());
    s
}

fn read_failure_diagnostic(path: &str, message: String) -> (d: GuiDiagnostic)
    ensures
        read_failure_is(d, path@, message@),
{
    GuiDiagnostic {
        category: DiagnosticCategory::IncludeResolution,
        message,
        target: DiagnosticTarget::Schema { location: Some(SourceLocation { path: path.to_owned(), line: 1, column: 1 }) },
        snippet: None,
    }
}

fn no_schema_file_diagnostic(message: String) -> (d: GuiDiagnostic)
    ensures
        no_schema_file_is(d, message@),
{
    GuiDiagnostic {
        category: DiagnosticCategory::SchemaValidation,
        message,
        target: DiagnosticTarget::Schema { location: None },
        snippet: None,
    }
}

impl DocumentView {
    /// Takes the schema file at `path` as the document's schema, given what reading and
    /// parsing it gave. A file that could not be read, or a text that did not parse, is
    /// reported as the last error and as the one schema diagnostic, and nothing else changes;
    /// `other_file_text` is the text of the file a parse error points into when that is not
    /// this file. A parsed schema becomes the document's schema, with its path and text.
    pub fn load_schema_file<B: FileBuffer + ?Sized>(&mut self, buffer: &B, path: String, read: SchemaFileRead, other_file_text: Option<&str>)
        ensures
            match read {
                SchemaFileRead::Unreadable(e) => {
                    &&& shows_schema_problem(*old(self), *final(self), |d: GuiDiagnostic| read_failure_is(d, path@, read_failure_message(e@)))
                    &&& final(self).last_error matches Some(x) && x@ == read_failure_message(e@)
                    &&& !final(self).last_error_is_offset
                    &&& final(self).schema_editor_text == old(self).schema_editor_text
                    &&& final(self).schema_editor_dirty == old(self).schema_editor_dirty
                    &&& final(self).schema_editor_error == old(self).schema_editor_error
                    &&& final(self).schema_editor_cursor_char_index == old(self).schema_editor_cursor_char_index
                },
                SchemaFileRead::Read { source, parsed: Err(err) } => {
                    &&& shows_schema_problem(*old(self), *final(self), |d: GuiDiagnostic|
                        schema_error_diagnostic_is(d, err, Some(path@), snippet_source(err, path@, source@, opt_view(other_file_text))))
                    &&& final(self).last_error matches Some(x) && x@ == parse_failure_message(err)
                    &&& !final(self).last_error_is_offset
                    &&& final(self).schema_editor_text == old(self).schema_editor_text
                    &&& final(self).schema_editor_dirty == old(self).schema_editor_dirty
                    &&& final(self).schema_editor_error == old(self).schema_editor_error
                    &&& final(self).schema_editor_cursor_char_index == old(self).schema_editor_cursor_char_index
                },
                SchemaFileRead::Read { source, parsed: Ok(schema) } =>
                    committed(DocumentView { schema_path: Some(path), schema_editor_text: source, ..*old(self) },
                        *final(self), buffer.contents(), schema),
            },
    {
        match read {
            SchemaFileRead::Unreadable(e) => {
                let message = read_failure_message_of(e.as_str());
                self.last_error = Some(copy_string(&message));
                self.set_schema_diagnostic(read_failure_diagnostic(path.as_str(), message));
                self.last_error_is_offset = false;
            },
            SchemaFileRead::Read { source, parsed: Err(err) } => {
                self.last_error = Some(parse_failure_message_of(&err));
                let snippet_text = choose_snippet_source(&err, path.as_str(), source.as_str(), other_file_text);
                let diagnostic = schema_error_diagnostic(&err, Some(path.as_str()), snippet_text);
                self.set_schema_diagnostic(diagnostic);
                self.last_error_is_offset = false;
            },
            SchemaFileRead::Read { source, parsed: Ok(schema) } => {
                self.schema_path = Some(path);
                self.schema_editor_text = source;
                self.commit_schema(buffer, schema);
            },
        }
    }
}

/// The message for reloading a document that has no schema file.
pub open spec fn no_schema_to_reload_message() -> Seq<char> {
    "No schema loaded to reload"@
}

/// The message for applying the editor's text in a document that has no schema file.
pub open spec fn no_schema_path_message() -> Seq<char> {
    "No schema path available for Apply Schema"@
}

impl DocumentView {
    /// Reads the schema file again, given what reading and parsing it gave (`read` is given
    /// exactly when the document has a schema file). Without a schema file, the editor's
    /// error says so. A file that could not be read is reported as the editor's error, the
    /// last error and the one schema diagnostic. Otherwise its text replaces the editor's:
    /// a parsed schema is taken; a parse error is reported like an unreadable file, with
    /// the editor marked unmodified and its highlight and cursor forgotten.
    pub fn reload_schema_from_disk<B: FileBuffer + ?Sized>(&mut self, buffer: &B, read: Option<SchemaFileRead>, other_file_text: Option<&str>)
        requires
            old(self).schema_path is Some ==> read is Some,
        ensures
            match old(self).schema_path {
                None => {
                    &&& shows_schema_problem(*old(self), *final(self), |d: GuiDiagnostic| no_schema_file_is(d, no_schema_to_reload_message()))
                    &&& final(self).schema_editor_error matches Some(x) && x@ == no_schema_to_reload_message()
                    &&& final(self).last_error == old(self).last_error
                    &&& final(self).last_error_is_offset == old(self).last_error_is_offset
                    &&& final(self).schema_editor_text == old(self).schema_editor_text
                    &&& final(self).schema_editor_dirty == old(self).schema_editor_dirty
                    &&& final(self).schema_editor_cursor_char_index == old(self).schema_editor_cursor_char_index
                },
                Some(path) => match read->Some_0 {
                    SchemaFileRead::Unreadable(e) => {
                        &&& shows_schema_problem(*old(self), *final(self), |d: GuiDiagnostic| read_failure_is(d, path@, read_failure_message(e@)))
                        &&& final(self).schema_editor_error matches Some(x) && x@ == read_failure_message(e@)
                        &&& final(self).last_error matches Some(x) && x@ == read_failure_message(e@)
                        &&& !final(self).last_error_is_offset
                        &&& final(self).schema_editor_text == old(self).schema_editor_text
                        &&& final(self).schema_editor_dirty == old(self).schema_editor_dirty
                        &&& final(self).schema_editor_cursor_char_index == old(self).schema_editor_cursor_char_index
                    },
                    SchemaFileRead::Read { source, parsed: Err(err) } => {
                        &&& shows_schema_problem(*old(self), *final(self), |d: GuiDiagnostic|
                            schema_error_diagnostic_is(d, err, Some(path@), snippet_source(err, path@, source@, opt_view(other_file_text))))
                        &&& final(self).schema_editor_error matches Some(x) && x@ == parse_failure_message(err)
                        &&& final(self).last_error matches Some(x) && x@ == parse_failure_message(err)
                        &&& !final(self).last_error_is_offset
                        &&& final(self).schema_editor_text == source
                        &&& !final(self).schema_editor_dirty
                        &&& final(self).schema_editor_cursor_char_index is None
                    },
                    SchemaFileRead::Read { source, parsed: Ok(schema) } =>
                        committed(DocumentView { schema_editor_text: source, ..*old(self) }, *final(self), buffer.contents(), schema),
                },
            },
    {
        let path = match &self.schema_path {
            Some(p) => copy_string(p),
            None => {
                let message = String::from_str("No schema loaded to reload");
                self.schema_editor_error = Some(copy_string(&message));
                self.set_schema_diagnostic(no_schema_file_diagnostic(message));
                return;
            },
        };
        match read {
            Some(SchemaFileRead::Unreadable(e)) => {
                let message = read_failure_message_of(e.as_str());
                self.schema_editor_error = Some(copy_string(&message));
                self.set_schema_diagnostic(read_failure_diagnostic(path.as_str(), copy_string(&message)));
                self.last_error = Some(message);
                self.last_error_is_offset = false;
            },
            Some(SchemaFileRead::Read { source, parsed: Err(err) }) => {
                let message = parse_failure_message_of(&err);
                self.schema_editor_text = source;
                self.schema_editor_dirty = false;
                self.schema_editor_error = Some(copy_string(&message));
                self.clear_schema_cursor_name_highlight();
                self.schema_editor_cursor_char_index = None;
                let snippet_text = choose_snippet_source(&err, path.as_str(), self.schema_editor_text.as_str(), other_file_text);
                let diagnostic = schema_error_diagnostic(&err, Some(path.as_str()), snippet_text);
                self.set_schema_diagnostic(diagnostic);
                self.last_error = Some(message);
                self.last_error_is_offset = false;
            },
            Some(SchemaFileRead::Read { source, parsed: Ok(schema) }) => {
                self.schema_editor_text = source;
                self.commit_schema(buffer, schema);
            },
            None => {},
        }
    }

    /// Takes the editor's text as the schema, given what parsing it next to the schema file
    /// gave (`parsed` is given exactly when the document has a schema file). Without a
    /// schema file, the editor's error says so. A parsed schema is taken; a parse error is
    /// reported as the editor's error and the one schema diagnostic, the editor left marked
    /// modified.
    pub fn apply_schema_editor<B: FileBuffer + ?Sized>(&mut self, buffer: &B, parsed: Option<Result<Schema, SchemaError>>, other_file_text: Option<&str>)
        requires
            old(self).schema_path is Some ==> parsed is Some,
        ensures
            match old(self).schema_path {
                None => {
                    &&& shows_schema_problem(*old(self), *final(self), |d: GuiDiagnostic| no_schema_file_is(d, no_schema_path_message()))
                    &&& final(self).schema_editor_error matches Some(x) && x@ == no_schema_path_message()
                    &&& final(self).last_error == old(self).last_error
                    &&& final(self).last_error_is_offset == old(self).last_error_is_offset
                    &&& final(self).schema_editor_text == old(self).schema_editor_text
                    &&& final(self).schema_editor_dirty == old(self).schema_editor_dirty
                    &&& final(self).schema_editor_cursor_char_index == old(self).schema_editor_cursor_char_index
                },
                Some(path) => match parsed->Some_0 {
                    Err(err) => {
                        &&& shows_schema_problem(*old(self), *final(self), |d: GuiDiagnostic|
                            schema_error_diagnostic_is(d, err, Some(path@),
                                snippet_source(err, path@, old(self).schema_editor_text@, opt_view(other_file_text))))
                        &&& final(self).schema_editor_error matches Some(x) && x@ == parse_failure_message(err)
                        &&& final(self).schema_editor_dirty
                        &&& final(self).last_error == old(self).last_error
                        &&& final(self).last_error_is_offset == old(self).last_error_is_offset
                        &&& final(self).schema_editor_text == old(self).schema_editor_text
                        &&& final(self).schema_editor_cursor_char_index == old(self).schema_editor_cursor_char_index
                    },
                    Ok(schema) => committed(*old(self), *final(self), buffer.contents(), schema),
                },
            },
    {
        let path = match &self.schema_path {
            Some(p) => copy_string(p),
            None => {
                let message = String::from_str("No schema path available for Apply Schema");
                self.schema_editor_error = Some(copy_string(&message));
                self.set_schema_diagnostic(no_schema_file_diagnostic(message));
                return;
            },
        };
        match parsed {
            Some(Ok(schema)) => self.commit_schema(buffer, schema),
            Some(Err(err)) => {
                self.schema_editor_error = Some(parse_failure_message_of(&err));
                let snippet_text = choose_snippet_source(&err, path.as_str(), self.schema_editor_text.as_str(), other_file_text);
                let diagnostic = schema_error_diagnostic(&err, Some(path.as_str()), snippet_text);
                self.set_schema_diagnostic(diagnostic);
                self.schema_editor_dirty = true;
            },
            None => {},
        }
    }
}

/// A search's outcome depends only on the query, its mode, the file's size and contents:
/// two documents that run the same query over the same file end with the same results,
/// whatever results they held before.
pub proof fn law_search_forgets_earlier_results(a0: DocumentView, a1: DocumentView, b0: DocumentView, b1: DocumentView, contents: Seq<u8>, ra: Result<(), String>, rb: Result<(), String>)
    requires
        searched(a0, a1, contents, ra),
        searched(b0, b1, contents, rb),
        a0.search_query@ == b0.search_query@,
        a0.search_mode == b0.search_mode,
        a0.size == b0.size,
        !is_blank(a0.search_query@),
        ra is Ok,
    ensures
        rb is Ok,
        a1.search_matches@ == b1.search_matches@,
        a1.current_search_match == b1.current_search_match,
        a1.active_search_query@ == b1.active_search_query@,
        a1.active_search_pattern_len == b1.active_search_pattern_len,
        (a1.search_error is None) == (b1.search_error is None),
        a1.search_error matches Some(e) ==> (b1.search_error matches Some(f) && e@ == f@),
{
}

} // verus!
