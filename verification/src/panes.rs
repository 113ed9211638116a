//! What the viewer's panes decide as they are shown and used: the offset box and the page
//! buttons of the hex view, how each byte of the hex view is marked, the search buttons,
//! the field table's groups and rows, the diagnostics list, and the schema editor's cursor.
use vstd::prelude::*;
use crate::buffer::FileBuffer;
use crate::document::{
    cursor_line_activated, opt_view, query_pattern, runtime_diagnostic_activated, saturating_sub,
    schema_diagnostic_activated, search_outcome, searched, without, DocumentView, HEX_PAGE_SIZE,
};
use crate::interpret::FieldEval;
use crate::text::{
    char_is_digit, char_is_hex_digit, char_utf8_width, chars_of, decimal, hex_char_upper, hex_digit_value, hex_upper, hex_value,
    is_blank, is_digit, is_hex_digit, is_whitespace_char, lemma_utf8_len_prefix, lemma_utf8_len_prefix_step, pad_zeros, str_byte_len,
    push_char, str_equal, str_is_blank, u64_to_decimal, u64_to_hex_upper, utf8_len, zero_pad,
};
use crate::viewer::{
    category_label, clicked_field_from_eval, diagnostic_target_suffix, failed_rows, line_count_from, trimmed_end_len, ws_run,
    line_index_for_char_index, line_table, newline_count, saturating_add, target_suffix, texts, trimmed,
    trimmed_string, ClickedField, DiagnosticTarget, FieldTableChild, FieldTableItem, GuiDiagnostic,
};

verus! {

/// Whether `c` is a digit in base `radix` (16 or 10).
pub open spec fn radix_digit(c: char, radix: nat) -> bool {
    if radix == 16 { is_hex_digit(c) } else { is_digit(c) }
}

/// The number `digits` writes in base `radix`, when every character is a digit of that base.
pub open spec fn digits_value(digits: Seq<char>, radix: nat) -> Option<nat>
    decreases digits.len(),
{
    if digits.len() == 0 {
        Some(0)
    } else if !radix_digit(digits.last(), radix) {
        None
    } else {
        match digits_value(digits.drop_last(), radix) {
            Some(v) => Some(v * radix + hex_value(digits.last())),
            None => None,
        }
    }
}

/// The unsigned 64-bit number written in `s` in base `radix`: an optional `+` and at least
/// one digit, with a value that fits.
pub open spec fn number_value(s: Seq<char>, radix: nat) -> Option<u64> {
    let digits = if s.len() > 0 && s[0] == '+' { s.drop_first() } else { s };
    if digits.len() == 0 {
        None
    } else {
        match digits_value(digits, radix) {
            Some(v) => if v <= u64::MAX { Some(v as u64) } else { None },
            None => None,
        }
    }
}

/// The offset typed in the offset box: its text without surrounding whitespace, read as hex
/// after `0x` or `0X` and as decimal otherwise.
pub open spec fn offset_input_value(input: Seq<char>) -> Option<u64> {
    let t = trimmed(input);
    if t.len() >= 2 && t[0] == '0' && (t[1] == 'x' || t[1] == 'X') {
        number_value(t.skip(2), 16)
    } else {
        number_value(t, 10)
    }
}

/// A prefix of a number that has a value has a value no larger.
proof fn lemma_digits_value_prefix(s: Seq<char>, radix: nat, i: int, j: int)
    requires
        0 <= i <= j <= s.len(),
        radix == 10 || radix == 16,
        digits_value(s.take(j), radix) is Some,
    ensures
        digits_value(s.take(i), radix) matches Some(v) && v <= digits_value(s.take(j), radix)->Some_0,
    decreases j - i,
{
    if i < j {
        let t = s.take(j);
        assert(t.drop_last() =~= s.take(j - 1));
        let v = digits_value(s.take(j - 1), radix)->Some_0;
        assert(v * radix + hex_value(t.last()) >= v) by (nonlinear_arith)
            requires radix >= 10, v >= 0, hex_value(t.last()) >= 0;
        lemma_digits_value_prefix(s, radix, i, j - 1);
    }
}

/// Reads the digits of `chars[from..]` in base `radix`, as `number_value` does after the sign.
fn digits_u64(chars: &Vec<char>, from: usize, radix: u64) -> (r: Option<u64>)
    requires
        from <= chars.len(),
        radix == 10 || radix == 16,
    ensures
        match digits_value(chars@.skip(from as int), radix as nat) {
            Some(v) => if v <= u64::MAX { r == Some(v as u64) } else { r is None },
            None => r is None,
        },
{
    let ghost d = chars@.skip(from as int);
    let mut value: u64 = 0;
    let mut i: usize = from;
    assert(d.take(0) =~= Seq::<char>::empty());
    while i < chars.len()
        invariant
            from <= i <= chars.len(),
            radix == 10 || radix == 16,
            d == chars@.skip(from as int),
            digits_value(d.take(i - from), radix as nat) == Some(value as nat),
        decreases chars.len() - i,
    {
        let c = chars[i];
        let ghost k: int = i - from;
        assert(d.take(k + 1).drop_last() =~= d.take(k));
        assert(d.take(k + 1).last() == c);
        let ok = if radix == 16 { char_is_hex_digit(c) } else { char_is_digit(c) };
        if !ok {
            proof {
                if digits_value(d, radix as nat) is Some {
                    assert(d.take(d.len() as int) =~= d);
                    lemma_digits_value_prefix(d, radix as nat, k + 1, d.len() as int);
                }
            }
            return None;
        }
        let digit = hex_digit_value(c) as u64;
        let limit: u64 = (u64::MAX - digit) / radix;
        if value > limit {
            proof {
                assert(value * radix + digit > u64::MAX) by (nonlinear_arith)
                    requires value > limit, limit == (u64::MAX - digit) as int / radix as int, radix > 0, digit <= u64::MAX;
                assert(d.take(d.len() as int) =~= d);
                if digits_value(d, radix as nat) is Some {
                    lemma_digits_value_prefix(d, radix as nat, k + 1, d.len() as int);
                }
            }
            return None;
        }
        proof {
            assert(value * radix + digit <= u64::MAX) by (nonlinear_arith)
                requires value <= limit, limit == (u64::MAX - digit) as int / radix as int, radix > 0, digit <= u64::MAX;
        }
        value = value * radix + digit;
        i += 1;
    }
    assert(d.take(i - from) =~= d);
    Some(value)
}

/// Reads a number as `number_value` describes, from `chars[from..]`.
fn number_u64(chars: &Vec<char>, from: usize, radix: u64) -> (r: Option<u64>)
    requires
        from <= chars.len(),
        radix == 10 || radix == 16,
    ensures
        r == number_value(chars@.skip(from as int), radix as nat),
{
    let ghost s = chars@.skip(from as int);
    if from < chars.len() && chars[from] == '+' {
        assert(s.drop_first() =~= chars@.skip(from + 1));
        if from + 1 == chars.len() {
            return None;
        }
        digits_u64(chars, from + 1, radix)
    } else {
        if from == chars.len() {
            return None;
        }
        digits_u64(chars, from, radix)
    }
}

/// Reads the offset typed in the offset box, as `offset_input_value` describes.
pub fn parse_offset_input(input: &str) -> (r: Option<u64>)
    ensures
        r == offset_input_value(input@),
{
    let t = trimmed_string(input);
    let chars = chars_of(t.as_str());
    assert(chars@.skip(0) =~= chars@);
    if chars.len() >= 2 && chars[0] == '0' && (chars[1] == 'x' || chars[1] == 'X') {
        number_u64(&chars, 2, 16)
    } else {
        number_u64(&chars, 0, 10)
    }
}

/// Whether `new`'s last error is `old`'s with an error from the offset box forgotten.
pub open spec fn offset_error_cleared(old: DocumentView, new: DocumentView) -> bool {
    &&& old.last_error_is_offset ==> new.last_error is None
    &&& !old.last_error_is_offset ==> new.last_error == old.last_error
    &&& !new.last_error_is_offset
}

/// The last place the hex view can start: one page before the end of the file.
pub open spec fn last_page_start(size: u64) -> u64 {
    saturating_sub(size, HEX_PAGE_SIZE)
}

/// Whether `new` is `old` with the hex view starting at `start`, the offset box showing it,
/// and an error from the offset box forgotten; nothing else changed.
pub open spec fn moved_to(old: DocumentView, new: DocumentView, start: u64) -> bool {
    &&& new.hex_start_offset == start
    &&& new.hex_offset_input@ == "0x"@ + hex_upper(start as nat)
    &&& offset_error_cleared(old, new)
    &&& new == DocumentView {
        hex_start_offset: new.hex_start_offset,
        hex_offset_input: new.hex_offset_input,
        last_error: new.last_error,
        last_error_is_offset: new.last_error_is_offset,
        ..old
    }
}

/// The message for an offset box that does not hold a number.
pub open spec fn invalid_offset_message(input: Seq<char>) -> Seq<char> {
    "Invalid offset: "@ + trimmed(input)
}

/// What a search of `s`'s query over a file holding `contents` fails with, when reading
/// the file fails.
pub open spec fn search_read_error(s: DocumentView, contents: Seq<u8>) -> Option<Seq<char>> {
    if is_blank(s.search_query@) {
        None
    } else {
        match query_pattern(s.search_query@, s.search_mode) {
            Err(_) => None,
            Ok(p) => match search_outcome(contents, s.size, p) {
                Err(e) => Some(e),
                Ok(_) => None,
            },
        }
    }
}

/// Whether `new` is `old` with the group `name` toggled, and `collapsed` says how it is now:
/// a collapsed group is taken out of the collapsed list, an expanded one added at its end.
pub open spec fn toggled(old: DocumentView, new: DocumentView, name: Seq<char>, collapsed: bool) -> bool {
    let before = texts(old.collapsed_field_groups@);
    &&& before.contains(name) ==> !collapsed && texts(new.collapsed_field_groups@) == without(before, name)
    &&& !before.contains(name) ==> collapsed && texts(new.collapsed_field_groups@) == before.push(name)
    &&& new == DocumentView { collapsed_field_groups: new.collapsed_field_groups, ..old }
}

impl DocumentView {
    fn clear_offset_error(&mut self)
        ensures
            offset_error_cleared(*old(self), *final(self)),
            *final(self) == (DocumentView {
                last_error: final(self).last_error,
                last_error_is_offset: final(self).last_error_is_offset,
                ..*old(self)
            }),
    {
        if self.last_error_is_offset {
            self.last_error = None;
            self.last_error_is_offset = false;
        }
    }

    fn move_view_to(&mut self, start: u64)
        ensures
            moved_to(*old(self), *final(self), start),
    {
        self.hex_start_offset = start;
        let mut input = String::from_str("0x");
        let digits = u64_to_hex_upper(start);
        input.append(digits.as_str());
        self.hex_offset_input = input;
        self.clear_offset_error();
    }

    /// The offset box's "Go": moves the hex view to the typed offset, at most the last page
    /// start, or reports the text as an invalid offset.
    pub fn go_to_offset_input(&mut self)
        ensures
            match offset_input_value(old(self).hex_offset_input@) {
                Some(v) => moved_to(*old(self), *final(self),
                    if v <= last_page_start(old(self).size) { v } else { last_page_start(old(self).size) }),
                None => {
                    &&& final(self).last_error matches Some(e) && e@ == invalid_offset_message(old(self).hex_offset_input@)
                    &&& final(self).last_error_is_offset
                    &&& *final(self) == (DocumentView {
                        last_error: final(self).last_error,
                        last_error_is_offset: true,
                        ..*old(self)
                    })
                },
            },
    {
        match parse_offset_input(self.hex_offset_input.as_str()) {
            Some(offset) => {
                let max_start = self.size.saturating_sub(HEX_PAGE_SIZE);
                let clamped = if offset <= max_start { offset } else { max_start };
                self.move_view_to(clamped);
            },
            None => {
                let mut message = String::from_str("Invalid offset: ");
                let t = trimmed_string(self.hex_offset_input.as_str());
                message.append(t.as_str());
                self.last_error = Some(message);
                self.last_error_is_offset = true;
            },
        }
    }

    /// Whether the hex view can move back a page.
    pub fn can_page_back(&self) -> (r: bool)
        ensures
            r == (self.hex_start_offset > 0),
    {
        self.hex_start_offset > 0
    }

    /// Whether the hex view can move forward a page.
    pub fn can_page_forward(&self) -> (r: bool)
        ensures
            r == (self.hex_start_offset < last_page_start(self.size)),
    {
        self.hex_start_offset < self.size.saturating_sub(HEX_PAGE_SIZE)
    }

    /// Moves the hex view back a page, stopping at the start of the file.
    pub fn previous_hex_page(&mut self)
        ensures
            moved_to(*old(self), *final(self), saturating_sub(old(self).hex_start_offset, HEX_PAGE_SIZE)),
    {
        let start = self.hex_start_offset.saturating_sub(HEX_PAGE_SIZE);
        self.move_view_to(start);
    }

    /// Moves the hex view forward a page, stopping at the last page start.
    pub fn next_hex_page(&mut self)
        ensures
            ({
                let next = saturating_add(old(self).hex_start_offset, HEX_PAGE_SIZE as nat);
                let last = last_page_start(old(self).size);
                moved_to(*old(self), *final(self), if next <= last { next } else { last })
            }),
    {
        let next = self.hex_start_offset.saturating_add(HEX_PAGE_SIZE);
        let last = self.size.saturating_sub(HEX_PAGE_SIZE);
        self.move_view_to(if next <= last { next } else { last });
    }

    /// Forgets the last error.
    pub fn dismiss_last_error(&mut self)
        ensures
            *final(self) == (DocumentView { last_error: None, last_error_is_offset: false, ..*old(self) }),
    {
        self.last_error = None;
        self.last_error_is_offset = false;
    }

    /// The search's "Find": runs the query over `buffer`. Success forgets an error from the
    /// offset box; a read error is recorded as the search's error and the last error.
    pub fn run_search<B: FileBuffer + ?Sized>(&mut self, buffer: &B)
        ensures
            match search_read_error(*old(self), buffer.contents()) {
                None => {
                    &&& searched(*old(self), DocumentView {
                        last_error: old(self).last_error,
                        last_error_is_offset: old(self).last_error_is_offset,
                        ..*final(self)
                    }, buffer.contents(), Ok(()))
                    &&& offset_error_cleared(*old(self), *final(self))
                },
                Some(e) => {
                    &&& final(self).search_error matches Some(x) && x@ == "Search failed: "@ + e
                    &&& final(self).last_error == final(self).search_error
                    &&& *final(self) == (DocumentView {
                        search_error: final(self).search_error,
                        last_error: final(self).last_error,
                        last_error_is_offset: false,
                        ..*old(self)
                    })
                },
            },
    {
        match self.find_search_matches(buffer) {
            Ok(()) => self.clear_offset_error(),
            Err(err) => {
                let mut message = String::from_str("Search failed: ");
                message.append(err.as_str());
                self.search_error = Some(message.clone());
                self.last_error = Some(message);
                self.last_error_is_offset = false;
            },
        }
    }

    /// Whether there is a search to clear: a query typed or run, matches, or an error.
    pub fn has_search_state(&self) -> (r: bool)
        ensures
            r == (self.search_query@.len() > 0 || self.active_search_query@.len() > 0
                || self.search_matches@.len() > 0 || self.search_error is Some),
    {
        !self.search_query.as_str().is_empty() || !self.active_search_query.as_str().is_empty()
            || !self.search_matches.is_empty() || self.search_error.is_some()
    }

    /// Collapses the group `name` of the field table when it is expanded and expands it
    /// otherwise; returns whether it is now collapsed.
    pub fn toggle_field_group(&mut self, name: &str) -> (collapsed: bool)
        ensures
            toggled(*old(self), *final(self), name@, collapsed),
    {
        let ghost names = texts(self.collapsed_field_groups@);
        let mut i: usize = 0;
        while i < self.collapsed_field_groups.len()
            invariant
                *self == *old(self),
                i <= self.collapsed_field_groups.len(),
                names == texts(self.collapsed_field_groups@),
                forall|j: int| 0 <= j < i ==> names[j] != name@,
            decreases self.collapsed_field_groups.len() - i,
        {
            if str_equal(self.collapsed_field_groups[i].as_str(), name) {
                assert(names[i as int] == name@);
                assert(names.contains(name@));
                self.expand_field_group(name);
                return false;
            }
            i += 1;
        }
        assert(!names.contains(name@));
        let ghost before = self.collapsed_field_groups@;
        self.collapsed_field_groups.push(name.to_owned());
        assert(texts(self.collapsed_field_groups@) =~= texts(before).push(name@));
        true
    }

    /// Goes to what a clicked diagnostic points at: a field's row, or a schema diagnostic
    /// made active; a search diagnostic points nowhere.
    pub fn activate_diagnostic(&mut self, diagnostic: &GuiDiagnostic)
        ensures
            match diagnostic.target {
                DiagnosticTarget::Field { name, offset, byte_len, offset_valid } =>
                    runtime_diagnostic_activated(*old(self), *final(self), name@, offset, byte_len, offset_valid),
                DiagnosticTarget::Schema { .. } => schema_diagnostic_activated(*old(self), *final(self), *diagnostic),
                DiagnosticTarget::Search => *final(self) == *old(self),
            },
    {
        match &diagnostic.target {
            DiagnosticTarget::Field { name, offset, byte_len, offset_valid } =>
                self.activate_runtime_diagnostic(name.as_str(), *offset, *byte_len, *offset_valid),
            DiagnosticTarget::Schema { .. } => self.activate_schema_diagnostic(diagnostic),
            DiagnosticTarget::Search => {},
        }
    }
}

/// The number of bytes the hex view shows from `start`: a page, or what is left of the file.
pub open spec fn page_len(size: u64, start: u64) -> u64 {
    let left = saturating_sub(size, start);
    if left < HEX_PAGE_SIZE { left } else { HEX_PAGE_SIZE }
}

/// Counts the bytes the hex view shows from `start`.
pub fn hex_page_len(size: u64, start: u64) -> (n: usize)
    ensures
        n as u64 == page_len(size, start),
{
    let left = size.saturating_sub(start);
    if left < HEX_PAGE_SIZE { left as usize } else { HEX_PAGE_SIZE as usize }
}

/// The part of a selection of `byte_len` bytes at `start` that lies among the visible bytes
/// `visible_start..visible_end`, as a start and an end, when there is one.
pub open spec fn visible_selection(selected: Option<(u64, usize)>, visible_start: u64, visible_end: u64) -> Option<(u64, u64)> {
    match selected {
        Some((start, byte_len)) => if byte_len == 0 {
            None
        } else {
            let end = saturating_add(start, byte_len as nat);
            let a = if start >= visible_start { start } else { visible_start };
            let b = if end <= visible_end { end } else { visible_end };
            if a < b { Some((a, b)) } else { None }
        },
        None => None,
    }
}

/// Cuts the selected byte range to the visible bytes.
pub fn selected_visible_range(selected: Option<(u64, usize)>, visible_start: u64, visible_end: u64) -> (r: Option<(u64, u64)>)
    ensures
        r == visible_selection(selected, visible_start, visible_end),
{
    match selected {
        Some((start, byte_len)) => {
            if byte_len == 0 {
                return None;
            }
            let end = start.saturating_add(byte_len as u64);
            let a = if start >= visible_start { start } else { visible_start };
            let b = if end <= visible_end { end } else { visible_end };
            if a < b { Some((a, b)) } else { None }
        },
        None => None,
    }
}

/// How a byte of the hex view is marked.
#[derive(Debug, Clone, Copy, PartialEq, Eq, Structural)]
pub enum ByteMark {
    /// Inside the current search match.
    ActiveMatch,
    /// Inside the selected field.
    Selected,
    /// Inside another search match.
    Match,
    /// Not marked.
    Plain,
}

/// Whether `offset` lies in one of `ranges` (start, end, is current) whose current flag is
/// `active`.
pub open spec fn in_ranges(ranges: Seq<(u64, u64, bool)>, offset: u64, active: bool) -> bool {
    exists|k: int| 0 <= k < ranges.len() && (#[trigger] ranges[k]).2 == active && ranges[k].0 <= offset < ranges[k].1
}

/// The mark of the byte at `offset`: the current match comes first, then the selection,
/// then the other matches.
pub open spec fn mark_of(offset: u64, selected: Option<(u64, u64)>, ranges: Seq<(u64, u64, bool)>) -> ByteMark {
    if in_ranges(ranges, offset, true) {
        ByteMark::ActiveMatch
    } else if (match selected { Some((a, b)) => a <= offset < b, None => false }) {
        ByteMark::Selected
    } else if in_ranges(ranges, offset, false) {
        ByteMark::Match
    } else {
        ByteMark::Plain
    }
}

/// Marks the byte at `offset`, given the visible selection and the visible search ranges.
pub fn byte_mark(offset: u64, selected: Option<(u64, u64)>, ranges: &[(u64, u64, bool)]) -> (m: ByteMark)
    ensures
        m == mark_of(offset, selected, ranges@),
{
    let mut in_active = false;
    let mut in_other = false;
    let mut k: usize = 0;
    while k < ranges.len()
        invariant
            k <= ranges@.len(),
            in_active == exists|j: int| 0 <= j < k && (#[trigger] ranges@[j]).2 && ranges@[j].0 <= offset < ranges@[j].1,
            in_other == exists|j: int| 0 <= j < k && !(#[trigger] ranges@[j]).2 && ranges@[j].0 <= offset < ranges@[j].1,
        decreases ranges@.len() - k,
    {
        let (start, end, active) = ranges[k];
        if start <= offset && offset < end {
            if active { in_active = true; } else { in_other = true; }
        }
        k += 1;
    }
    assert(in_active == in_ranges(ranges@, offset, true));
    assert(in_other == in_ranges(ranges@, offset, false));
    if in_active {
        return ByteMark::ActiveMatch;
    }
    let is_selected = match selected {
        Some((a, b)) => a <= offset && offset < b,
        None => false,
    };
    if is_selected {
        ByteMark::Selected
    } else if in_other {
        ByteMark::Match
    } else {
        ByteMark::Plain
    }
}

/// The label at the start of a hex row: its offset in at least eight hex digits, and a colon.
pub fn hex_row_label(offset: u64) -> (s: String)
    ensures
        s@ == zero_pad(hex_upper(offset as nat), 8) + ":"@,
{
    let mut s = pad_zeros(u64_to_hex_upper(offset), 8);
    s.append(":");
    s
}

/// Whether a row of the field table shows as selected: its bytes are the selected range, or
/// its name is the selected name.
pub open spec fn row_selected(eval: FieldEval, selected_name: Option<Seq<char>>, selected_range: Option<(u64, usize)>) -> bool {
    ||| selected_range == Some((eval.resolved_offset, eval.byte_len))
    ||| selected_name == Some(eval.display_name@)
}

/// Tells whether a row of the field table shows as selected.
pub fn row_is_selected(eval: &FieldEval, selected_name: Option<&str>, selected_range: Option<(u64, usize)>) -> (r: bool)
    ensures
        r == row_selected(*eval, opt_view(selected_name), selected_range),
{
    let by_range = match selected_range {
        Some((offset, len)) => offset == eval.resolved_offset && len == eval.byte_len,
        None => false,
    };
    let by_name = match selected_name {
        Some(n) => str_equal(n, eval.display_name.as_str()),
        None => false,
    };
    by_range || by_name
}

/// Whether the table scrolls to a row: a scroll to the selection is pending and the row is
/// selected by name.
pub fn row_scrolls_into_view(eval: &FieldEval, selected_name: Option<&str>, scroll_pending: bool) -> (r: bool)
    ensures
        r == (scroll_pending && opt_view(selected_name) == Some(eval.display_name@)),
{
    scroll_pending && match selected_name {
        Some(n) => str_equal(n, eval.display_name.as_str()),
        None => false,
    }
}

/// The field picked by clicking a row of the table: only a row whose offset was resolved
/// can be picked.
pub fn clicked_row(eval: &FieldEval) -> (r: Option<ClickedField>)
    ensures
        eval.offset_valid ==> (r matches Some(c) && c.display_name@ == eval.display_name@
            && c.schema_field_name@ == eval.field.name@ && c.offset == eval.resolved_offset
            && c.byte_len == eval.byte_len && c.offset_valid),
        !eval.offset_valid ==> r is None,
{
    if eval.offset_valid { Some(clicked_field_from_eval(eval)) } else { None }
}

/// The label of a group row of the field table, with an arrow that shows whether the group
/// is collapsed.
pub fn group_row_label(name: &str, collapsed: bool) -> (s: String)
    ensures
        s@ == (if collapsed { "▶ "@ } else { "▼ "@ }) + name@,
{
    let mut s = if collapsed { String::from_str("▶ ") } else { String::from_str("▼ ") };
    s.append(name);
    s
}

/// The line of the diagnostics list for `d`: its category, its message and what it points at.
pub fn diagnostic_line(d: &GuiDiagnostic) -> (s: String)
    ensures
        s@ == category_label(d.category) + " - "@ + d.message@ + target_suffix(d.target),
{
    let mut s = String::from_str(d.category.label());
    s.append(" - ");
    s.append(d.message.as_str());
    let suffix = diagnostic_target_suffix(d);
    s.append(suffix.as_str());
    s
}

/// Whether byte `b` of `s`'s UTF-8 form is where a character starts or the end of the text.
pub open spec fn char_boundary(s: Seq<char>, b: nat) -> bool {
    exists|k: int| 0 <= k <= s.len() && utf8_len(s.take(k)) == b
}

fn is_char_boundary(chars: &Vec<char>, b: usize) -> (r: bool)
    requires
        utf8_len(chars@) <= usize::MAX,
    ensures
        r == char_boundary(chars@, b as nat),
{
    let mut bytes: usize = 0;
    let mut k: usize = 0;
    assert(chars@.take(0) =~= Seq::<char>::empty());
    while k < chars.len()
        invariant
            k <= chars@.len(),
            utf8_len(chars@) <= usize::MAX,
            bytes as nat == utf8_len(chars@.take(k as int)),
            forall|j: int| 0 <= j < k ==> utf8_len(#[trigger] chars@.take(j)) != b,
        decreases chars@.len() - k,
    {
        if bytes == b {
            return true;
        }
        proof {
            lemma_utf8_len_prefix_step(chars@, k as int);
            lemma_utf8_len_prefix(chars@, k as int + 1);
            assert(chars@.subrange(0, k as int) == chars@.take(k as int));
            assert(chars@.subrange(0, k + 1) == chars@.take(k + 1));
        }
        let w = char_utf8_width(chars[k]);
        bytes = bytes + w;
        k += 1;
    }
    bytes == b
}

/// The highlighted byte range of the editor's text, when it is a range of whole characters
/// within the text.
pub fn highlight_split(text: &str, range: Option<(usize, usize)>) -> (r: Option<(usize, usize)>)
    ensures
        r == match range {
            Some((a, b)) => if a <= b && b <= utf8_len(text@) && char_boundary(text@, a as nat) && char_boundary(text@, b as nat) {
                range
            } else {
                None
            },
            None => None,
        },
{
    match range {
        Some((a, b)) => {
            let len = str_byte_len(text);
            if a > b || b > len {
                return None;
            }
            let chars = chars_of(text);
            if is_char_boundary(&chars, a) && is_char_boundary(&chars, b) { range } else { None }
        },
        None => None,
    }
}

/// The rows the schema editor asks for: one per line of its text, and at least four.
pub fn schema_editor_rows(text: &str) -> (n: usize)
    ensures
        n == if line_count_from(text@, 0) < 4 { 4 } else { line_count_from(text@, 0) },
{
    let chars = chars_of(text);
    let lines = line_table(&chars);
    if lines.len() < 4 { 4 } else { lines.len() }
}

impl DocumentView {
    /// Whether the editor's text can be applied: there is a schema file, and the text is not
    /// blank.
    pub fn can_apply_schema(&self) -> (r: bool)
        ensures
            r == (self.schema_path is Some && !is_blank(self.schema_editor_text@)),
    {
        self.schema_path.is_some() && !str_is_blank(self.schema_editor_text.as_str())
    }

    /// The editor's text was edited: it is marked modified, the matched schema line and the
    /// highlighted name are forgotten, and no scroll to the selected row is pending.
    pub fn schema_editor_changed(&mut self)
        ensures
            *final(self) == (DocumentView {
                schema_editor_dirty: true,
                schema_match: None,
                schema_match_scroll_pending: false,
                schema_cursor_name_highlight: None,
                selected_field_scroll_pending: false,
                ..*old(self)
            }),
    {
        self.schema_editor_dirty = true;
        self.clear_schema_match();
        self.clear_schema_cursor_name_highlight();
        self.selected_field_scroll_pending = false;
    }

    /// What the schema editor reports after a frame: the cursor's character index, and
    /// whether the text changed, the editor was clicked, and it has the focus. The cursor is
    /// remembered; an edit is handled as such; otherwise a click, or a cursor moved in the
    /// focused editor, goes to the line the cursor is on.
    pub fn schema_editor_cursor_event(&mut self, cursor: Option<usize>, changed: bool, clicked: bool, has_focus: bool)
        ensures
            ({
                let moved = match (old(self).schema_editor_cursor_char_index, cursor) {
                    (Some(p), Some(c)) => p != c,
                    _ => false,
                };
                let mid = DocumentView { schema_editor_cursor_char_index: cursor, ..*old(self) };
                let text = old(self).schema_editor_text@;
                if changed {
                    *final(self) == (DocumentView {
                        schema_editor_dirty: true,
                        schema_match: None,
                        schema_match_scroll_pending: false,
                        schema_cursor_name_highlight: None,
                        selected_field_scroll_pending: false,
                        ..mid
                    })
                } else if (clicked || (has_focus && moved)) && cursor is Some {
                    let c = cursor->Some_0;
                    cursor_line_activated(mid, *final(self),
                        newline_count(text.take(if c <= text.len() { c as int } else { text.len() as int })) as usize)
                } else {
                    *final(self) == mid
                }
            }),
    {
        let moved = match (self.schema_editor_cursor_char_index, cursor) {
            (Some(p), Some(c)) => p != c,
            _ => false,
        };
        self.schema_editor_cursor_char_index = cursor;
        if changed {
            self.schema_editor_changed();
        } else if clicked || (has_focus && moved) {
            if let Some(c) = cursor {
                let line = line_index_for_char_index(self.schema_editor_text.as_str(), c);
                self.activate_schema_editor_cursor_line(line);
            }
        }
    }

    /// The byte range the editor highlights: the name picked with the cursor, else the
    /// schema line matched to the selection.
    pub fn editor_highlight_range(&self) -> (r: Option<(usize, usize)>)
        ensures
            r == match self.schema_cursor_name_highlight {
                Some(h) => Some((h.start_byte, h.end_byte)),
                None => match self.schema_match {
                    Some(m) => Some((m.line_start_byte, m.line_end_byte)),
                    None => None,
                },
            },
    {
        match &self.schema_cursor_name_highlight {
            Some(h) => Some((h.start_byte, h.end_byte)),
            None => match &self.schema_match {
                Some(m) => Some((m.line_start_byte, m.line_end_byte)),
                None => None,
            },
        }
    }

    /// The line above the hex view naming the selected field: its name, its offset in at
    /// least eight hex digits and its length, when a field with a byte range is selected.
    pub fn selected_field_label(&self) -> (r: Option<String>)
        ensures
            match (self.selected_field_name, self.selected_field_range) {
                (Some(name), Some((offset, len))) => r matches Some(s) && s@ == "Selected: "@ + name@ + " @ 0x"@
                    + zero_pad(hex_upper(offset as nat), 8) + " (len "@ + decimal(len as nat) + ")"@,
                _ => r is None,
            },
    {
        match (&self.selected_field_name, self.selected_field_range) {
            (Some(name), Some((offset, len))) => {
                let mut s = String::from_str("Selected: ");
                s.append(name.as_str());
                s.append(" @ 0x");
                let digits = pad_zeros(u64_to_hex_upper(offset), 8);
                s.append(digits.as_str());
                s.append(" (len ");
                let n = u64_to_decimal(len as u64);
                s.append(n.as_str());
                s.append(")");
                Some(s)
            },
            _ => None,
        }
    }

    /// The status bar's diagnostics note, when there are diagnostics.
    pub fn diagnostics_status(&self) -> (r: Option<String>)
        requires
            self.schema_diagnostics@.len() + match self.field_evaluations { Some(v) => v@.len() as int, None => 0int } + 1 <= usize::MAX,
        ensures
            ({
                let n = self.schema_diagnostics@.len()
                    + (match self.field_evaluations { Some(v) => failed_rows(v@), None => Seq::<FieldEval>::empty() }).len()
                    + if self.search_error is Some { 1int } else { 0int };
                if n > 0 {
                    r matches Some(s) && s@ == "Diagnostics: "@ + decimal(n as nat) + " errors"@
                } else {
                    r is None
                }
            }),
    {
        let n = self.diagnostic_count();
        if n == 0 {
            return None;
        }
        let mut s = String::from_str("Diagnostics: ");
        let d = u64_to_decimal(n as u64);
        s.append(d.as_str());
        s.append(" errors");
        Some(s)
    }
}

/// The rows the field table shows for `items`: a row that stands alone under its name; for a
/// group, its row (with an arrow that shows whether it is collapsed) and, unless it is among
/// `collapsed`, a row per member under its indented child name. Each row is its text and, for
/// a field's row, the field.
pub open spec fn shown_rows(items: Seq<FieldTableItem>, collapsed: Seq<Seq<char>>) -> Seq<(Seq<char>, Option<FieldEval>)>
    decreases items.len(),
{
    if items.len() == 0 {
        Seq::empty()
    } else {
        shown_rows(items.drop_last(), collapsed) + item_shown_rows(items.last(), collapsed)
    }
}

/// The rows the field table shows for one entry (see `shown_rows`).
pub open spec fn item_shown_rows(item: FieldTableItem, collapsed: Seq<Seq<char>>) -> Seq<(Seq<char>, Option<FieldEval>)> {
    match item {
        FieldTableItem::Ungrouped(eval) => seq![(eval.display_name@, Some(*eval))],
        FieldTableItem::Group { name, children } => {
            let closed = collapsed.contains(name@);
            let head = seq![((if closed { "▶ "@ } else { "▼ "@ }) + name@, None::<FieldEval>)];
            if closed {
                head
            } else {
                head + children@.map_values(|c: FieldTableChild| ("    "@ + c.name@, Some(*c.eval)))
            }
        },
    }
}

/// A row the field table shows: its text, and the field when it is a field's row.
#[derive(Debug)]
pub struct TableRow<'a> {
    pub label: String,
    pub eval: Option<&'a FieldEval>,
}

/// Whether `row` is the shown row `spec`.
pub open spec fn row_is(row: TableRow, spec: (Seq<char>, Option<FieldEval>)) -> bool {
    &&& row.label@ == spec.0
    &&& match row.eval {
        Some(e) => spec.1 == Some(*e),
        None => spec.1 is None,
    }
}

fn name_listed(names: &Vec<String>, name: &str) -> (r: bool)
    ensures
        r == texts(names@).contains(name@),
{
    let mut i: usize = 0;
    while i < names.len()
        invariant
            i <= names@.len(),
            forall|j: int| 0 <= j < i ==> texts(names@)[j] != name@,
        decreases names@.len() - i,
    {
        if str_equal(names[i].as_str(), name) {
            assert(texts(names@)[i as int] == name@);
            return true;
        }
        i += 1;
    }
    false
}

/// Lists the rows the field table shows for `items`, the groups named in `collapsed` closed.
pub fn table_rows<'a>(items: &[FieldTableItem<'a>], collapsed: &Vec<String>) -> (r: Vec<TableRow<'a>>)
    ensures
        ({
            let want = shown_rows(items@, texts(collapsed@));
            &&& r@.len() == want.len()
            &&& forall|k: int| 0 <= k < want.len() ==> row_is(#[trigger] r@[k], want[k])
        }),
{
    let ghost names = texts(collapsed@);
    let mut rows: Vec<TableRow<'a>> = Vec::new();
    let mut i: usize = 0;
    assert(items@.take(0) =~= Seq::<FieldTableItem>::empty());
    while i < items.len()
        invariant
            i <= items@.len(),
            names == texts(collapsed@),
            ({
                let want = shown_rows(items@.take(i as int), names);
                &&& rows@.len() == want.len()
                &&& forall|k: int| 0 <= k < want.len() ==> row_is(#[trigger] rows@[k], want[k])
            }),
        decreases items@.len() - i,
    {
        let ghost before = rows@;
        let ghost prefix = shown_rows(items@.take(i as int), names);
        assert(items@.take(i + 1).drop_last() =~= items@.take(i as int));
        assert(items@.take(i + 1).last() == items@[i as int]);
        let ghost extra = item_shown_rows(items@[i as int], names);
        match &items[i] {
            FieldTableItem::Ungrouped(eval) => {
                rows.push(TableRow { label: eval.display_name.clone(), eval: Some(*eval) });
                assert(rows@.len() == prefix.len() + extra.len());
                assert forall|k: int| 0 <= k < prefix.len() + extra.len() implies row_is(#[trigger] rows@[k], (prefix + extra)[k]) by {
                    if k < prefix.len() { assert(rows@[k] == before[k]); }
                }
            },
            FieldTableItem::Group { name, children } => {
                let closed = name_listed(collapsed, name.as_str());
                rows.push(TableRow { label: group_row_label(name.as_str(), closed), eval: None });
                if !closed {
                    let mut j: usize = 0;
                    while j < children.len()
                        invariant
                            j <= children@.len(),
                            rows@.len() == prefix.len() + 1 + j,
                            forall|k: int| 0 <= k < prefix.len() ==> rows@[k] == before[k],
                            row_is(rows@[prefix.len() as int], extra[0]),
                            extra == seq![("▼ "@ + name@, None::<FieldEval>)]
                                + children@.map_values(|c: FieldTableChild| ("    "@ + c.name@, Some(*c.eval))),
                            forall|m: int| 0 <= m < j ==> row_is(#[trigger] rows@[prefix.len() + 1 + m], extra[1 + m]),
                        decreases children@.len() - j,
                    {
                        let mut label = String::from_str("    ");
                        label.append(children[j].name.as_str());
                        rows.push(TableRow { label, eval: Some(children[j].eval) });
                        j += 1;
                    }
                }
                assert(rows@.len() == prefix.len() + extra.len());
                assert forall|k: int| 0 <= k < prefix.len() + extra.len() implies row_is(#[trigger] rows@[k], (prefix + extra)[k]) by {
                    if k < prefix.len() {
                        assert(rows@[k] == before[k]);
                    } else if k > prefix.len() {
                        let m = k - prefix.len() - 1;
                        assert(rows@[prefix.len() + 1 + m] == rows@[k]);
                    }
                }
            },
        }
        i += 1;
    }
    assert(items@.take(i as int) =~= items@);
    rows
}

/// The character the ASCII column of the hex view shows for a byte: printable ASCII as
/// itself, anything else as a dot.
pub open spec fn ascii_column_char(b: u8) -> char {
    if 0x20 <= b && b <= 0x7e { b as char } else { '.' }
}

/// The ASCII column of a hex row.
pub fn hex_ascii_column(row: &[u8]) -> (s: String)
    ensures
        s@ == row@.map_values(|b: u8| ascii_column_char(b)),
{
    let mut s = String::new();
    let mut i: usize = 0;
    while i < row.len()
        invariant
            i <= row@.len(),
            s@ == row@.take(i as int).map_values(|b: u8| ascii_column_char(b)),
        decreases row@.len() - i,
    {
        let b = row[i];
        let c = if 0x20 <= b && b <= 0x7e { b as char } else { '.' };
        push_char(&mut s, c);
        assert(row@.take(i + 1).map_values(|b: u8| ascii_column_char(b))
            =~= row@.take(i as int).map_values(|b: u8| ascii_column_char(b)).push(ascii_column_char(b)));
        i += 1;
    }
    assert(row@.take(i as int) =~= row@);
    s
}

/// Which groups `without` keeps: all but `name`.
proof fn lemma_without_contains(s: Seq<Seq<char>>, name: Seq<char>, g: Seq<char>)
    ensures
        without(s, name).contains(g) <==> (s.contains(g) && g != name),
    decreases s.len(),
{
    if s.len() > 0 {
        lemma_without_contains(s.drop_last(), name, g);
        let w = without(s.drop_last(), name);
        if s.drop_last().contains(g) {
            let k = choose|k: int| 0 <= k < s.drop_last().len() && s.drop_last()[k] == g;
            assert(s[k] == g);
        }
        if s.contains(g) && g != s.last() {
            let k = choose|k: int| 0 <= k < s.len() && s[k] == g;
            assert(s.drop_last()[k] == g);
        }
        if s.last() != name {
            assert(w.push(s.last())[w.len() as int] == s.last());
            if w.contains(g) {
                let k = choose|k: int| 0 <= k < w.len() && w[k] == g;
                assert(w.push(s.last())[k] == g);
            }
            if w.push(s.last()).contains(g) && g != s.last() {
                let k = choose|k: int| 0 <= k < w.len() + 1 && w.push(s.last())[k] == g;
                assert(w[k] == g);
            }
            if g == s.last() {
                assert(s[s.len() - 1] == g);
            }
        }
    }
}

/// Toggling a group twice leaves every group of the field table collapsed or expanded as
/// it was, and the rest of the document as it was.
pub proof fn law_toggle_twice_restores_groups(s0: DocumentView, s1: DocumentView, s2: DocumentView, name: Seq<char>, c1: bool, c2: bool)
    requires
        toggled(s0, s1, name, c1),
        toggled(s1, s2, name, c2),
    ensures
        c1 != c2,
        forall|g: Seq<char>| texts(s2.collapsed_field_groups@).contains(g) <==> texts(s0.collapsed_field_groups@).contains(g),
        s2 == (DocumentView { collapsed_field_groups: s2.collapsed_field_groups, ..s0 }),
{
    let t0 = texts(s0.collapsed_field_groups@);
    let t1 = texts(s1.collapsed_field_groups@);
    let t2 = texts(s2.collapsed_field_groups@);
    if t0.contains(name) {
        lemma_without_contains(t0, name, name);
        assert(!t1.contains(name));
        assert(t2 == t1.push(name));
        assert forall|g: Seq<char>| t2.contains(g) <==> t0.contains(g) by {
            lemma_without_contains(t0, name, g);
            if t1.contains(g) {
                let k = choose|k: int| 0 <= k < t1.len() && t1[k] == g;
                assert(t2[k] == g);
            }
            if t2.contains(g) && g != name {
                let k = choose|k: int| 0 <= k < t2.len() && t2[k] == g;
                assert(k < t1.len());
                assert(t1[k] == g);
            }
            if g == name {
                assert(t2[t1.len() as int] == name);
            }
        }
    } else {
        assert(t1 == t0.push(name));
        assert(t1[t0.len() as int] == name);
        assert(t1.contains(name));
        assert forall|g: Seq<char>| t2.contains(g) <==> t0.contains(g) by {
            lemma_without_contains(t1, name, g);
            if t0.contains(g) {
                let k = choose|k: int| 0 <= k < t0.len() && t0[k] == g;
                assert(t1[k] == g);
            }
            if t1.contains(g) && g != name {
                let k = choose|k: int| 0 <= k < t1.len() && t1[k] == g;
                assert(k < t0.len());
                assert(t0[k] == g);
            }
        }
    }
}

/// The upper-case hex digits of `n` read back as `n`; none of them is a sign.
proof fn lemma_hex_digits_read_back(n: nat)
    ensures
        digits_value(hex_upper(n), 16) == Some(n),
        hex_upper(n).len() > 0,
        forall|i: int| 0 <= i < hex_upper(n).len() ==> is_hex_digit(#[trigger] hex_upper(n)[i]) && hex_upper(n)[i] != '+',
    decreases n,
{
    let h = hex_upper(n);
    let d = n % 16;
    let c = hex_char_upper(d);
    assert(is_hex_digit(c) && hex_value(c) == d) by {
        if d < 10 {} else if d == 10 {} else if d == 11 {} else if d == 12 {} else if d == 13 {} else if d == 14 {} else {}
    }
    if n < 16 {
        assert(d == n);
        assert(h.drop_last() =~= Seq::<char>::empty());
        assert(digits_value(h.drop_last(), 16) == Some(0nat));
        assert(h.last() == c);
    } else {
        lemma_hex_digits_read_back(n / 16);
        assert(h.drop_last() =~= hex_upper(n / 16));
        assert(h.last() == c);
        assert((n / 16) * 16 + n % 16 == n) by (nonlinear_arith);
        assert forall|i: int| 0 <= i < h.len() implies is_hex_digit(#[trigger] h[i]) && h[i] != '+' by {
            if i < h.len() - 1 {
                assert(h[i] == hex_upper(n / 16)[i]);
            }
        }
    }
}

/// Pressing "Go" on the offset box right after the hex view moved to `start` keeps the view
/// there, when `start` is no later than the last page start.
pub proof fn law_offset_box_reads_back(s0: DocumentView, s1: DocumentView, start: u64)
    requires
        moved_to(s0, s1, start),
        start <= last_page_start(s1.size),
    ensures
        offset_input_value(s1.hex_offset_input@) == Some(start),
{
    let text = s1.hex_offset_input@;
    let h = hex_upper(start as nat);
    lemma_hex_digits_read_back(start as nat);
    assert(text == "0x"@ + h);
    reveal_strlit("0x");
    assert(text[0] == '0' && text[1] == 'x');
    assert(text.skip(2) =~= h);
    let last = text.last();
    assert(last == h[h.len() - 1]);
    assert(!is_whitespace_char(last));
    assert(ws_run(text, 0) == 0);
    assert(trimmed_end_len(text) == text.len());
    assert(trimmed(text) =~= text);
    assert(h[0] != '+');
}


/// The count line above the field table: how many rows it shows of how many there are.
pub fn fields_shown_label(visible: usize, total: usize) -> (s: String)
    ensures
        s@ == "Showing "@ + decimal(visible as nat) + " / "@ + decimal(total as nat) + " fields"@,
{
    let mut s = String::from_str("Showing ");
    let v = u64_to_decimal(visible as u64);
    s.append(v.as_str());
    s.append(" / ");
    let t = u64_to_decimal(total as u64);
    s.append(t.as_str());
    s.append(" fields");
    s
}

/// The line naming the loaded schema above the field table: its name and version, and the
/// name of its file when there is one.
pub fn schema_label(name: &str, version: u32, file_name: Option<&str>) -> (s: String)
    ensures
        s@ == "Schema: "@ + name@ + " (v"@ + decimal(version as nat) + ")"@
            + match file_name { Some(f) => " - "@ + f@, None => Seq::empty() },
{
    let mut s = String::from_str("Schema: ");
    s.append(name);
    s.append(" (v");
    let v = u64_to_decimal(version as u64);
    s.append(v.as_str());
    s.append(")");
    let ghost head = s@;
    match file_name {
        Some(f) => {
            s.append(" - ");
            s.append(f);
            assert(s@ =~= head + (" - "@ + f@));
        },
        None => {
            assert(s@ =~= head + Seq::<char>::empty());
        },
    }
    s
}

} // verus!
