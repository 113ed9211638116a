//! The logic behind the interactive viewer: matching interpreted fields to the lines of the
//! schema text that define them, grouping and filtering field rows, reading hex search
//! queries, collecting diagnostics, and the short texts shown for offsets, values and diagnostics.
use vstd::prelude::*;
use crate::ast::copy_string;
use crate::interpret::{display_for, FieldEval, FieldValue, FieldValueView};
use crate::schema_error::{schema_error_text, SchemaError, SchemaLocation};
use crate::search::{first_invalid_hex_char, hex_digits_of, hex_pairs, spec_hex_pattern};
use crate::render::{byte_hex, hex_dump, bytes_text, fitting_prefix, integer_text, lemma_fitting_prefix_step, render_bytes, render_field_value, twos_complement, MAX_DISPLAY_BYTES};
use crate::text::{signed_decimal, hex_char_upper, hex_value, is_hex_digit, char_is_digit, char_is_whitespace, char_utf8_width, chars_of, decimal, hex_upper, u64_to_decimal, u64_to_hex_upper, is_digit, is_whitespace_char, lemma_utf8_len_concat, lemma_utf8_len_prefix, prefix_bytes, push_char, str_byte_len, str_equal, string_from_chars, utf8_len};

verus! {

/// The number of consecutive ASCII digits in `s` from index `i` on.
pub open spec fn digit_run(s: Seq<char>, i: int) -> nat
    decreases s.len() - i,
{
    if 0 <= i < s.len() && is_digit(s[i]) { 1 + digit_run(s, i + 1) } else { 0 }
}

/// `s` from index `i` on, with every repeat index such as `[12]` taken out. A `[` not
/// followed by digits and a closing `]` is kept, with the digits after it.
pub open spec fn strip_from(s: Seq<char>, i: int) -> Seq<char>
    decreases s.len() - i,
{
    if i < 0 || i >= s.len() {
        Seq::empty()
    } else if s[i] == '[' {
        proof { lemma_digit_run_bound(s, i + 1); }
        let j = i + 1 + digit_run(s, i + 1);
        if j > i + 1 && j < s.len() && s[j] == ']' {
            strip_from(s, j + 1)
        } else {
            s.subrange(i, j) + strip_from(s, j)
        }
    } else {
        seq![s[i]] + strip_from(s, i + 1)
    }
}

/// A name with its repeat indexes taken out: `records[3].id` becomes `records.id`.
pub open spec fn stripped(s: Seq<char>) -> Seq<char> {
    strip_from(s, 0)
}

pub proof fn lemma_digit_run_bound(s: Seq<char>, i: int)
    requires
        0 <= i,
    ensures
        i + digit_run(s, i) <= if i <= s.len() { s.len() as int } else { i },
        forall|k: int| i <= k < i + digit_run(s, i) ==> is_digit(#[trigger] s[k]),
        i + digit_run(s, i) < s.len() ==> !is_digit(s[i + digit_run(s, i)]),
    decreases s.len() - i,
{
    if 0 <= i < s.len() && is_digit(s[i]) {
        lemma_digit_run_bound(s, i + 1);
    }
}

/// Takes repeat indexes such as `[0]` out of a field name.
pub fn strip_repeat_indexes(name: &str) -> (r: String)
    ensures
        r@ == stripped(name@),
{
    let chars = chars_of(name);
    let mut out = String::new();
    let mut index: usize = 0;
    assert(out@ + strip_from(name@, 0) =~= stripped(name@));
    while index < chars.len()
        invariant
            index <= chars.len(),
            chars@ == name@,
            out@ + strip_from(name@, index as int) == stripped(name@),
        decreases chars.len() - index,
    {
        if chars[index] == '[' {
            let index_start = index;
            index += 1;
            let digit_start = index;
            proof { lemma_digit_run_bound(name@, digit_start as int); }
            while index < chars.len() && char_is_digit(chars[index])
                invariant
                    digit_start <= index <= chars.len(),
                    chars@ == name@,
                    digit_run(name@, digit_start as int) == (index - digit_start) + digit_run(name@, index as int),
                decreases chars.len() - index,
            {
                index += 1;
            }
            assert(digit_run(name@, index as int) == 0);
            if index < chars.len() && chars[index] == ']' && index > digit_start {
                index += 1;
                continue;
            }
            let ghost out0 = out@;
            let mut k = index_start;
            while k < index
                invariant
                    index_start <= k <= index,
                    index <= chars.len(),
                    chars@ == name@,
                    out@ == out0 + name@.subrange(index_start as int, k as int),
                decreases index - k,
            {
                push_char(&mut out, chars[k]);
                k += 1;
                assert(out@ =~= out0 + name@.subrange(index_start as int, k as int));
            }
            assert(out@ + strip_from(name@, index as int) =~= out0 + strip_from(name@, index_start as int));
        } else {
            let ghost out0 = out@;
            push_char(&mut out, chars[index]);
            index += 1;
            assert(out@ + strip_from(name@, index as int) =~= out0 + strip_from(name@, index - 1));
        }
    }
    assert(out@ + strip_from(name@, index as int) =~= out@);
    out
}

/// The number of whitespace characters in `s` from index `i` on.
pub open spec fn ws_run(s: Seq<char>, i: int) -> nat
    decreases s.len() - i,
{
    if 0 <= i < s.len() && is_whitespace_char(s[i]) { 1 + ws_run(s, i + 1) } else { 0 }
}

pub proof fn lemma_ws_run_bound(s: Seq<char>, i: int)
    requires
        0 <= i,
    ensures
        i + ws_run(s, i) <= if i <= s.len() { s.len() as int } else { i },
    decreases s.len() - i,
{
    if 0 <= i < s.len() && is_whitespace_char(s[i]) {
        lemma_ws_run_bound(s, i + 1);
    }
}

/// Where the key of a YAML line starts: after the indentation and, for a list item, after
/// `-` and the whitespace that must follow it. `None` for a `-` not followed by whitespace.
pub open spec fn entry_key_start(line: Seq<char>) -> Option<int> {
    let p0 = ws_run(line, 0) as int;
    if p0 < line.len() && line[p0] == '-' {
        if p0 + 1 < line.len() && is_whitespace_char(line[p0 + 1]) {
            Some(p0 + 1 + ws_run(line, p0 + 1))
        } else {
            None
        }
    } else {
        Some(p0)
    }
}

/// The five characters `name:`.
pub open spec fn name_key() -> Seq<char> {
    seq!['n', 'a', 'm', 'e', ':']
}

/// Where the value of a `name:` entry starts in a line, when the line is one.
pub open spec fn name_value_start(line: Seq<char>) -> Option<int> {
    match entry_key_start(line) {
        Some(p) => if p + 5 <= line.len() && line.subrange(p, p + 5) == name_key() {
            Some(p + 5 + ws_run(line, p + 5))
        } else {
            None
        },
        None => None,
    }
}

/// Scanning a quoted value from index `i`: the characters up to the closing `quote` and the
/// index of that quote (the length when there is none). Inside double quotes a backslash
/// makes the next character literal.
pub open spec fn quoted_scan(v: Seq<char>, quote: char, i: int, escaped: bool) -> (Seq<char>, int)
    decreases v.len() - i,
{
    if i < 0 || i >= v.len() {
        (Seq::empty(), v.len() as int)
    } else if escaped {
        let (n, e) = quoted_scan(v, quote, i + 1, false);
        (seq![v[i]] + n, e)
    } else if quote == '"' && v[i] == '\\' {
        quoted_scan(v, quote, i + 1, true)
    } else if v[i] == quote {
        (Seq::empty(), i)
    } else {
        let (n, e) = quoted_scan(v, quote, i + 1, false);
        (seq![v[i]] + n, e)
    }
}

/// The index of the first `#` in `s`, or its length.
pub open spec fn first_hash(s: Seq<char>) -> nat
    decreases s.len(),
{
    if s.len() == 0 { 0 } else if s[0] == '#' { 0 } else { 1 + first_hash(s.drop_first()) }
}

/// The length of `s` without its trailing whitespace.
pub open spec fn trimmed_end_len(s: Seq<char>) -> nat
    decreases s.len(),
{
    if s.len() > 0 && is_whitespace_char(s.last()) { trimmed_end_len(s.drop_last()) } else { s.len() }
}

/// The name written in a `name:` value, with the character span it covers: inside quotes,
/// or, unquoted, up to a `#` comment and without trailing whitespace.
pub open spec fn value_span(v: Seq<char>) -> Option<(Seq<char>, int, int)> {
    if v.len() == 0 {
        None
    } else if v[0] == '"' || v[0] == '\'' {
        let (n, e) = quoted_scan(v, v[0], 1, false);
        Some((n, 1, e))
    } else {
        let t = trimmed_end_len(v.take(first_hash(v) as int)) as int;
        Some((v.take(t), 0, t))
    }
}

/// The entry a schema line defines, when it is a `name:` line with a non-empty name: the
/// name without repeat indexes, and the byte span of the written name in the line.
pub open spec fn name_entry(line: Seq<char>) -> Option<(Seq<char>, nat, nat)> {
    match name_value_start(line) {
        Some(q) => match value_span(line.skip(q)) {
            Some((n, a, b)) => {
                let name = stripped(n);
                if name.len() == 0 {
                    None
                } else {
                    Some((name, utf8_len(line.take(q + a)), utf8_len(line.take(q + b))))
                }
            },
            None => None,
        },
        None => None,
    }
}

/// A `name:` entry found on a schema line: the name, without repeat indexes, and the byte
/// range of the written name within the line.
#[derive(Debug, PartialEq, Eq)]
pub struct SchemaNameEntry {
    pub name: String,
    pub name_start_byte: usize,
    pub name_end_byte: usize,
}

fn ws_run_exec(chars: &Vec<char>, i: usize) -> (r: usize)
    requires
        i <= chars.len(),
    ensures
        r == i + ws_run(chars@, i as int),
        r <= chars.len(),
{
    proof { lemma_ws_run_bound(chars@, i as int); }
    let mut j = i;
    while j < chars.len() && char_is_whitespace(chars[j])
        invariant
            i <= j <= chars.len(),
            ws_run(chars@, i as int) == (j - i) + ws_run(chars@, j as int),
        decreases chars.len() - j,
    {
        j += 1;
    }
    j
}

fn quoted_scan_exec(v: &Vec<char>, quote: char) -> (r: (Vec<char>, usize))
    requires
        v.len() >= 1,
    ensures
        r.0@ == quoted_scan(v@, quote, 1, false).0,
        r.1 as int == quoted_scan(v@, quote, 1, false).1,
        r.1 <= v.len(),
{
    let mut name: Vec<char> = Vec::new();
    let mut escaped = false;
    let mut i: usize = 1;
    while i < v.len()
        invariant
            1 <= i <= v.len(),
            quoted_scan(v@, quote, 1, false).0 == name@ + quoted_scan(v@, quote, i as int, escaped).0,
            quoted_scan(v@, quote, 1, false).1 == quoted_scan(v@, quote, i as int, escaped).1,
        decreases v.len() - i,
    {
        let ch = v[i];
        if escaped {
            name.push(ch);
            escaped = false;
        } else if quote == '"' && ch == '\\' {
            escaped = true;
        } else if ch == quote {
            assert(name@ + Seq::<char>::empty() =~= name@);
            return (name, i);
        } else {
            name.push(ch);
        }
        proof {
            assert forall|s: Seq<char>, n: Seq<char>| s.push(ch) + n =~= s + (seq![ch] + n) by {}
        }
        i += 1;
    }
    assert(name@ + Seq::<char>::empty() =~= name@);
    (name, v.len())
}

fn first_hash_exec(v: &Vec<char>) -> (r: usize)
    ensures
        r as nat == first_hash(v@),
        r <= v.len(),
{
    let mut i: usize = 0;
    assert(v@.skip(0) =~= v@);
    while i < v.len()
        invariant
            i <= v.len(),
            first_hash(v@) == i + first_hash(v@.skip(i as int)),
        decreases v.len() - i,
    {
        if v[i] == '#' {
            return i;
        }
        assert(v@.skip(i as int).drop_first() =~= v@.skip(i + 1));
        i += 1;
    }
    i
}

fn trimmed_end_exec(v: &Vec<char>, k: usize) -> (r: usize)
    requires
        k <= v.len(),
    ensures
        r as nat == trimmed_end_len(v@.take(k as int)),
        r <= k,
{
    let mut j = k;
    while j > 0 && char_is_whitespace(v[j - 1])
        invariant
            j <= k <= v.len(),
            trimmed_end_len(v@.take(k as int)) == trimmed_end_len(v@.take(j as int)),
        decreases j,
    {
        assert(v@.take(j as int).drop_last() =~= v@.take(j - 1));
        j -= 1;
    }
    j
}

/// Reads the name in a `name:` value and the byte span it covers in the value.
pub fn parse_schema_name_value_span(value: &str) -> (r: Option<(String, usize, usize)>)
    ensures
        match value_span(value@) {
            Some((n, a, b)) => r matches Some((name, x, y)) && name@ == n
                && x as nat == utf8_len(value@.take(a)) && y as nat == utf8_len(value@.take(b)),
            None => r is None,
        },
{
    let v = chars_of(value);
    let total = str_byte_len(value);
    if v.len() == 0 {
        return None;
    }
    let first = v[0];
    if first == '"' || first == '\'' {
        let (name, end) = quoted_scan_exec(&v, first);
        let start_b = prefix_bytes(&v, 1);
        let end_b = prefix_bytes(&v, end);
        Some((string_from_chars(name.as_slice()), start_b, end_b))
    } else {
        let h = first_hash_exec(&v);
        let t = trimmed_end_exec(&v, h);
        let end_b = prefix_bytes(&v, t);
        let mut name: Vec<char> = Vec::new();
        let mut i: usize = 0;
        while i < t
            invariant
                i <= t,
                t <= v.len(),
                name@ == v@.take(i as int),
            decreases t - i,
        {
            name.push(v[i]);
            i += 1;
            assert(name@ =~= v@.take(i as int));
        }
        assert(v@.take(0) =~= Seq::<char>::empty());
        Some((string_from_chars(name.as_slice()), 0, end_b))
    }
}

proof fn lemma_quoted_scan_bound(v: Seq<char>, quote: char, i: int, escaped: bool)
    ensures
        quoted_scan(v, quote, i, escaped).1 <= v.len(),
        0 <= i ==> 0 <= quoted_scan(v, quote, i, escaped).1,
    decreases v.len() - i,
{
    if 0 <= i < v.len() {
        lemma_quoted_scan_bound(v, quote, i + 1, false);
        lemma_quoted_scan_bound(v, quote, i + 1, true);
    }
}

proof fn lemma_first_hash_bound(v: Seq<char>)
    ensures
        first_hash(v) <= v.len(),
    decreases v.len(),
{
    if v.len() > 0 {
        lemma_first_hash_bound(v.drop_first());
    }
}

proof fn lemma_trimmed_end_bound(v: Seq<char>)
    ensures
        trimmed_end_len(v) <= v.len(),
    decreases v.len(),
{
    if v.len() > 0 {
        lemma_trimmed_end_bound(v.drop_last());
    }
}

/// The span of a written name lies within its value.
pub proof fn lemma_value_span_bound(v: Seq<char>)
    ensures
        value_span(v) matches Some((n, a, b)) ==> 0 <= a <= v.len() && 0 <= b <= v.len(),
{
    if v.len() > 0 {
        if v[0] == '"' || v[0] == '\'' {
            lemma_quoted_scan_bound(v, v[0], 1, false);
            let (n, e) = quoted_scan(v, v[0], 1, false);
            assert(value_span(v) == Some((n, 1int, e)));
        } else {
            lemma_first_hash_bound(v);
            let fh = first_hash(v) as int;
            lemma_trimmed_end_bound(v.take(fh));
            assert(v.take(fh).len() == fh);
        }
    }
}

proof fn lemma_split_bytes(line: Seq<char>, q: int, a: int)
    requires
        0 <= q <= line.len(),
        0 <= a <= line.len() - q,
    ensures
        utf8_len(line.take(q + a)) == utf8_len(line.take(q)) + utf8_len(line.skip(q).take(a)),
        utf8_len(line.take(q + a)) <= utf8_len(line),
{
    assert(line.take(q + a) =~= line.take(q) + line.skip(q).take(a));
    lemma_utf8_len_concat(line.take(q), line.skip(q).take(a));
    lemma_utf8_len_prefix(line, q + a);
}

/// Reads a schema line as a `name:` entry (`name: x`, or `- name: x` in a list), giving the
/// name without repeat indexes and the byte range of the written name in the line.
pub fn parse_schema_name_entry(line: &str) -> (r: Option<SchemaNameEntry>)
    ensures
        match name_entry(line@) {
            Some((n, a, b)) => r matches Some(e) && e.name@ == n
                && e.name_start_byte as nat == a && e.name_end_byte as nat == b,
            None => r is None,
        },
{
    let chars = chars_of(line);
    let total = str_byte_len(line);
    let p0 = ws_run_exec(&chars, 0);
    let p = if p0 < chars.len() && chars[p0] == '-' {
        if p0 + 1 < chars.len() && char_is_whitespace(chars[p0 + 1]) {
            ws_run_exec(&chars, p0 + 1)
        } else {
            return None;
        }
    } else {
        p0
    };
    assert(entry_key_start(line@) == Some(p as int));
    if !(p < chars.len() && chars.len() - p >= 5 && chars[p] == 'n' && chars[p + 1] == 'a' && chars[p + 2] == 'm'
        && chars[p + 3] == 'e' && chars[p + 4] == ':') {
        proof {
            if p + 5 <= line@.len() && line@.subrange(p as int, p + 5) == name_key() {
                assert(line@.subrange(p as int, p + 5)[0] == 'n');
                assert(line@.subrange(p as int, p + 5)[1] == 'a');
                assert(line@.subrange(p as int, p + 5)[2] == 'm');
                assert(line@.subrange(p as int, p + 5)[3] == 'e');
                assert(line@.subrange(p as int, p + 5)[4] == ':');
            }
        }
        return None;
    }
    assert(line@.subrange(p as int, p + 5) =~= name_key());
    let q = ws_run_exec(&chars, p + 5);
    let value = line.substring_char(q, chars.len());
    assert(value@ =~= line@.skip(q as int));
    let span = parse_schema_name_value_span(value);
    let (written, a, b) = match span {
        Some(t) => t,
        None => return None,
    };
    let name = strip_repeat_indexes(written.as_str());
    if name.as_str().is_empty() {
        return None;
    }
    let ghost (n, sa, sb) = value_span(value@)->Some_0;
    proof {
        lemma_value_span_bound(value@);
        lemma_split_bytes(line@, q as int, sa);
        lemma_split_bytes(line@, q as int, sb);
    }
    let value_start = prefix_bytes(&chars, q);
    Some(SchemaNameEntry { name, name_start_byte: value_start + a, name_end_byte: value_start + b })
}

/// The byte span of an entry's name lies within its line.
pub proof fn lemma_name_entry_bound(line: Seq<char>)
    ensures
        name_entry(line) matches Some((n, a, b)) ==> a <= b <= utf8_len(line),
{
    if let Some(p) = entry_key_start(line) {
        let p0 = ws_run(line, 0) as int;
        lemma_ws_run_bound(line, 0);
        if p0 < line.len() && line[p0] == '-' && p0 + 1 < line.len() {
            lemma_ws_run_bound(line, p0 + 1);
        }
        if p + 5 <= line.len() {
            lemma_ws_run_bound(line, p + 5);
            let q = p + 5 + ws_run(line, p + 5);
            if q <= line.len() {
                let v = line.skip(q);
                lemma_value_span_bound(v);
                if let Some((n, a, b)) = value_span(v) {
                    lemma_split_bytes(line, q, a);
                    lemma_split_bytes(line, q, b);
                    assert(a <= b) by {
                        if v[0] == '"' || v[0] == '\'' {
                            lemma_quoted_scan_bound(v, v[0], 1, false);
                            lemma_quoted_scan_ge(v, v[0], 1, false);
                        }
                    };
                    lemma_utf8_len_prefix(line.take(q + b), q + a);
                    assert(line.take(q + b).take(q + a) =~= line.take(q + a));
                }
            }
        }
    }
}

proof fn lemma_quoted_scan_ge(v: Seq<char>, quote: char, i: int, escaped: bool)
    requires
        0 <= i,
    ensures
        quoted_scan(v, quote, i, escaped).1 >= if i <= v.len() { i } else { v.len() as int },
    decreases v.len() - i,
{
    if 0 <= i < v.len() {
        lemma_quoted_scan_ge(v, quote, i + 1, false);
        lemma_quoted_scan_ge(v, quote, i + 1, true);
    }
}

/// The number of characters from index `st` up to the next line feed or the end.
pub open spec fn line_len(s: Seq<char>, st: int) -> nat
    decreases s.len() - st,
{
    if 0 <= st < s.len() && s[st] != '\n' { 1 + line_len(s, st + 1) } else { 0 }
}

pub proof fn lemma_line_len_bound(s: Seq<char>, st: int)
    requires
        0 <= st <= s.len(),
    ensures
        st + line_len(s, st) <= s.len(),
        st + line_len(s, st) < s.len() ==> s[st + line_len(s, st)] == '\n',
        forall|k: int| st <= k < st + line_len(s, st) ==> #[trigger] s[k] != '\n',
    decreases s.len() - st,
{
    if 0 <= st < s.len() && s[st] != '\n' {
        lemma_line_len_bound(s, st + 1);
    }
}

/// The length of the line starting at `st` once its line feed, and a carriage return just
/// before it, are taken off.
pub open spec fn line_text_len(s: Seq<char>, st: int) -> nat {
    let n = line_len(s, st);
    if n > 0 && s[st + n - 1] == '\r' { (n - 1) as nat } else { n }
}

/// The line starting at `st`, without its line ending.
pub open spec fn line_at(s: Seq<char>, st: int) -> Seq<char> {
    s.subrange(st, st + line_text_len(s, st))
}

/// The start of the line after the one starting at `st`, when there is one.
pub open spec fn next_line_start(s: Seq<char>, st: int) -> Option<int> {
    let e = st + line_len(s, st);
    if e + 1 < s.len() { Some(e + 1) } else { None }
}

/// The first line, from the one numbered `k` that starts at `st` on, whose `name:` entry
/// names `target`: its number and start.
pub open spec fn entry_line_from(s: Seq<char>, target: Seq<char>, st: int, k: nat) -> Option<(nat, int)>
    decreases s.len() - st,
{
    if st < 0 || st >= s.len() {
        None
    } else if name_entry(line_at(s, st)) matches Some((n, _, _)) && n == target {
        Some((k, st))
    } else {
        match next_line_start(s, st) {
            Some(nx) => if nx > st { entry_line_from(s, target, nx, k + 1) } else { None },
            None => None,
        }
    }
}

/// `s` without leading and trailing whitespace.
pub open spec fn trimmed(s: Seq<char>) -> Seq<char> {
    let a = ws_run(s, 0) as int;
    let b = trimmed_end_len(s) as int;
    if a < b { s.subrange(a, b) } else { Seq::empty() }
}

/// Where a schema line that defines a field was found: its 1-based number, the byte range
/// of the line in the text, and the line without surrounding whitespace.
#[derive(Debug, PartialEq, Eq)]
pub struct SchemaMatch {
    pub line: usize,
    pub line_start_byte: usize,
    pub line_end_byte: usize,
    pub snippet: String,
}

/// A byte range on one line of the schema text.
#[derive(Debug, Clone, Copy, PartialEq, Eq)]
pub struct SchemaHighlight {
    pub line: usize,
    pub start_byte: usize,
    pub end_byte: usize,
}

/// The `name:` entry on a given line, with the byte range of the written name in the text.
#[derive(Debug, PartialEq, Eq)]
pub struct SchemaNameLineMatch {
    pub name: String,
    pub highlight: SchemaHighlight,
}

fn line_text_len_exec(chars: &Vec<char>, st: usize) -> (r: (usize, usize))
    requires
        st <= chars.len(),
    ensures
        r.0 as nat == line_len(chars@, st as int),
        r.1 as nat == line_text_len(chars@, st as int),
        st + r.0 <= chars.len(),
        r.1 <= r.0,
{
    proof { lemma_line_len_bound(chars@, st as int); }
    let mut e = st;
    while e < chars.len() && chars[e] != '\n'
        invariant
            st <= e <= chars.len(),
            line_len(chars@, st as int) == (e - st) + line_len(chars@, e as int),
        decreases chars.len() - e,
    {
        e += 1;
    }
    let n = e - st;
    if n > 0 && chars[e - 1] == '\r' { (n, n - 1) } else { (n, n) }
}

pub(crate) fn trimmed_string(line: &str) -> (r: String)
    ensures
        r@ == trimmed(line@),
{
    let chars = chars_of(line);
    let a = ws_run_exec(&chars, 0);
    let b = trimmed_end_exec(&chars, chars.len());
    assert(chars@.take(chars.len() as int) =~= chars@);
    if a < b {
        let sub = line.substring_char(a, b);
        sub.to_owned()
    } else {
        String::new()
    }
}

/// Finds the first line of a schema text that is a `name:` entry for `target_name`.
pub fn find_schema_name_entry(source: &str, target_name: &str) -> (r: Option<SchemaMatch>)
    ensures
        schema_match_for(source@, target_name@, r),
{
    let chars = chars_of(source);
    let total = str_byte_len(source);
    let mut st: usize = 0;
    let mut k: usize = 0;
    while st < chars.len()
        invariant
            chars@ == source@,
            utf8_len(source@) <= usize::MAX,
            k <= st <= chars.len(),
            entry_line_from(source@, target_name@, 0, 0) == entry_line_from(source@, target_name@, st as int, k as nat),
        decreases chars.len() - st,
    {
        let (n, t) = line_text_len_exec(&chars, st);
        let line = source.substring_char(st, st + t);
        assert(line@ == line_at(source@, st as int));
        if let Some(entry) = parse_schema_name_entry(line) {
            if str_equal(entry.name.as_str(), target_name) {
                let start_b = prefix_bytes(&chars, st);
                let end_b = prefix_bytes(&chars, st + t);
                return Some(SchemaMatch {
                    line: k + 1,
                    line_start_byte: start_b,
                    line_end_byte: end_b,
                    snippet: trimmed_string(line),
                });
            }
        }
        if st + n < chars.len() - 1 {
            st = st + n + 1;
            k = k + 1;
        } else {
            return None;
        }
    }
    None
}

/// The start of the line numbered `k` (from 0) counting from the line that starts at `st`.
pub open spec fn nth_line_start(s: Seq<char>, st: int, k: nat) -> Option<int>
    decreases k,
{
    if st < 0 || st >= s.len() {
        None
    } else if k == 0 {
        Some(st)
    } else {
        match next_line_start(s, st) {
            Some(nx) => nth_line_start(s, nx, (k - 1) as nat),
            None => None,
        }
    }
}

/// The `name:` entry on line `line_index` (from 0) of a schema text, with the byte range of
/// the written name within the whole text.
pub fn schema_field_name_match_at_line(source: &str, line_index: usize) -> (r: Option<SchemaNameLineMatch>)
    ensures
        match nth_line_start(source@, 0, line_index as nat) {
            Some(st) => match name_entry(line_at(source@, st)) {
                Some((n, a, b)) => r matches Some(m) && m.name@ == n
                    && m.highlight.line == line_index + 1
                    && m.highlight.start_byte as nat == utf8_len(source@.take(st)) + a
                    && m.highlight.end_byte as nat == utf8_len(source@.take(st)) + b,
                None => r is None,
            },
            None => r is None,
        },
{
    let chars = chars_of(source);
    let total = str_byte_len(source);
    let mut st: usize = 0;
    let mut k: usize = 0;
    while st < chars.len()
        invariant
            chars@ == source@,
            utf8_len(source@) <= usize::MAX,
            k <= line_index,
            k <= st <= chars.len(),
            nth_line_start(source@, 0, line_index as nat) == nth_line_start(source@, st as int, (line_index - k) as nat),
        decreases chars.len() - st,
    {
        let (n, t) = line_text_len_exec(&chars, st);
        if k == line_index {
            let line = source.substring_char(st, st + t);
            assert(line@ == line_at(source@, st as int));
            let entry = match parse_schema_name_entry(line) {
                Some(e) => e,
                None => return None,
            };
            let start_b = prefix_bytes(&chars, st);
            proof {
                lemma_name_entry_bound(line@);
                lemma_split_bytes(source@, st as int, t as int);
                assert(source@.skip(st as int).take(t as int) =~= line@);
            }
            return Some(SchemaNameLineMatch {
                name: entry.name,
                highlight: SchemaHighlight {
                    line: line_index + 1,
                    start_byte: start_b + entry.name_start_byte,
                    end_byte: start_b + entry.name_end_byte,
                },
            });
        }
        if st + n < chars.len() - 1 {
            st = st + n + 1;
            k = k + 1;
        } else {
            return None;
        }
    }
    None
}

/// Whether `r` is what searching `source` for the `name:` entry of `target` gives.
pub open spec fn schema_match_for(source: Seq<char>, target: Seq<char>, r: Option<SchemaMatch>) -> bool {
    match entry_line_from(source, target, 0, 0) {
        Some((k, st)) => r matches Some(m) && m.line == k + 1
            && m.line_start_byte as nat == utf8_len(source.take(st))
            && m.line_end_byte as nat == utf8_len(source.take(st + line_text_len(source, st)))
            && m.snippet@ == trimmed(line_at(source, st)),
        None => r is None,
    }
}

/// The number of line feeds in `s`.
pub open spec fn newline_count(s: Seq<char>) -> nat
    decreases s.len(),
{
    if s.len() == 0 { 0 } else { newline_count(s.drop_last()) + if s.last() == '\n' { 1nat } else { 0nat } }
}

/// The 0-based line that the character at `char_index` is on: the number of line feeds
/// before it (all of them when the index is past the end).
pub fn line_index_for_char_index(source: &str, char_index: usize) -> (r: usize)
    ensures
        r as nat == newline_count(source@.take(if char_index <= source@.len() { char_index as int } else { source@.len() as int })),
{
    let chars = chars_of(source);
    let mut line_index: usize = 0;
    let mut i: usize = 0;
    assert(source@.take(0) =~= Seq::<char>::empty());
    while i < chars.len() && i < char_index
        invariant
            chars@ == source@,
            i <= chars.len(),
            i <= char_index,
            line_index <= i,
            line_index as nat == newline_count(source@.take(i as int)),
        decreases chars.len() - i,
    {
        assert(source@.take(i + 1).drop_last() =~= source@.take(i as int));
        if chars[i] == '\n' {
            line_index += 1;
        }
        i += 1;
    }
    line_index
}

/// The index of the last `.` in `s`.
pub open spec fn last_dot(s: Seq<char>) -> Option<int>
    decreases s.len(),
{
    if s.len() == 0 {
        None
    } else if s.last() == '.' {
        Some(s.len() - 1)
    } else {
        last_dot(s.drop_last())
    }
}

pub proof fn lemma_last_dot(s: Seq<char>)
    ensures
        match last_dot(s) {
            Some(i) => 0 <= i < s.len() && s[i] == '.' && forall|k: int| i < k < s.len() ==> #[trigger] s[k] != '.',
            None => forall|k: int| 0 <= k < s.len() ==> #[trigger] s[k] != '.',
        },
    decreases s.len(),
{
    if s.len() > 0 {
        lemma_last_dot(s.drop_last());
        assert forall|k: int| 0 <= k < s.len() - 1 implies s.drop_last()[k] == s[k] by {}
    }
}

/// What follows the last `.` of `s`, or all of `s` when it has none.
pub open spec fn leaf_of(s: Seq<char>) -> Seq<char> {
    match last_dot(s) {
        Some(i) => s.skip(i + 1),
        None => s,
    }
}

fn last_dot_exec(chars: &Vec<char>) -> (r: Option<usize>)
    ensures
        match last_dot(chars@) {
            Some(i) => r == Some(i as usize),
            None => r is None,
        },
{
    proof { lemma_last_dot(chars@); }
    let mut i = chars.len();
    assert(chars@.take(i as int) =~= chars@);
    while i > 0
        invariant
            i <= chars.len(),
            last_dot(chars@) == last_dot(chars@.take(i as int)),
        decreases i,
    {
        if chars[i - 1] == '.' {
            return Some(i - 1);
        }
        assert(chars@.take(i as int).drop_last() =~= chars@.take(i - 1));
        i -= 1;
    }
    None
}

fn leaf_string(s: String) -> (r: String)
    ensures
        r@ == leaf_of(s@),
{
    let chars = chars_of(s.as_str());
    assert(chars@.take(chars.len() as int) =~= chars@);
    match last_dot_exec(&chars) {
        Some(i) => {
            proof { lemma_last_dot(chars@); }
            let sub = s.as_str().substring_char(i + 1, chars.len());
            assert(sub@ =~= s@.skip(i + 1));
            sub.to_owned()
        },
        None => s,
    }
}

/// The last dotted component of a name once its repeat indexes are taken out:
/// `records[2].id` gives `id`.
pub fn normalized_leaf_name(name: &str) -> (r: String)
    ensures
        r@ == leaf_of(stripped(name@)),
{
    leaf_string(strip_repeat_indexes(name))
}

/// Splits a display name at its last `.` into a group and a child, when both are non-empty.
pub fn split_field_group(display_name: &str) -> (r: Option<(&str, &str)>)
    ensures
        match last_dot(display_name@) {
            Some(i) => if 0 < i && i + 1 < display_name@.len() {
                r matches Some((g, c)) && g@ == display_name@.take(i) && c@ == display_name@.skip(i + 1)
            } else {
                r is None
            },
            None => r is None,
        },
{
    let chars = chars_of(display_name);
    assert(chars@.take(chars.len() as int) =~= chars@);
    match last_dot_exec(&chars) {
        Some(i) => {
            proof { lemma_last_dot(chars@); }
            if 0 < i && i + 1 < chars.len() {
                let group = display_name.substring_char(0, i);
                let child = display_name.substring_char(i + 1, chars.len());
                assert(group@ =~= display_name@.take(i as int));
                assert(child@ =~= display_name@.skip(i + 1));
                Some((group, child))
            } else {
                None
            }
        },
        None => None,
    }
}

/// The texts of a sequence of strings.
pub open spec fn texts(v: Seq<String>) -> Seq<Seq<char>> {
    v.map_values(|s: String| s@)
}

/// `c` with `x` added at the end, unless `x` is empty or already there.
pub open spec fn add_candidate(c: Seq<Seq<char>>, x: Seq<char>) -> Seq<Seq<char>> {
    if x.len() > 0 && !c.contains(x) { c.push(x) } else { c }
}

/// The names to look for in the schema text for a field: its display name and its schema
/// name without repeat indexes, then the last dotted part of the display name; empty and
/// repeated names left out.
pub open spec fn name_candidates(display_name: Seq<char>, schema_field_name: Seq<char>) -> Seq<Seq<char>> {
    let a = stripped(display_name);
    let b = stripped(schema_field_name);
    add_candidate(add_candidate(add_candidate(Seq::empty(), a), b), leaf_of(a))
}

fn push_candidate(v: &mut Vec<String>, x: String)
    ensures
        texts(final(v)@) == add_candidate(texts(old(v)@), x@),
{
    if x.as_str().is_empty() {
        return;
    }
    let mut i: usize = 0;
    while i < v.len()
        invariant
            i <= v.len(),
            forall|j: int| 0 <= j < i ==> #[trigger] v@[j]@ != x@,
        decreases v.len() - i,
    {
        if str_equal(v[i].as_str(), x.as_str()) {
            assert(texts(v@)[i as int] == x@);
            return;
        }
        i += 1;
    }
    proof {
        assert forall|j: int| 0 <= j < texts(v@).len() implies #[trigger] texts(v@)[j] != x@ by {}
    }
    let ghost before = v@;
    v.push(x);
    assert(texts(v@) =~= texts(before).push(x@));
}

/// The names under which a field is looked for in the schema text, in order of preference.
pub fn schema_match_candidates(display_name: &str, schema_field_name: &str) -> (r: Vec<String>)
    ensures
        texts(r@) == name_candidates(display_name@, schema_field_name@),
{
    let normalized_display_name = strip_repeat_indexes(display_name);
    let normalized_schema_field_name = strip_repeat_indexes(schema_field_name);
    let leaf = leaf_string(normalized_display_name.as_str().to_owned());
    let mut candidates: Vec<String> = Vec::new();
    assert(texts(candidates@) =~= Seq::<Seq<char>>::empty());
    push_candidate(&mut candidates, normalized_display_name);
    push_candidate(&mut candidates, normalized_schema_field_name);
    push_candidate(&mut candidates, leaf);
    candidates
}

/// The first of `candidates` that has a `name:` entry in `source`.
pub open spec fn first_found(source: Seq<char>, candidates: Seq<Seq<char>>) -> Option<Seq<char>>
    decreases candidates.len(),
{
    if candidates.len() == 0 {
        None
    } else if entry_line_from(source, candidates[0], 0, 0) is Some {
        Some(candidates[0])
    } else {
        first_found(source, candidates.drop_first())
    }
}

/// Finds the schema line that defines a field, trying its display name, its schema name and
/// the last part of its display name in turn.
pub fn find_best_schema_name_match(source: &str, display_name: &str, schema_field_name: &str) -> (r: Option<SchemaMatch>)
    ensures
        match first_found(source@, name_candidates(display_name@, schema_field_name@)) {
            Some(c) => schema_match_for(source@, c, r),
            None => r is None,
        },
{
    let candidates = schema_match_candidates(display_name, schema_field_name);
    let ghost cs = texts(candidates@);
    let mut i: usize = 0;
    assert(cs.skip(0) =~= cs);
    while i < candidates.len()
        invariant
            i <= candidates.len(),
            cs == texts(candidates@),
            cs == name_candidates(display_name@, schema_field_name@),
            first_found(source@, cs) == first_found(source@, cs.skip(i as int)),
        decreases candidates.len() - i,
    {
        let found = find_schema_name_entry(source, candidates[i].as_str());
        assert(cs.skip(i as int)[0] == candidates@[i as int]@);
        if found.is_some() {
            assert(entry_line_from(source@, cs.skip(i as int)[0], 0, 0) is Some);
            assert(first_found(source@, cs.skip(i as int)) == Some(cs.skip(i as int)[0]));
            return found;
        }
        assert(cs.skip(i as int).drop_first() =~= cs.skip(i + 1));
        i += 1;
    }
    None
}

/// `a + b`, or `u64::MAX` when that overflows.
pub open spec fn saturating_add(a: u64, b: nat) -> u64 {
    if a + b > u64::MAX { u64::MAX } else { (a + b) as u64 }
}

/// The parts of the search matches from index `i` on that fall in the visible byte range
/// `visible_start..visible_end`, each cut to that range and marked when it is the current
/// match. Matches are taken in order and the scan stops at the first one that starts at or
/// after the end of the range.
pub open spec fn visible_ranges_from(matches: Seq<u64>, current: Option<usize>, query_len: nat, visible_start: u64, visible_end: u64, i: int) -> Seq<(u64, u64, bool)>
    decreases matches.len() - i,
{
    if i < 0 || i >= matches.len() || query_len == 0 {
        Seq::empty()
    } else {
        let start = matches[i];
        let end = saturating_add(start, query_len);
        if end <= visible_start {
            visible_ranges_from(matches, current, query_len, visible_start, visible_end, i + 1)
        } else if start >= visible_end {
            Seq::empty()
        } else {
            seq![(if start >= visible_start { start } else { visible_start },
                if end <= visible_end { end } else { visible_end },
                current == Some(i as usize))]
                + visible_ranges_from(matches, current, query_len, visible_start, visible_end, i + 1)
        }
    }
}

/// The highlight ranges of the search matches in the visible part of the hex view.
pub fn visible_search_ranges(matches: &[u64], current_match: Option<usize>, query_len: usize, visible_start: u64, visible_end: u64) -> (r: Vec<(u64, u64, bool)>)
    ensures
        r@ == visible_ranges_from(matches@, current_match, query_len as nat, visible_start, visible_end, 0),
{
    let mut ranges: Vec<(u64, u64, bool)> = Vec::new();
    if query_len == 0 {
        return ranges;
    }
    let q = query_len as u64;
    let mut index: usize = 0;
    while index < matches.len()
        invariant
            index <= matches.len(),
            q == query_len,
            query_len > 0,
            visible_ranges_from(matches@, current_match, query_len as nat, visible_start, visible_end, 0)
                == ranges@ + visible_ranges_from(matches@, current_match, query_len as nat, visible_start, visible_end, index as int),
        decreases matches.len() - index,
    {
        let start = matches[index];
        let end = start.saturating_add(q);
        if end <= visible_start {
            index += 1;
            continue;
        }
        if start >= visible_end {
            assert(ranges@ + Seq::<(u64, u64, bool)>::empty() =~= ranges@);
            return ranges;
        }
        let lo = if start >= visible_start { start } else { visible_start };
        let hi = if end <= visible_end { end } else { visible_end };
        let is_current = match current_match {
            Some(c) => c == index,
            None => false,
        };
        let ghost before = ranges@;
        ranges.push((lo, hi, is_current));
        assert(ranges@ + visible_ranges_from(matches@, current_match, query_len as nat, visible_start, visible_end, index + 1)
            =~= before + visible_ranges_from(matches@, current_match, query_len as nat, visible_start, visible_end, index as int));
        index += 1;
    }
    assert(ranges@ + Seq::<(u64, u64, bool)>::empty() =~= ranges@);
    ranges
}

/// `0xHEX (DECIMAL)` for a resolved offset, `<invalid>` when it could not be resolved.
pub open spec fn resolved_offset_text(offset: u64, offset_valid: bool) -> Seq<char> {
    if offset_valid {
        "0x"@ + hex_upper(offset as nat) + " ("@ + decimal(offset as nat) + ")"@
    } else {
        "<invalid>"@
    }
}

/// Shows a field's resolved offset in hex and decimal.
pub fn format_resolved_offset(offset: u64, offset_valid: bool) -> (s: String)
    ensures
        s@ == resolved_offset_text(offset, offset_valid),
{
    if offset_valid {
        let mut s = String::from_str("0x");
        let h = u64_to_hex_upper(offset);
        s.append(h.as_str());
        s.append(" (");
        let d = u64_to_decimal(offset);
        s.append(d.as_str());
        s.append(")");
        s
    } else {
        String::from_str("<invalid>")
    }
}

/// Shows a byte value as hex, cut to `MAX_DISPLAY_BYTES` bytes for a long field.
pub fn format_bytes_preview(bytes: &[u8], byte_len: usize) -> (s: String)
    ensures
        s@ == bytes_text(bytes@, byte_len, false),
{
    render_bytes(bytes, byte_len, false)
}

/// A text value as shown in the field table: all of it for a short field, else the
/// characters that fit in `MAX_DISPLAY_BYTES` bytes, `...` and the field's length.
pub open spec fn ascii_preview_text(text: Seq<char>, byte_len: usize) -> Seq<char> {
    if byte_len <= MAX_DISPLAY_BYTES {
        text
    } else {
        text.take(fitting_prefix(text, MAX_DISPLAY_BYTES as nat) as int) + "... ("@ + decimal(byte_len as nat) + " bytes)"@
    }
}

/// Shows a text value, cut for a long field.
pub fn format_ascii_preview(text: &str, byte_len: usize) -> (s: String)
    ensures
        s@ == ascii_preview_text(text@, byte_len),
{
    if byte_len <= MAX_DISPLAY_BYTES {
        return text.to_owned();
    }
    let chars = chars_of(text);
    let mut preview = String::new();
    let mut used: usize = 0;
    let mut i: usize = 0;
    assert(text@.skip(0) =~= text@);
    while i < chars.len()
        invariant_except_break
            i <= chars.len(),
            chars@ == text@,
            used <= MAX_DISPLAY_BYTES,
            fitting_prefix(text@, MAX_DISPLAY_BYTES as nat) == i + fitting_prefix(text@.skip(i as int), (MAX_DISPLAY_BYTES - used) as nat),
            preview@ == text@.take(i as int),
        ensures
            i <= chars.len(),
            preview@ == text@.take(i as int),
            fitting_prefix(text@, MAX_DISPLAY_BYTES as nat) == i,
        decreases chars.len() - i,
    {
        let c = chars[i];
        let w = char_utf8_width(c);
        if w > MAX_DISPLAY_BYTES - used {
            break;
        }
        proof {
            lemma_fitting_prefix_step(text@, i as int, (MAX_DISPLAY_BYTES - used) as nat);
        }
        push_char(&mut preview, c);
        used += w;
        i += 1;
        assert(preview@ =~= text@.take(i as int));
    }
    preview.append("... (");
    let n = u64_to_decimal(byte_len as u64);
    preview.append(n.as_str());
    preview.append(" bytes)");
    preview
}

/// The length of the line starting at `st` as `str::lines` gives it: without its line feed,
/// and without a carriage return just before that line feed.
pub open spec fn lines_text_len(s: Seq<char>, st: int) -> nat {
    let n = line_len(s, st);
    if st + n < s.len() && n > 0 && s[st + n - 1] == '\r' { (n - 1) as nat } else { n }
}

/// The number of lines from the one starting at `st` on.
pub open spec fn line_count_from(s: Seq<char>, st: int) -> nat
    decreases s.len() - st,
{
    if st < 0 || st >= s.len() {
        0
    } else {
        match next_line_start(s, st) {
            Some(nx) => if nx > st { 1 + line_count_from(s, nx) } else { 1 },
            None => 1,
        }
    }
}

pub proof fn lemma_next_line_start(s: Seq<char>, st: int)
    requires
        0 <= st < s.len(),
    ensures
        next_line_start(s, st) matches Some(nx) ==> st < nx < s.len(),
{
    lemma_line_len_bound(s, st);
}

/// Counting lines from a start on: one more line than from the next start.
pub proof fn lemma_nth_line_next(s: Seq<char>, st0: int, k: nat, st: int)
    requires
        nth_line_start(s, st0, k) == Some(st),
    ensures
        0 <= st < s.len(),
        nth_line_start(s, st0, k + 1) == next_line_start(s, st),
        line_count_from(s, st0) == k + line_count_from(s, st),
    decreases k,
{
    if k == 0 {
        lemma_next_line_start(s, st);
        assert(st0 == st);
        if let Some(nx) = next_line_start(s, st) {
            assert(nth_line_start(s, nx, 0) == Some(nx));
        }
    } else {
        lemma_next_line_start(s, st0);
        let nx = next_line_start(s, st0)->Some_0;
        lemma_nth_line_next(s, nx, (k - 1) as nat, st);
        assert(nth_line_start(s, st0, k + 1) == nth_line_start(s, nx, k));
    }
}

/// Right-aligns `s` in a column of `width` characters.
pub open spec fn space_pad(s: Seq<char>, width: nat) -> Seq<char> {
    if s.len() >= width { s } else { Seq::new((width - s.len()) as nat, |i: int| ' ') + s }
}

/// One line of a source snippet: a `>` marker on the line asked for, the line number in a
/// column of four, and the line's text.
pub open spec fn snippet_row(line: nat, k: nat, text: Seq<char>) -> Seq<char> {
    (if k == line { seq!['>'] } else { seq![' '] }) + seq![' '] + space_pad(decimal(k), 4) + seq![' ', '|', ' '] + text
}

/// The text of line `k` (from 1) of `s`, as `str::lines` gives it.
pub open spec fn nth_line_text(s: Seq<char>, k: nat) -> Seq<char> {
    match nth_line_start(s, 0, (k - 1) as nat) {
        Some(st) => s.subrange(st, st + lines_text_len(s, st)),
        None => Seq::empty(),
    }
}

/// Snippet rows for lines `k` to `end`, joined by line feeds.
pub open spec fn snippet_rows(s: Seq<char>, line: nat, k: nat, end: nat) -> Seq<char>
    decreases end + 1 - k,
{
    if k > end {
        Seq::empty()
    } else if k == end {
        snippet_row(line, k, nth_line_text(s, k))
    } else {
        snippet_row(line, k, nth_line_text(s, k)) + seq!['\n'] + snippet_rows(s, line, k + 1, end)
    }
}

/// The lines around line `line` (from 1) of a source text, two on each side where there are
/// any, or nothing when there is no such line.
pub open spec fn source_snippet_text(s: Seq<char>, line: nat) -> Option<Seq<char>> {
    let total = line_count_from(s, 0);
    if line == 0 || total == 0 || line > total {
        None
    } else {
        let start: nat = if line >= 3 { (line - 2) as nat } else { 1 };
        let end: nat = if line + 2 <= total { line + 2 } else { total };
        Some(snippet_rows(s, line, start, end))
    }
}

fn space_pad_exec(s: String, width: usize) -> (r: String)
    ensures
        r@ == space_pad(s@, width as nat),
{
    let chars = chars_of(s.as_str());
    if chars.len() >= width {
        return s;
    }
    let mut out = String::new();
    let pad = width - chars.len();
    let mut i: usize = 0;
    while i < pad
        invariant
            i <= pad,
            out@ == Seq::new(i as nat, |k: int| ' '),
        decreases pad - i,
    {
        push_char(&mut out, ' ');
        i += 1;
        assert(out@ =~= Seq::new(i as nat, |k: int| ' '));
    }
    out.append(s.as_str());
    out
}

/// The start and text length of every line of `chars`, as `str::lines` splits them.
pub(crate) fn line_table(chars: &Vec<char>) -> (t: Vec<(usize, usize)>)
    ensures
        t.len() == line_count_from(chars@, 0),
        forall|j: int| 0 <= j < t.len() ==> nth_line_start(chars@, 0, j as nat) == Some(t@[j].0 as int)
            && t@[j].1 as nat == lines_text_len(chars@, t@[j].0 as int),
{
    let mut t: Vec<(usize, usize)> = Vec::new();
    if chars.len() == 0 {
        return t;
    }
    let mut st: usize = 0;
    loop
        invariant
            0 <= st < chars.len(),
            nth_line_start(chars@, 0, t.len() as nat) == Some(st as int),
            line_count_from(chars@, 0) == t.len() + line_count_from(chars@, st as int),
            forall|j: int| 0 <= j < t.len() ==> nth_line_start(chars@, 0, j as nat) == Some(t@[j].0 as int)
                && t@[j].1 as nat == lines_text_len(chars@, t@[j].0 as int),
        decreases chars.len() - st,
    {
        proof { lemma_nth_line_next(chars@, 0, t.len() as nat, st as int); }
        let (n, _) = line_text_len_exec(chars, st);
        let text_len = if st + n < chars.len() && n > 0 && chars[st + n - 1] == '\r' { n - 1 } else { n };
        t.push((st, text_len));
        if st + n < chars.len() - 1 {
            st = st + n + 1;
        } else {
            return t;
        }
    }
}

fn snippet_row_string(line: usize, k: usize, text: &str) -> (r: String)
    ensures
        r@ == snippet_row(line as nat, k as nat, text@),
{
    let mut out = String::new();
    if k == line {
        push_char(&mut out, '>');
    } else {
        push_char(&mut out, ' ');
    }
    push_char(&mut out, ' ');
    let number = space_pad_exec(u64_to_decimal(k as u64), 4);
    out.append(number.as_str());
    push_char(&mut out, ' ');
    push_char(&mut out, '|');
    push_char(&mut out, ' ');
    out.append(text);
    assert(out@ =~= snippet_row(line as nat, k as nat, text@));
    out
}

/// The lines around line `line` (from 1) of a schema text, numbered, with a `>` on the line
/// itself; `None` when the text has no such line.
pub fn source_snippet(source: &str, line: usize) -> (r: Option<String>)
    ensures
        match source_snippet_text(source@, line as nat) {
            Some(text) => r matches Some(x) && x@ == text,
            None => r is None,
        },
{
    let chars = chars_of(source);
    let table = line_table(&chars);
    let total = table.len();
    if line == 0 || total == 0 || line > total {
        return None;
    }
    let start: usize = if line >= 3 { line - 2 } else { 1 };
    let end: usize = if total - line >= 2 { line + 2 } else { total };
    let ghost rows = snippet_rows(source@, line as nat, start as nat, end as nat);
    assert(source_snippet_text(source@, line as nat) == Some(rows));
    let mut out = String::new();
    let mut k: usize = start;
    assert(rows == out@ + rows);
    loop
        invariant
            1 <= start <= k <= end <= total,
            total == table.len(),
            chars@ == source@,
            forall|j: int| 0 <= j < table.len() ==> nth_line_start(source@, 0, j as nat) == Some(table@[j].0 as int)
                && table@[j].1 as nat == lines_text_len(source@, table@[j].0 as int),
            rows == out@ + snippet_rows(source@, line as nat, k as nat, end as nat),
            source_snippet_text(source@, line as nat) == Some(rows),
        decreases end - k,
    {
        let (st, len) = table[k - 1];
        proof {
            assert(nth_line_start(source@, 0, (k - 1) as nat) == Some(st as int));
            lemma_nth_line_next(source@, 0, (k - 1) as nat, st as int);
            lemma_line_len_bound(source@, st as int);
            assert(len <= line_len(source@, st as int));
            assert(st + len <= chars.len());
        }
        let text = source.substring_char(st, st + len);
        assert(text@ == nth_line_text(source@, k as nat));
        let row = snippet_row_string(line, k, text);
        let ghost before = out@;
        out.append(row.as_str());
        if k == end {
            assert(out@ =~= rows);
            return Some(out);
        }
        push_char(&mut out, '\n');
        assert(out@ + snippet_rows(source@, line as nat, (k + 1) as nat, end as nat)
            =~= before + snippet_rows(source@, line as nat, k as nat, end as nat));
        k += 1;
    }
}

/// The kinds of problems the viewer reports.
#[derive(Debug, Clone, Copy, PartialEq, Eq, Structural)]
pub enum DiagnosticCategory {
    SchemaParse,
    SchemaValidation,
    IncludeResolution,
    Interpretation,
    Search,
}

/// The label shown for a category.
pub open spec fn category_label(c: DiagnosticCategory) -> Seq<char> {
    match c {
        DiagnosticCategory::SchemaParse => "Schema Parse"@,
        DiagnosticCategory::SchemaValidation => "Schema Validation"@,
        DiagnosticCategory::IncludeResolution => "Include"@,
        DiagnosticCategory::Interpretation => "Interpretation"@,
        DiagnosticCategory::Search => "Search"@,
    }
}

impl DiagnosticCategory {
    /// The label shown for this category.
    pub fn label(self) -> (s: &'static str)
        ensures
            s@ == category_label(self),
    {
        match self {
            DiagnosticCategory::SchemaParse => "Schema Parse",
            DiagnosticCategory::SchemaValidation => "Schema Validation",
            DiagnosticCategory::IncludeResolution => "Include",
            DiagnosticCategory::Interpretation => "Interpretation",
            DiagnosticCategory::Search => "Search",
        }
    }
}

/// A position in a schema file.
#[derive(Debug, PartialEq, Eq)]
pub struct SourceLocation {
    pub path: String,
    pub line: usize,
    pub column: usize,
}

/// What a diagnostic points at.
#[derive(Debug, PartialEq, Eq)]
pub enum DiagnosticTarget {
    Schema { location: Option<SourceLocation> },
    Field { name: String, offset: u64, byte_len: usize, offset_valid: bool },
    Search,
}

/// A problem shown in the viewer's diagnostics panel.
#[derive(Debug, PartialEq, Eq)]
pub struct GuiDiagnostic {
    pub category: DiagnosticCategory,
    pub message: String,
    pub target: DiagnosticTarget,
    pub snippet: Option<String>,
}

/// A location in the file at `path`, when both are known.
pub fn source_location(path: Option<String>, location: Option<SchemaLocation>) -> (r: Option<SourceLocation>)
    ensures
        match (path, location) {
            (Some(p), Some(l)) => r == Some(SourceLocation { path: p, line: l.line, column: l.column }),
            _ => r is None,
        },
{
    let path = match path {
        Some(p) => p,
        None => return None,
    };
    let location = match location {
        Some(l) => l,
        None => return None,
    };
    Some(SourceLocation { path, line: location.line, column: location.column })
}

/// The diagnostic for a row of the interpretation that failed, if it did.
pub fn runtime_diagnostic_from_field_eval(eval: &FieldEval) -> (r: Option<GuiDiagnostic>)
    ensures
        match eval.error {
            Some(e) => r matches Some(d) && d.category == DiagnosticCategory::Interpretation
                && d.message@ == e@ && d.snippet is None
                && (d.target matches DiagnosticTarget::Field { name, offset, byte_len, offset_valid }
                && name@ == eval.display_name@ && offset == eval.resolved_offset
                && byte_len == eval.byte_len && offset_valid == eval.offset_valid),
            None => r is None,
        },
{
    let error = match &eval.error {
        Some(e) => e,
        None => return None,
    };
    Some(GuiDiagnostic {
        category: DiagnosticCategory::Interpretation,
        message: copy_string(error),
        target: DiagnosticTarget::Field {
            name: copy_string(&eval.display_name),
            offset: eval.resolved_offset,
            byte_len: eval.byte_len,
            offset_valid: eval.offset_valid,
        },
        snippet: None,
    })
}

/// The number of diagnostics of category `c`.
pub open spec fn category_count(ds: Seq<GuiDiagnostic>, c: DiagnosticCategory) -> nat
    decreases ds.len(),
{
    if ds.len() == 0 {
        0
    } else {
        category_count(ds.drop_last(), c) + if ds.last().category == c { 1nat } else { 0nat }
    }
}

/// The categories in the order the summary lists them.
pub open spec fn summary_categories() -> Seq<DiagnosticCategory> {
    seq![DiagnosticCategory::SchemaParse, DiagnosticCategory::SchemaValidation,
        DiagnosticCategory::IncludeResolution, DiagnosticCategory::Interpretation, DiagnosticCategory::Search]
}

/// `LABEL COUNT` for the first `k` summary categories that occur, joined by `, `.
pub open spec fn summary_parts(ds: Seq<GuiDiagnostic>, k: nat) -> Seq<char>
    decreases k,
{
    if k == 0 {
        Seq::empty()
    } else {
        let prev = summary_parts(ds, (k - 1) as nat);
        let c = summary_categories()[k - 1];
        let n = category_count(ds, c);
        if n == 0 {
            prev
        } else {
            let part = category_label(c) + " "@ + decimal(n);
            if prev.len() == 0 { part } else { prev + ", "@ + part }
        }
    }
}

/// `N errors (LABEL COUNT, ...)`.
pub open spec fn summary_text(ds: Seq<GuiDiagnostic>) -> Seq<char> {
    decimal(ds.len()) + " errors ("@ + summary_parts(ds, 5) + ")"@
}

fn count_category(ds: &[GuiDiagnostic], c: DiagnosticCategory) -> (n: usize)
    ensures
        n as nat == category_count(ds@, c),
{
    let mut n: usize = 0;
    let mut i: usize = 0;
    assert(ds@.take(0) =~= Seq::<GuiDiagnostic>::empty());
    while i < ds.len()
        invariant
            i <= ds.len(),
            n <= i,
            n as nat == category_count(ds@.take(i as int), c),
        decreases ds.len() - i,
    {
        assert(ds@.take(i + 1).drop_last() =~= ds@.take(i as int));
        if ds[i].category == c {
            n += 1;
        }
        i += 1;
    }
    assert(ds@.take(ds.len() as int) =~= ds@);
    n
}

/// The summary line of the diagnostics panel: the total and the count per category.
pub fn diagnostic_summary(diagnostics: &[GuiDiagnostic]) -> (s: String)
    ensures
        s@ == summary_text(diagnostics@),
{
    let categories: [DiagnosticCategory; 5] = [DiagnosticCategory::SchemaParse, DiagnosticCategory::SchemaValidation,
        DiagnosticCategory::IncludeResolution, DiagnosticCategory::Interpretation, DiagnosticCategory::Search];
    let mut parts = String::new();
    let mut k: usize = 0;
    while k < 5
        invariant
            k <= 5,
            categories@ == summary_categories(),
            parts@ == summary_parts(diagnostics@, k as nat),
        decreases 5 - k,
    {
        let c = categories[k];
        let n = count_category(diagnostics, c);
        if n > 0 {
            if !parts.as_str().is_empty() {
                parts.append(", ");
            }
            parts.append(c.label());
            parts.append(" ");
            let d = u64_to_decimal(n as u64);
            parts.append(d.as_str());
        }
        k += 1;
    }
    let mut s = u64_to_decimal(diagnostics.len() as u64);
    s.append(" errors (");
    s.append(parts.as_str());
    s.append(")");
    s
}

/// The suffix naming what a diagnostic points at: ` [PATH:LINE:COLUMN]` or ` [FIELD]`.
pub open spec fn target_suffix(t: DiagnosticTarget) -> Seq<char> {
    match t {
        DiagnosticTarget::Schema { location: Some(l) } =>
            " ["@ + l.path@ + ":"@ + decimal(l.line as nat) + ":"@ + decimal(l.column as nat) + "]"@,
        DiagnosticTarget::Field { name, .. } => " ["@ + name@ + "]"@,
        _ => Seq::empty(),
    }
}

/// The suffix naming what a diagnostic points at.
pub fn diagnostic_target_suffix(diagnostic: &GuiDiagnostic) -> (s: String)
    ensures
        s@ == target_suffix(diagnostic.target),
{
    match &diagnostic.target {
        DiagnosticTarget::Schema { location: Some(l) } => {
            let mut s = String::from_str(" [");
            s.append(l.path.as_str());
            s.append(":");
            let line = u64_to_decimal(l.line as u64);
            s.append(line.as_str());
            s.append(":");
            let column = u64_to_decimal(l.column as u64);
            s.append(column.as_str());
            s.append("]");
            s
        },
        DiagnosticTarget::Field { name, .. } => {
            let mut s = String::from_str(" [");
            s.append(name.as_str());
            s.append("]");
            s
        },
        _ => String::new(),
    }
}

/// The file position a schema error points at: its own path, or `fallback_path`, with its
/// line and column. Only YAML and validation errors carry a position.
pub open spec fn error_location(error: SchemaError, fallback_path: Option<Seq<char>>) -> Option<(Seq<char>, usize, usize)> {
    match error {
        SchemaError::Yaml { location: Some(l), .. } => match fallback_path {
            Some(p) => Some((p, l.line, l.column)),
            None => None,
        },
        SchemaError::Validation { path, location: Some(l), .. } => match path {
            Some(p) => Some((p@, l.line, l.column)),
            None => match fallback_path {
                Some(p) => Some((p, l.line, l.column)),
                None => None,
            },
        },
        _ => None,
    }
}

/// Whether `r` is the location `error_location` describes.
pub open spec fn location_is(r: Option<SourceLocation>, l: Option<(Seq<char>, usize, usize)>) -> bool {
    match l {
        Some((p, line, column)) => r matches Some(x) && x.path@ == p && x.line == line && x.column == column,
        None => r is None,
    }
}

fn opt_str_to_string(s: Option<&str>) -> (r: Option<String>)
    ensures
        match s {
            Some(x) => r matches Some(y) && y@ == x@,
            None => r is None,
        },
{
    match s {
        Some(x) => Some(x.to_owned()),
        None => None,
    }
}

/// The file position a schema error points at, with `fallback_path` standing in for an error
/// that names no file.
pub fn schema_error_location(error: &SchemaError, fallback_path: Option<&str>) -> (r: Option<SourceLocation>)
    ensures
        location_is(r, error_location(*error, match fallback_path { Some(p) => Some(p@), None => None })),
{
    match error {
        SchemaError::Yaml { location, .. } => source_location(opt_str_to_string(fallback_path), *location),
        SchemaError::Validation { path, location, .. } => {
            let p = match path {
                Some(p) => Some(copy_string(p)),
                None => opt_str_to_string(fallback_path),
            };
            source_location(p, *location)
        },
        _ => None,
    }
}

/// Whether `d` is the diagnostic for the schema error `error`: a YAML or validation error
/// keeps its message and points at its position (its own path, or `fallback_path`), with the
/// lines around it as a snippet when `location_source`, the text of the file the position is
/// in, is given; a file or cycle error is reported with its full text.
pub open spec fn schema_error_diagnostic_is(d: GuiDiagnostic, error: SchemaError, fallback_path: Option<Seq<char>>, location_source: Option<Seq<char>>) -> bool {
    &&& match error {
        SchemaError::Yaml { message, .. } => d.category == DiagnosticCategory::SchemaParse
            && d.message@ == message@,
        SchemaError::Validation { message, .. } => d.category == DiagnosticCategory::SchemaValidation
            && d.message@ == message@,
        _ => d.category == DiagnosticCategory::IncludeResolution
            && d.message@ == schema_error_text(error),
    }
    &&& match error {
        SchemaError::Yaml { .. } | SchemaError::Validation { .. } => {
            let l = error_location(error, fallback_path);
            &&& d.target matches DiagnosticTarget::Schema { location } && location_is(location, l)
            &&& match (l, location_source) {
                (Some((_, line, _)), Some(src)) => match source_snippet_text(src, line as nat) {
                    Some(text) => d.snippet matches Some(x) && x@ == text,
                    None => d.snippet is None,
                },
                _ => d.snippet is None,
            }
        },
        SchemaError::Io { path, .. } => d.snippet is None
            && (d.target matches DiagnosticTarget::Schema { location: Some(x) }
            && x.path@ == path@ && x.line == 1 && x.column == 1),
        SchemaError::IncludeCycle { .. } => d.snippet is None
            && d.target == (DiagnosticTarget::Schema { location: None }),
    }
}

/// The diagnostic for a schema that failed to load.
pub fn schema_error_diagnostic(error: &SchemaError, fallback_path: Option<&str>, location_source: Option<&str>) -> (d: GuiDiagnostic)
    ensures
        schema_error_diagnostic_is(d, *error, match fallback_path { Some(p) => Some(p@), None => None },
            match location_source { Some(x) => Some(x@), None => None }),
{
    match error {
        SchemaError::Yaml { message, .. } | SchemaError::Validation { message, .. } => {
            let location = schema_error_location(error, fallback_path);
            let snippet = match (&location, location_source) {
                (Some(l), Some(src)) => source_snippet(src, l.line),
                _ => None,
            };
            let category = if let SchemaError::Yaml { .. } = error {
                DiagnosticCategory::SchemaParse
            } else {
                DiagnosticCategory::SchemaValidation
            };
            GuiDiagnostic {
                category,
                message: copy_string(message),
                target: DiagnosticTarget::Schema { location },
                snippet,
            }
        },
        SchemaError::Io { path, .. } => GuiDiagnostic {
            category: DiagnosticCategory::IncludeResolution,
            message: error.to_string(),
            target: DiagnosticTarget::Schema {
                location: Some(SourceLocation { path: copy_string(path), line: 1, column: 1 }),
            },
            snippet: None,
        },
        SchemaError::IncludeCycle { .. } => GuiDiagnostic {
            category: DiagnosticCategory::IncludeResolution,
            message: error.to_string(),
            target: DiagnosticTarget::Schema { location: None },
            snippet: None,
        },
    }
}

/// What `str::to_lowercase` gives for the characters `s`.
pub uninterp spec fn lowercase(s: Seq<char>) -> Seq<char>;

/// `str::to_lowercase`: the Unicode lower-case mapping of a string. Its result is named
/// `lowercase`; the mapping itself (which characters change, and into what) is not stated.
#[verifier::external_body]
fn to_lowercase_string(s: &str) -> (r: String)
    ensures
        r@ == lowercase(s@),
{
    s.to_lowercase()
}

/// Whether `needle` occurs in `hay` as a contiguous run of characters.
pub open spec fn contains_text(hay: Seq<char>, needle: Seq<char>) -> bool {
    exists|i: int| 0 <= i <= hay.len() - needle.len() && #[trigger] hay.subrange(i, i + needle.len()) == needle
}

fn occurs_at_chars(hay: &Vec<char>, i: usize, needle: &Vec<char>) -> (r: bool)
    requires
        i + needle.len() <= hay.len(),
    ensures
        r == (hay@.subrange(i as int, i + needle.len()) == needle@),
{
    let mut k: usize = 0;
    while k < needle.len()
        invariant
            k <= needle.len(),
            i + needle.len() <= hay.len(),
            forall|j: int| 0 <= j < k ==> hay@[i + j] == needle@[j],
        decreases needle.len() - k,
    {
        if hay[i + k] != needle[k] {
            assert(hay@.subrange(i as int, i + needle.len())[k as int] != needle@[k as int]);
            return false;
        }
        k += 1;
    }
    assert(hay@.subrange(i as int, i + needle.len()) =~= needle@);
    true
}

/// Whether `needle` occurs in `hay`.
pub fn text_contains(hay: &str, needle: &str) -> (r: bool)
    ensures
        r == contains_text(hay@, needle@),
{
    let h = chars_of(hay);
    let n = chars_of(needle);
    if n.len() > h.len() {
        return false;
    }
    if n.len() == 0 {
        assert(hay@.subrange(0int, 0int + needle@.len()) =~= needle@);
        return true;
    }
    let mut i: usize = 0;
    while i <= h.len() - n.len()
        invariant
            1 <= n.len() <= h.len(),
            h@ == hay@,
            n@ == needle@,
            forall|j: int| 0 <= j < i ==> #[trigger] hay@.subrange(j, j + needle@.len()) != needle@,
        decreases h.len() - n.len() + 1 - i,
    {
        if occurs_at_chars(&h, i, &n) {
            assert(hay@.subrange(i as int, i + needle@.len()) == needle@);
            return true;
        }
        i += 1;
    }
    false
}

/// Whether a field row's name passes the filter: an empty (or all-whitespace) query passes
/// everything; otherwise the trimmed query must occur in the name, compared in lower case.
pub open spec fn name_passes_filter(display_name: Seq<char>, query: Seq<char>) -> bool {
    trimmed(query).len() == 0 || contains_text(lowercase(display_name), lowercase(trimmed(query)))
}

/// Whether a field row's name passes the filter query.
pub fn field_name_matches_filter(display_name: &str, query: &str) -> (r: bool)
    ensures
        r == name_passes_filter(display_name@, query@),
{
    let q = trimmed_string(query);
    if q.as_str().is_empty() {
        return true;
    }
    let name_lower = to_lowercase_string(display_name);
    let query_lower = to_lowercase_string(q.as_str());
    text_contains(name_lower.as_str(), query_lower.as_str())
}

/// Whether a field row is shown: it passes the name filter and, when only errors are
/// shown, it has one.
pub fn field_matches_filter(eval: &FieldEval, query: &str, errors_only: bool) -> (r: bool)
    ensures
        r == (!(errors_only && eval.error is None) && name_passes_filter(eval.display_name@, query@)),
{
    if errors_only && eval.error.is_none() {
        return false;
    }
    field_name_matches_filter(eval.display_name.as_str(), query)
}

/// What a field picked in the schema text resolves to in the interpretation.
#[derive(Debug, PartialEq, Eq)]
pub struct ClickedField {
    pub display_name: String,
    pub schema_field_name: String,
    pub offset: u64,
    pub byte_len: usize,
    pub offset_valid: bool,
}

/// The picked-field record of an interpretation row.
pub fn clicked_field_from_eval(eval: &FieldEval) -> (c: ClickedField)
    ensures
        c.display_name@ == eval.display_name@,
        c.schema_field_name@ == eval.field.name@,
        c.offset == eval.resolved_offset,
        c.byte_len == eval.byte_len,
        c.offset_valid == eval.offset_valid,
{
    ClickedField {
        display_name: copy_string(&eval.display_name),
        schema_field_name: copy_string(&eval.field.name),
        offset: eval.resolved_offset,
        byte_len: eval.byte_len,
        offset_valid: eval.offset_valid,
    }
}

/// How well a row matches a name from the schema text: by the last part of its schema
/// field name (rank 0), by its whole display name (rank 1), or by the last part of its
/// display name (rank 2), repeat indexes taken out in each case.
pub open spec fn row_matches(e: FieldEval, name: Seq<char>, rank: int) -> bool {
    if rank == 0 {
        leaf_of(stripped(e.field.name@)) == name
    } else if rank == 1 {
        stripped(e.display_name@) == name
    } else {
        leaf_of(stripped(e.display_name@)) == name
    }
}

/// The first row that matches `name` at the given rank.
pub open spec fn first_row_match(rows: Seq<FieldEval>, name: Seq<char>, rank: int) -> Option<int> {
    if exists|i: int| 0 <= i < rows.len() && row_matches(#[trigger] rows[i], name, rank) {
        Some(choose|i: int| 0 <= i < rows.len() && row_matches(#[trigger] rows[i], name, rank)
            && forall|j: int| 0 <= j < i ==> !row_matches(#[trigger] rows[j], name, rank))
    } else {
        None
    }
}

fn find_row(evaluations: &[FieldEval], name: &String, rank: u8) -> (r: Option<usize>)
    requires
        rank <= 2,
    ensures
        match r {
            Some(i) => i < evaluations@.len() && row_matches(evaluations@[i as int], name@, rank as int)
                && forall|j: int| 0 <= j < i ==> !row_matches(#[trigger] evaluations@[j], name@, rank as int),
            None => forall|j: int| 0 <= j < evaluations@.len() ==> !row_matches(#[trigger] evaluations@[j], name@, rank as int),
        },
{
    let mut i: usize = 0;
    while i < evaluations.len()
        invariant
            i <= evaluations.len(),
            rank <= 2,
            forall|j: int| 0 <= j < i ==> !row_matches(#[trigger] evaluations@[j], name@, rank as int),
        decreases evaluations.len() - i,
    {
        let e = &evaluations[i];
        let key = if rank == 0 {
            normalized_leaf_name(e.field.name.as_str())
        } else if rank == 1 {
            strip_repeat_indexes(e.display_name.as_str())
        } else {
            normalized_leaf_name(e.display_name.as_str())
        };
        if str_equal(key.as_str(), name.as_str()) {
            return Some(i);
        }
        i += 1;
    }
    None
}

proof fn lemma_first_row_match(rows: Seq<FieldEval>, name: Seq<char>, rank: int, i: int)
    requires
        0 <= i < rows.len(),
        row_matches(rows[i], name, rank),
        forall|j: int| 0 <= j < i ==> !row_matches(#[trigger] rows[j], name, rank),
    ensures
        first_row_match(rows, name, rank) == Some(i),
{
    let k = choose|k: int| 0 <= k < rows.len() && row_matches(#[trigger] rows[k], name, rank)
        && forall|j: int| 0 <= j < k ==> !row_matches(#[trigger] rows[j], name, rank);
    if k < i {
        assert(!row_matches(rows[k], name, rank));
    }
    if i < k {
        assert(!row_matches(rows[i], name, rank));
    }
}

/// The row a name picked in the schema text stands for: the first row matching it by
/// schema field name, else by display name, else by the last part of the display name.
pub open spec fn best_row(rows: Seq<FieldEval>, schema_name: Seq<char>) -> Option<int> {
    let name = stripped(schema_name);
    if name.len() == 0 {
        None
    } else {
        match first_row_match(rows, name, 0) {
            Some(i) => Some(i),
            None => match first_row_match(rows, name, 1) {
                Some(i) => Some(i),
                None => first_row_match(rows, name, 2),
            },
        }
    }
}

/// Finds the interpretation row for a field name picked in the schema text.
pub fn find_best_field_for_schema_name(evaluations: &[FieldEval], schema_name: &str) -> (r: Option<ClickedField>)
    ensures
        match best_row(evaluations@, schema_name@) {
            Some(i) => r matches Some(c) && c.display_name@ == evaluations@[i].display_name@
                && c.schema_field_name@ == evaluations@[i].field.name@
                && c.offset == evaluations@[i].resolved_offset
                && c.byte_len == evaluations@[i].byte_len
                && c.offset_valid == evaluations@[i].offset_valid,
            None => r is None,
        },
{
    let name = strip_repeat_indexes(schema_name);
    if name.as_str().is_empty() {
        return None;
    }
    let mut rank: u8 = 0;
    while rank < 3
        invariant
            rank <= 3,
            name@ == stripped(schema_name@),
            name@.len() > 0,
            forall|k: int| 0 <= k < rank ==> first_row_match(evaluations@, name@, k) is None,
        decreases 3 - rank,
    {
        match find_row(evaluations, &name, rank) {
            Some(i) => {
                proof { lemma_first_row_match(evaluations@, name@, rank as int, i as int); }
                return Some(clicked_field_from_eval(&evaluations[i]));
            },
            None => {},
        }
        rank += 1;
    }
    None
}

proof fn lemma_hex_digits_concat(x: Seq<char>, y: Seq<char>)
    ensures
        hex_digits_of(x + y) == hex_digits_of(x) + hex_digits_of(y),
    decreases y.len(),
{
    if y.len() == 0 {
        assert(x + y =~= x);
        assert(hex_digits_of(x) + hex_digits_of(y) =~= hex_digits_of(x));
    } else {
        lemma_hex_digits_concat(x, y.drop_last());
        assert((x + y).drop_last() =~= x + y.drop_last());
        assert((x + y).last() == y.last());
        if is_hex_digit(y.last()) {
            assert(hex_digits_of(x) + hex_digits_of(y) =~= (hex_digits_of(x) + hex_digits_of(y.drop_last())).push(y.last()));
        }
    }
}

proof fn lemma_first_invalid_concat(x: Seq<char>, y: Seq<char>)
    requires
        first_invalid_hex_char(x) is None,
        first_invalid_hex_char(y) is None,
    ensures
        first_invalid_hex_char(x + y) is None,
    decreases y.len(),
{
    if y.len() == 0 {
        assert(x + y =~= x);
    } else {
        lemma_first_invalid_concat(x, y.drop_last());
        assert((x + y).drop_last() =~= x + y.drop_last());
        assert((x + y).last() == y.last());
    }
}

proof fn lemma_hex_char_value(d: nat)
    requires
        d < 16,
    ensures
        is_hex_digit(hex_char_upper(d)),
        hex_value(hex_char_upper(d)) == d,
{
}

proof fn lemma_byte_hex(b: u8)
    ensures
        byte_hex(b).len() == 2,
        is_hex_digit(byte_hex(b)[0]) && is_hex_digit(byte_hex(b)[1]),
        16 * hex_value(byte_hex(b)[0]) + hex_value(byte_hex(b)[1]) == b,
        first_invalid_hex_char(byte_hex(b)) is None,
        hex_digits_of(byte_hex(b)) == byte_hex(b),
{
    let hi = (b / 16) as nat;
    let lo = (b % 16) as nat;
    lemma_hex_char_value(hi);
    lemma_hex_char_value(lo);
    if b < 16 {
        assert(hex_upper(b as nat) == seq![hex_char_upper(b as nat)]);
        assert(byte_hex(b) =~= seq!['0', hex_char_upper(b as nat)]);
    } else {
        assert(hex_upper(hi) == seq![hex_char_upper(hi)]);
        assert(hex_upper(b as nat) =~= seq![hex_char_upper(hi), hex_char_upper(lo)]);
        assert(byte_hex(b) =~= seq![hex_char_upper(hi), hex_char_upper(lo)]);
    }
    let s = byte_hex(b);
    reveal_with_fuel(hex_digits_of, 3);
    reveal_with_fuel(first_invalid_hex_char, 3);
    assert(s.drop_last().drop_last() =~= Seq::<char>::empty());
    assert(s.drop_last() =~= seq![s[0]]);
    assert(hex_digits_of(s.drop_last()) =~= seq![s[0]]);
    assert(hex_digits_of(s) =~= s);
}

proof fn lemma_hex_pairs_push(d: Seq<char>, a: char, b: char)
    requires
        d.len() % 2 == 0,
    ensures
        hex_pairs(d + seq![a, b]) == hex_pairs(d).push((16 * hex_value(a) + hex_value(b)) as u8),
{
    let e = d + seq![a, b];
    assert(e.len() / 2 == d.len() / 2 + 1);
    assert forall|k: int| 0 <= k < d.len() / 2 implies #[trigger] hex_pairs(e)[k] == hex_pairs(d)[k] by {
        assert(e[2 * k] == d[2 * k]);
        assert(e[2 * k + 1] == d[2 * k + 1]);
    }
    let m: int = (d.len() / 2) as int;
    assert(e[2 * m] == a);
    assert(e[2 * m + 1] == b);
    assert(hex_pairs(e) =~= hex_pairs(d).push((16 * hex_value(a) + hex_value(b)) as u8));
}

proof fn lemma_hex_dump_digits(bytes: Seq<u8>)
    ensures
        first_invalid_hex_char(hex_dump(bytes)) is None,
        hex_digits_of(hex_dump(bytes)).len() == 2 * bytes.len(),
        hex_pairs(hex_digits_of(hex_dump(bytes))) == bytes,
    decreases bytes.len(),
{
    if bytes.len() == 0 {
        assert(hex_pairs(Seq::<char>::empty()) =~= bytes);
    } else if bytes.len() == 1 {
        lemma_byte_hex(bytes[0]);
        let s = byte_hex(bytes[0]);
        lemma_hex_pairs_push(Seq::empty(), s[0], s[1]);
        assert(Seq::<char>::empty() + seq![s[0], s[1]] =~= s);
        assert(hex_pairs(Seq::<char>::empty()) =~= Seq::<u8>::empty());
        assert(Seq::<u8>::empty().push(bytes[0]) =~= bytes);
    } else {
        let rest = bytes.drop_last();
        let last = bytes.last();
        lemma_hex_dump_digits(rest);
        lemma_byte_hex(last);
        let sp: Seq<char> = seq![' '];
        assert(" "@ == sp) by { reveal_strlit(" "); };
        let x = hex_dump(rest);
        let s = byte_hex(last);
        assert(hex_dump(bytes) == x + sp + s);
        lemma_hex_digits_concat(x + sp, s);
        lemma_hex_digits_concat(x, sp);
        assert(hex_digits_of(sp) =~= Seq::<char>::empty()) by {
            reveal_with_fuel(hex_digits_of, 2);
            assert(sp.drop_last() =~= Seq::<char>::empty());
        };
        assert(first_invalid_hex_char(sp) is None) by {
            reveal_with_fuel(first_invalid_hex_char, 2);
            assert(sp.drop_last() =~= Seq::<char>::empty());
            assert(is_whitespace_char(' '));
        };
        lemma_first_invalid_concat(x, sp);
        lemma_first_invalid_concat(x + sp, s);
        let d = hex_digits_of(x);
        assert(hex_digits_of(hex_dump(bytes)) =~= d + s);
        assert(s =~= seq![s[0], s[1]]);
        lemma_hex_pairs_push(d, s[0], s[1]);
        assert(bytes =~= rest.push(last));
    }
}

/// Bytes shown as hex, typed back into the hex search, give the same bytes: the rendering
/// of a value that is shown whole (at most `MAX_DISPLAY_BYTES` bytes long, or with the full
/// value asked for) parses back to that value.
pub proof fn law_hex_rendering_round_trip(bytes: Seq<u8>, byte_len: usize, full_bytes: bool)
    requires
        full_bytes || byte_len <= MAX_DISPLAY_BYTES,
    ensures
        spec_hex_pattern(bytes_text(bytes, byte_len, full_bytes)) == Ok::<Seq<u8>, Seq<char>>(bytes),
{
    lemma_hex_dump_digits(bytes);
    assert(bytes_text(bytes, byte_len, full_bytes) == hex_dump(bytes));
    if bytes.len() == 0 {
        assert(hex_digits_of(hex_dump(bytes)).len() == 0);
        assert(bytes =~= Seq::<u8>::empty());
    }
}

proof fn lemma_decimal_digits(n: nat)
    ensures
        decimal(n).len() >= 1,
        forall|k: int| 0 <= k < decimal(n).len() ==> is_digit(#[trigger] decimal(n)[k]),
    decreases n,
{
    if n >= 10 {
        lemma_decimal_digits(n / 10);
        let prev = decimal(n / 10);
        assert forall|k: int| 0 <= k < decimal(n).len() implies is_digit(#[trigger] decimal(n)[k]) by {
            if k < prev.len() {
                assert(decimal(n)[k] == prev[k]);
            }
        }
    }
}

proof fn lemma_digit_run_suffix(r: Seq<char>, s: Seq<char>, k: int)
    requires
        0 <= k <= r.len(),
        r.len() < s.len(),
        s.take(r.len() as int) == r,
        !is_digit(s[r.len() as int]),
    ensures
        digit_run(s, k) == digit_run(r, k),
    decreases r.len() - k,
{
    if k < r.len() {
        assert(s[k] == r[k]);
        lemma_digit_run_suffix(r, s, k + 1);
    }
}

proof fn lemma_strip_suffix(r: Seq<char>, s: Seq<char>, p: int)
    requires
        0 <= p <= r.len(),
        r.len() < s.len(),
        s.take(r.len() as int) == r,
        s[r.len() as int] == '[',
        strip_from(s, r.len() as int) == Seq::<char>::empty(),
    ensures
        strip_from(s, p) == strip_from(r, p),
    decreases r.len() - p,
{
    if p < r.len() {
        assert(s[p] == r[p]);
        if r[p] == '[' {
            lemma_digit_run_suffix(r, s, p + 1);
            lemma_digit_run_bound(r, p + 1);
            let j = p + 1 + digit_run(r, p + 1);
            if j < r.len() {
                assert(s[j] == r[j]);
                lemma_strip_suffix(r, s, j);
                if !(j > p + 1 && r[j] == ']') {
                    assert(s.subrange(p, j) =~= r.subrange(p, j));
                } else {
                    lemma_strip_suffix(r, s, j + 1);
                }
            } else {
                assert(j == r.len());
                assert(s.subrange(p, j) =~= r.subrange(p, j));
                assert(strip_from(r, j) == Seq::<char>::empty());
            }
        } else {
            lemma_strip_suffix(r, s, p + 1);
        }
    }
}

/// Taking repeat indexes out of the name of any occurrence of a repeated item gives what
/// taking them out of the item's own name gives: `NAME[i]` is found under `NAME`.
pub proof fn law_occurrence_name_strips_to_root(root: Seq<char>, index: nat)
    ensures
        stripped(display_for(root, true, index)) == stripped(root),
{
    let d = decimal(index);
    lemma_decimal_digits(index);
    let open_b: Seq<char> = seq!['['];
    let close_b: Seq<char> = seq![']'];
    assert("["@ == open_b) by { reveal_strlit("["); };
    assert("]"@ == close_b) by { reveal_strlit("]"); };
    let s = root + open_b + d + close_b;
    assert(display_for(root, true, index) == s);
    let n = root.len() as int;
    assert(s.take(n) =~= root);
    assert(s[n] == '[');
    // The appended `[digits]` is taken out as a whole.
    assert forall|k: int| n + 1 <= k < n + 1 + d.len() implies is_digit(#[trigger] s[k]) by {
        assert(s[k] == d[k - n - 1]);
    }
    assert(s[n + 1 + d.len()] == ']');
    assert(digit_run(s, n + 1 + d.len()) == 0);
    assert forall|k: int| n + 1 <= k <= n + 1 + d.len() implies #[trigger] digit_run(s, k) == n + 1 + d.len() - k by {
        lemma_digit_run_range(s, k, n + 1 + d.len());
    }
    assert(strip_from(s, n + 2 + d.len()) == Seq::<char>::empty());
    lemma_strip_suffix(root, s, 0);
}

proof fn lemma_digit_run_range(s: Seq<char>, k: int, e: int)
    requires
        0 <= k <= e < s.len(),
        forall|m: int| k <= m < e ==> is_digit(#[trigger] s[m]),
        !is_digit(s[e]),
    ensures
        digit_run(s, k) == e - k,
    decreases e - k,
{
    if k < e {
        lemma_digit_run_range(s, k + 1, e);
    }
}

fn copy_location(l: &Option<SourceLocation>) -> (r: Option<SourceLocation>)
    ensures
        r == *l,
{
    match l {
        Some(x) => Some(SourceLocation { path: copy_string(&x.path), line: x.line, column: x.column }),
        None => None,
    }
}

/// A copy of a diagnostic.
pub fn copy_diagnostic(d: &GuiDiagnostic) -> (r: GuiDiagnostic)
    ensures
        r == *d,
{
    let target = match &d.target {
        DiagnosticTarget::Schema { location } => DiagnosticTarget::Schema { location: copy_location(location) },
        DiagnosticTarget::Field { name, offset, byte_len, offset_valid } => DiagnosticTarget::Field {
            name: copy_string(name),
            offset: *offset,
            byte_len: *byte_len,
            offset_valid: *offset_valid,
        },
        DiagnosticTarget::Search => DiagnosticTarget::Search,
    };
    let snippet = match &d.snippet {
        Some(s) => Some(copy_string(s)),
        None => None,
    };
    GuiDiagnostic { category: d.category, message: copy_string(&d.message), target, snippet }
}

/// The rows of an interpretation that failed, in order.
pub open spec fn failed_rows(rows: Seq<FieldEval>) -> Seq<FieldEval>
    decreases rows.len(),
{
    if rows.len() == 0 {
        Seq::empty()
    } else if rows.last().error is Some {
        failed_rows(rows.drop_last()).push(rows.last())
    } else {
        failed_rows(rows.drop_last())
    }
}

/// Whether `d` is the diagnostic reported for the failed row `e`.
pub open spec fn row_diagnostic(d: GuiDiagnostic, e: FieldEval) -> bool {
    &&& d.category == DiagnosticCategory::Interpretation
    &&& e.error matches Some(m) && d.message@ == m@
    &&& d.snippet is None
    &&& d.target matches DiagnosticTarget::Field { name, offset, byte_len, offset_valid }
        && name@ == e.display_name@ && offset == e.resolved_offset
        && byte_len == e.byte_len && offset_valid == e.offset_valid
}

/// The failed rows of an optional interpretation.
pub open spec fn failed_rows_of(evaluations: Option<&[FieldEval]>) -> Seq<FieldEval> {
    match evaluations {
        Some(e) => failed_rows(e@),
        None => Seq::empty(),
    }
}

/// The diagnostics panel's list: the schema diagnostics, then one for each failed row of
/// the interpretation, in order, then one for a search error.
pub fn collect_diagnostics(schema_diagnostics: &[GuiDiagnostic], evaluations: Option<&[FieldEval]>, search_error: Option<&String>) -> (r: Vec<GuiDiagnostic>)
    ensures
        ({
            let a = schema_diagnostics@.len();
            let failed = failed_rows_of(evaluations);
            &&& r@.len() == a + failed.len() + if search_error is Some { 1int } else { 0int }
            &&& forall|i: int| 0 <= i < a ==> #[trigger] r@[i] == schema_diagnostics@[i]
            &&& forall|i: int| 0 <= i < failed.len() ==> row_diagnostic(#[trigger] r@[a + i], failed[i])
            &&& search_error matches Some(e) ==> r@.last().category == DiagnosticCategory::Search
                && r@.last().message@ == e@ && r@.last().target == DiagnosticTarget::Search
                && r@.last().snippet is None
        }),
{
    let mut out: Vec<GuiDiagnostic> = Vec::new();
    let mut i: usize = 0;
    while i < schema_diagnostics.len()
        invariant
            i <= schema_diagnostics.len(),
            out@.len() == i,
            forall|j: int| 0 <= j < i ==> #[trigger] out@[j] == schema_diagnostics@[j],
        decreases schema_diagnostics.len() - i,
    {
        out.push(copy_diagnostic(&schema_diagnostics[i]));
        i += 1;
    }
    let a = out.len();
    if let Some(evs) = evaluations {
        let mut k: usize = 0;
        assert(evs@.take(0) =~= Seq::<FieldEval>::empty());
        while k < evs.len()
            invariant
                k <= evs.len(),
                a == schema_diagnostics@.len(),
                out@.len() == a + failed_rows(evs@.take(k as int)).len(),
                forall|j: int| 0 <= j < a ==> #[trigger] out@[j] == schema_diagnostics@[j],
                forall|j: int| 0 <= j < failed_rows(evs@.take(k as int)).len()
                    ==> row_diagnostic(#[trigger] out@[a + j], failed_rows(evs@.take(k as int))[j]),
            decreases evs.len() - k,
        {
            assert(evs@.take(k + 1).drop_last() =~= evs@.take(k as int));
            let ghost before = out@;
            if let Some(d) = runtime_diagnostic_from_field_eval(&evs[k]) {
                out.push(d);
            }
            k += 1;
        }
        assert(evs@.take(evs.len() as int) =~= evs@);
    }
    if let Some(e) = search_error {
        out.push(GuiDiagnostic {
            category: DiagnosticCategory::Search,
            message: copy_string(e),
            target: DiagnosticTarget::Search,
            snippet: None,
        });
    }
    out
}

/// The number of diagnostics the panel lists.
pub fn diagnostic_count(schema_diagnostic_count: usize, evaluations: Option<&[FieldEval]>, search_error: bool) -> (n: usize)
    requires
        schema_diagnostic_count + match evaluations { Some(e) => e@.len() as int, None => 0int } + 1 <= usize::MAX,
    ensures
        n == schema_diagnostic_count + failed_rows_of(evaluations).len() + if search_error { 1int } else { 0int },
{
    let mut n: usize = schema_diagnostic_count;
    if let Some(evs) = evaluations {
        let mut k: usize = 0;
        assert(evs@.take(0) =~= Seq::<FieldEval>::empty());
        while k < evs.len()
            invariant
                k <= evs.len(),
                n == schema_diagnostic_count + failed_rows(evs@.take(k as int)).len(),
                failed_rows(evs@.take(k as int)).len() <= k,
                schema_diagnostic_count + evs@.len() + 1 <= usize::MAX,
            decreases evs.len() - k,
        {
            assert(evs@.take(k + 1).drop_last() =~= evs@.take(k as int));
            if evs[k].error.is_some() {
                n += 1;
            }
            k += 1;
        }
        assert(evs@.take(evs.len() as int) =~= evs@);
    }
    proof { lemma_failed_rows_len(evaluations); }
    if search_error {
        n += 1;
    }
    n
}

proof fn lemma_failed_rows_bound(rows: Seq<FieldEval>)
    ensures
        failed_rows(rows).len() <= rows.len(),
    decreases rows.len(),
{
    if rows.len() > 0 {
        lemma_failed_rows_bound(rows.drop_last());
    }
}

proof fn lemma_failed_rows_len(evaluations: Option<&[FieldEval]>)
    ensures
        failed_rows_of(evaluations).len() <= match evaluations { Some(e) => e@.len() as int, None => 0int },
{
    if let Some(e) = evaluations {
        lemma_failed_rows_bound(e@);
    }
}

/// The candidate `first_found` picks has an entry in the source.
pub proof fn lemma_first_found(source: Seq<char>, candidates: Seq<Seq<char>>)
    ensures
        first_found(source, candidates) matches Some(c) ==> entry_line_from(source, c, 0, 0) is Some,
    decreases candidates.len(),
{
    if candidates.len() > 0 && entry_line_from(source, candidates[0], 0, 0) is None {
        lemma_first_found(source, candidates.drop_first());
    }
}

/// The group and child parts of a row name, split at its last `.`, when both are non-empty.
pub open spec fn group_split(name: Seq<char>) -> Option<(Seq<char>, Seq<char>)> {
    match last_dot(name) {
        Some(i) => if 0 < i && i + 1 < name.len() { Some((name.take(i), name.skip(i + 1))) } else { None },
        None => None,
    }
}

/// Whether the field table shows a row under the name filter `query` and the errors-only switch.
pub open spec fn row_kept(eval: FieldEval, query: Seq<char>, errors_only: bool) -> bool {
    !(errors_only && eval.error is None) && name_passes_filter(eval.display_name@, query)
}

/// The shown rows among the first `n` of `evals` that belong to group `group`, in order, each
/// as its child name and its index.
pub open spec fn group_members(evals: Seq<FieldEval>, query: Seq<char>, errors_only: bool, group: Seq<char>, n: int) -> Seq<(Seq<char>, int)>
    decreases n,
{
    if n <= 0 {
        Seq::empty()
    } else {
        let prev = group_members(evals, query, errors_only, group, n - 1);
        let eval = evals[n - 1];
        if row_kept(eval, query, errors_only) {
            match group_split(eval.display_name@) {
                Some((g, c)) => if g == group { prev.push((c, n - 1)) } else { prev },
                None => prev,
            }
        } else {
            prev
        }
    }
}

/// The entries of the field table made from the first `n` rows: a shown row whose name has no
/// group is an entry of its own (no group name, the row alone); the first shown row of a group
/// stands for the group, with every shown row of that group in `evals`. Rows are given by index.
pub open spec fn table_entries(evals: Seq<FieldEval>, query: Seq<char>, errors_only: bool, n: int) -> Seq<(Option<Seq<char>>, Seq<(Seq<char>, int)>)>
    decreases n,
{
    if n <= 0 {
        Seq::empty()
    } else {
        let prev = table_entries(evals, query, errors_only, n - 1);
        let eval = evals[n - 1];
        if !row_kept(eval, query, errors_only) {
            prev
        } else {
            match group_split(eval.display_name@) {
                None => prev.push((None, seq![(eval.display_name@, n - 1)])),
                Some((g, _)) => if group_members(evals, query, errors_only, g, n - 1).len() == 0 {
                    prev.push((Some(g), group_members(evals, query, errors_only, g, evals.len() as int)))
                } else {
                    prev
                },
            }
        }
    }
}

/// A row of the field table inside a group: its name within the group, and the row.
#[derive(Debug)]
pub struct FieldTableChild<'a> {
    pub name: String,
    pub eval: &'a FieldEval,
}

/// An entry of the field table: a row whose name has no group, or a group and its rows.
#[derive(Debug)]
pub enum FieldTableItem<'a> {
    Ungrouped(&'a FieldEval),
    Group { name: String, children: Vec<FieldTableChild<'a>> },
}

/// Whether `item` is the table entry `entry`, whose rows are indexes into `evals`.
pub open spec fn item_is_entry(item: FieldTableItem, evals: Seq<FieldEval>, entry: (Option<Seq<char>>, Seq<(Seq<char>, int)>)) -> bool {
    match item {
        FieldTableItem::Ungrouped(eval) => entry.0 is None && entry.1.len() == 1 && *eval == evals[entry.1[0].1],
        FieldTableItem::Group { name, children } => {
            &&& entry.0 == Some(name@)
            &&& children@.len() == entry.1.len()
            &&& forall|k: int| 0 <= k < children@.len() ==>
                (#[trigger] children@[k]).name@ == entry.1[k].0 && *children@[k].eval == evals[entry.1[k].1]
        },
    }
}

/// The shown rows of group `group` with their child names, and whether none of them comes
/// before row `first`.
fn group_children<'a>(evaluations: &'a [FieldEval], filter_query: &str, filter_errors_only: bool, group: &str, first: usize) -> (r: (Vec<FieldTableChild<'a>>, bool))
    requires
        first <= evaluations@.len(),
    ensures
        ({
            let m = group_members(evaluations@, filter_query@, filter_errors_only, group@, evaluations@.len() as int);
            &&& r.0@.len() == m.len()
            &&& forall|k: int| 0 <= k < m.len() ==>
                (#[trigger] r.0@[k]).name@ == m[k].0 && *r.0@[k].eval == evaluations@[m[k].1]
        }),
        r.1 == (group_members(evaluations@, filter_query@, filter_errors_only, group@, first as int).len() == 0),
{
    let ghost evals = evaluations@;
    let mut children: Vec<FieldTableChild<'a>> = Vec::new();
    let mut none_before = true;
    let mut j: usize = 0;
    while j < evaluations.len()
        invariant
            j <= evaluations@.len(),
            first <= evaluations@.len(),
            evals == evaluations@,
            ({
                let m = group_members(evals, filter_query@, filter_errors_only, group@, j as int);
                &&& children@.len() == m.len()
                &&& forall|k: int| 0 <= k < m.len() ==>
                    (#[trigger] children@[k]).name@ == m[k].0 && *children@[k].eval == evals[m[k].1]
            }),
            none_before == (group_members(evals, filter_query@, filter_errors_only, group@, if j <= first { j as int } else { first as int }).len() == 0),
        decreases evaluations@.len() - j,
    {
        let eval = &evaluations[j];
        if field_matches_filter(eval, filter_query, filter_errors_only) {
            if let Some((g, c)) = split_field_group(eval.display_name.as_str()) {
                if str_equal(g, group) {
                    children.push(FieldTableChild { name: c.to_owned(), eval });
                    if j < first {
                        none_before = false;
                    }
                }
            }
        }
        j += 1;
    }
    (children, none_before)
}

/// The field table for the rows that pass the filter: rows named `group.child` are gathered
/// under their group, in the place of the group's first shown row; other rows stand alone.
pub fn filtered_field_items<'a>(evaluations: &'a [FieldEval], filter_query: &str, filter_errors_only: bool) -> (r: Vec<FieldTableItem<'a>>)
    ensures
        ({
            let entries = table_entries(evaluations@, filter_query@, filter_errors_only, evaluations@.len() as int);
            &&& r@.len() == entries.len()
            &&& forall|k: int| 0 <= k < entries.len() ==> item_is_entry(#[trigger] r@[k], evaluations@, entries[k])
        }),
{
    let ghost evals = evaluations@;
    let mut items: Vec<FieldTableItem<'a>> = Vec::new();
    let mut i: usize = 0;
    while i < evaluations.len()
        invariant
            i <= evaluations@.len(),
            evals == evaluations@,
            ({
                let entries = table_entries(evals, filter_query@, filter_errors_only, i as int);
                &&& items@.len() == entries.len()
                &&& forall|k: int| 0 <= k < entries.len() ==> item_is_entry(#[trigger] items@[k], evals, entries[k])
            }),
        decreases evaluations@.len() - i,
    {
        let eval = &evaluations[i];
        if field_matches_filter(eval, filter_query, filter_errors_only) {
            match split_field_group(eval.display_name.as_str()) {
                None => {
                    items.push(FieldTableItem::Ungrouped(eval));
                },
                Some((group, _)) => {
                    let (children, first) = group_children(evaluations, filter_query, filter_errors_only, group, i);
                    if first {
                        items.push(FieldTableItem::Group { name: group.to_owned(), children });
                    }
                },
            }
        }
        i += 1;
    }
    items
}

/// The number of rows a table entry holds.
pub open spec fn item_rows(item: FieldTableItem) -> int {
    match item {
        FieldTableItem::Ungrouped(_) => 1,
        FieldTableItem::Group { children, .. } => children@.len() as int,
    }
}

/// The number of rows in a list of table entries.
pub open spec fn items_field_count(items: Seq<FieldTableItem>) -> int
    decreases items.len(),
{
    if items.len() == 0 {
        0
    } else {
        items_field_count(items.drop_last()) + item_rows(items.last())
    }
}

impl<'a> FieldTableItem<'a> {
    /// The number of rows the entry holds.
    pub fn field_count(&self) -> (n: usize)
        ensures
            n as int == item_rows(*self),
    {
        match self {
            FieldTableItem::Ungrouped(_) => 1,
            FieldTableItem::Group { children, .. } => children.len(),
        }
    }
}

/// The number of rows in the field table.
pub fn field_item_count(items: &[FieldTableItem]) -> (n: usize)
    requires
        items_field_count(items@) <= usize::MAX,
    ensures
        n as int == items_field_count(items@),
{
    let mut total: usize = 0;
    let mut i: usize = 0;
    while i < items.len()
        invariant
            i <= items@.len(),
            items_field_count(items@) <= usize::MAX,
            total as int == items_field_count(items@.take(i as int)),
        decreases items@.len() - i,
    {
        proof {
            assert(items@.take(i + 1).drop_last() =~= items@.take(i as int));
            assert(items@.take(i + 1).last() == items@[i as int]);
            lemma_items_field_count_prefix(items@, i as int + 1);
            lemma_items_field_count_nonneg(items@.take(i as int));
        }
        total = total + items[i].field_count();
        i += 1;
    }
    assert(items@.take(i as int) =~= items@);
    total
}

/// A prefix of a table holds no more rows than the table.
proof fn lemma_items_field_count_prefix(items: Seq<FieldTableItem>, n: int)
    requires
        0 <= n <= items.len(),
    ensures
        0 <= items_field_count(items.take(n)) <= items_field_count(items),
    decreases items.len(),
{
    if n == items.len() {
        assert(items.take(n) =~= items);
        lemma_items_field_count_nonneg(items);
    } else {
        assert(items.drop_last().take(n) =~= items.take(n));
        lemma_items_field_count_prefix(items.drop_last(), n);
    }
}

proof fn lemma_items_field_count_nonneg(items: Seq<FieldTableItem>)
    ensures
        0 <= items_field_count(items),
    decreases items.len(),
{
    if items.len() > 0 {
        lemma_items_field_count_nonneg(items.drop_last());
    }
}

/// Whether a row's name puts it in group `group`.
pub open spec fn in_group(eval: FieldEval, group: Seq<char>) -> bool {
    match group_split(eval.display_name@) {
        Some((g, _)) => g == group,
        None => false,
    }
}

/// Whether row `index` is listed in some entry of `entries`.
pub open spec fn listed(entries: Seq<(Option<Seq<char>>, Seq<(Seq<char>, int)>)>, index: int) -> bool {
    exists|k: int, p: int| 0 <= k < entries.len() && 0 <= p < entries[k].1.len() && (#[trigger] entries[k].1[p]).1 == index
}

/// The shown rows of a group among the first `n` rows: each is a shown row of that group, with
/// its child name; they come in increasing order; and every shown row of the group is there.
proof fn lemma_group_members(evals: Seq<FieldEval>, query: Seq<char>, errors_only: bool, group: Seq<char>, n: int)
    requires
        0 <= n <= evals.len(),
    ensures
        ({
            let m = group_members(evals, query, errors_only, group, n);
            &&& forall|p: int| 0 <= p < m.len() ==> {
                let j = (#[trigger] m[p]).1;
                &&& 0 <= j < n
                &&& row_kept(evals[j], query, errors_only)
                &&& group_split(evals[j].display_name@) == Some((group, m[p].0))
            }
            &&& forall|p1: int, p2: int| 0 <= p1 < p2 < m.len() ==> (#[trigger] m[p1]).1 < (#[trigger] m[p2]).1
            &&& forall|j: int| 0 <= j < n && row_kept(#[trigger] evals[j], query, errors_only) && in_group(evals[j], group)
                ==> exists|p: int| 0 <= p < m.len() && (#[trigger] m[p]).1 == j
        }),
    decreases n,
{
    if n > 0 {
        lemma_group_members(evals, query, errors_only, group, n - 1);
        let prev = group_members(evals, query, errors_only, group, n - 1);
        let m = group_members(evals, query, errors_only, group, n);
        assert forall|j: int| 0 <= j < n && row_kept(#[trigger] evals[j], query, errors_only) && in_group(evals[j], group)
            implies exists|p: int| 0 <= p < m.len() && (#[trigger] m[p]).1 == j by {
            if j < n - 1 {
                let p = choose|p: int| 0 <= p < prev.len() && (#[trigger] prev[p]).1 == j;
                assert(m[p] == prev[p]);
            } else {
                assert(m[m.len() - 1].1 == j);
            }
        }
    }
}

/// The entries made from the first `n` rows: an entry without a group name holds one shown
/// row below `n` that has no group; an entry with a group name holds every shown row of the
/// group, and the group has a shown row below `n`; no two entries share a group name or a row
/// without a group; and every such row and group below `n` has its entry.
proof fn lemma_table_entries(evals: Seq<FieldEval>, query: Seq<char>, errors_only: bool, n: int)
    requires
        0 <= n <= evals.len(),
    ensures
        ({
            let e = table_entries(evals, query, errors_only, n);
            &&& forall|k: int| 0 <= k < e.len() && (#[trigger] e[k]).0 is None ==> {
                let j = e[k].1[0].1;
                &&& e[k].1.len() == 1
                &&& 0 <= j < n
                &&& row_kept(evals[j], query, errors_only)
                &&& group_split(evals[j].display_name@) is None
            }
            &&& forall|k: int| 0 <= k < e.len() && (#[trigger] e[k]).0 is Some ==> {
                let g = e[k].0->Some_0;
                &&& e[k].1 == group_members(evals, query, errors_only, g, evals.len() as int)
                &&& group_members(evals, query, errors_only, g, n).len() > 0
            }
            &&& forall|k1: int, k2: int| 0 <= k1 < k2 < e.len() && (#[trigger] e[k1]).0 is Some && (#[trigger] e[k2]).0 is Some
                ==> e[k1].0 != e[k2].0
            &&& forall|k1: int, k2: int| 0 <= k1 < k2 < e.len() && (#[trigger] e[k1]).0 is None && (#[trigger] e[k2]).0 is None
                ==> e[k1].1[0].1 < e[k2].1[0].1
            &&& forall|j: int| 0 <= j < n && row_kept(#[trigger] evals[j], query, errors_only) && group_split(evals[j].display_name@) is None
                ==> exists|k: int| 0 <= k < e.len() && (#[trigger] e[k]).0 is None && e[k].1[0].1 == j
            &&& forall|g: Seq<char>| #[trigger] group_members(evals, query, errors_only, g, n).len() > 0
                ==> exists|k: int| 0 <= k < e.len() && (#[trigger] e[k]).0 == Some(g)
        }),
    decreases n,
{
    if n > 0 {
        lemma_table_entries(evals, query, errors_only, n - 1);
        let prev = table_entries(evals, query, errors_only, n - 1);
        let e = table_entries(evals, query, errors_only, n);
        let eval = evals[n - 1];
        assert forall|k: int| 0 <= k < prev.len() implies #[trigger] e[k] == prev[k] by {}
        assert forall|g: Seq<char>| group_members(evals, query, errors_only, g, n - 1).len()
            <= #[trigger] group_members(evals, query, errors_only, g, n).len() by {}
        assert forall|j: int| 0 <= j < n && row_kept(#[trigger] evals[j], query, errors_only) && group_split(evals[j].display_name@) is None
            implies exists|k: int| 0 <= k < e.len() && (#[trigger] e[k]).0 is None && e[k].1[0].1 == j by {
            if j < n - 1 {
                let k = choose|k: int| 0 <= k < prev.len() && (#[trigger] prev[k]).0 is None && prev[k].1[0].1 == j;
                assert(e[k] == prev[k]);
            } else {
                assert(e[e.len() - 1].0 is None);
            }
        }
        assert forall|g: Seq<char>| #[trigger] group_members(evals, query, errors_only, g, n).len() > 0
            implies exists|k: int| 0 <= k < e.len() && (#[trigger] e[k]).0 == Some(g) by {
            if group_members(evals, query, errors_only, g, n - 1).len() > 0 {
                let k = choose|k: int| 0 <= k < prev.len() && (#[trigger] prev[k]).0 == Some(g);
                assert(e[k] == prev[k]);
            } else {
                assert(e[e.len() - 1].0 == Some(g));
            }
        }
    }
}

/// Every row that passes the filter is listed in the field table exactly once, and no other
/// row is listed.
pub proof fn law_table_lists_each_shown_row_once(evals: Seq<FieldEval>, query: Seq<char>, errors_only: bool)
    ensures
        ({
            let e = table_entries(evals, query, errors_only, evals.len() as int);
            &&& forall|j: int| listed(e, j) <==> 0 <= j < evals.len() && row_kept(evals[j], query, errors_only)
            &&& forall|k1: int, p1: int, k2: int, p2: int|
                0 <= k1 < e.len() && 0 <= p1 < e[k1].1.len() && 0 <= k2 < e.len() && 0 <= p2 < e[k2].1.len()
                && (#[trigger] e[k1].1[p1]).1 == (#[trigger] e[k2].1[p2]).1
                ==> k1 == k2 && p1 == p2
        }),
{
    let n = evals.len() as int;
    let e = table_entries(evals, query, errors_only, n);
    lemma_table_entries(evals, query, errors_only, n);
    assert forall|j: int| listed(e, j) <==> 0 <= j < n && row_kept(evals[j], query, errors_only) by {
        if listed(e, j) {
            let (k, p) = choose|k: int, p: int| 0 <= k < e.len() && 0 <= p < e[k].1.len() && (#[trigger] e[k].1[p]).1 == j;
            if e[k].0 is Some {
                lemma_group_members(evals, query, errors_only, e[k].0->Some_0, n);
                assert(e[k].1[p] == group_members(evals, query, errors_only, e[k].0->Some_0, n)[p]);
            } else {
                assert(e[k].0 is None);
            }
        }
        if 0 <= j < n && row_kept(evals[j], query, errors_only) {
            match group_split(evals[j].display_name@) {
                None => {
                    let k = choose|k: int| 0 <= k < e.len() && (#[trigger] e[k]).0 is None && e[k].1[0].1 == j;
                    assert(e[k].1[0].1 == j);
                },
                Some((g, c)) => {
                    lemma_group_members(evals, query, errors_only, g, n);
                    let m = group_members(evals, query, errors_only, g, n);
                    assert(in_group(evals[j], g));
                    let p = choose|p: int| 0 <= p < m.len() && (#[trigger] m[p]).1 == j;
                    let k = choose|k: int| 0 <= k < e.len() && (#[trigger] e[k]).0 == Some(g);
                    assert(e[k].1[p].1 == j);
                },
            }
        }
    }
    assert forall|k1: int, p1: int, k2: int, p2: int|
        0 <= k1 < e.len() && 0 <= p1 < e[k1].1.len() && 0 <= k2 < e.len() && 0 <= p2 < e[k2].1.len()
        && (#[trigger] e[k1].1[p1]).1 == (#[trigger] e[k2].1[p2]).1
        implies k1 == k2 && p1 == p2 by {
        let j = e[k1].1[p1].1;
        if e[k1].0 is Some {
            let g1 = e[k1].0->Some_0;
            lemma_group_members(evals, query, errors_only, g1, n);
            let m1 = group_members(evals, query, errors_only, g1, n);
            assert(m1[p1] == e[k1].1[p1]);
        }
        if e[k2].0 is Some {
            let g2 = e[k2].0->Some_0;
            lemma_group_members(evals, query, errors_only, g2, n);
            let m2 = group_members(evals, query, errors_only, g2, n);
            assert(m2[p2] == e[k2].1[p2]);
        }
        if e[k1].0 is Some && e[k2].0 is Some {
            let m = e[k1].1;
            if k1 != k2 {
                if k1 < k2 { assert(e[k1].0 != e[k2].0); } else { assert(e[k2].0 != e[k1].0); }
            }
            if p1 < p2 { assert(m[p1].1 < m[p2].1); }
            if p2 < p1 { assert(m[p2].1 < m[p1].1); }
        } else if e[k1].0 is None && e[k2].0 is None {
            if k1 < k2 { assert(e[k1].1[0].1 < e[k2].1[0].1); }
            if k2 < k1 { assert(e[k2].1[0].1 < e[k1].1[0].1); }
        }
    }
}

/// The text of a field's value in the viewer's field table; none for a float, whose text is
/// left to the caller.
pub open spec fn gui_value_text(v: FieldValueView, byte_len: usize) -> Option<Seq<char>> {
    match v {
        FieldValueView::UInt(n) => Some(integer_text(decimal(n as nat), n as nat)),
        FieldValueView::Int(n) => Some(integer_text(signed_decimal(n as int), twos_complement(n))),
        FieldValueView::Float(_) => None,
        FieldValueView::Bytes(b) => Some(bytes_text(b, byte_len, false)),
        FieldValueView::Ascii(t) => Some(ascii_preview_text(t, byte_len)),
    }
}

/// Shows a field's value in the viewer's field table, or nothing for a float.
pub fn format_value(value: &FieldValue, byte_len: usize) -> (r: Option<String>)
    ensures
        match r {
            Some(s) => gui_value_text(value@, byte_len) == Some(s@),
            None => gui_value_text(value@, byte_len) is None,
        },
{
    match value {
        FieldValue::Bytes(bytes) => Some(format_bytes_preview(bytes.as_slice(), byte_len)),
        FieldValue::Ascii(text) => Some(format_ascii_preview(text.as_str(), byte_len)),
        _ => render_field_value(value, byte_len, false, false),
    }
}


/// The name filter ignores case: two queries whose trimmed texts have the same lower-case
/// form (both empty or both not) let the same names through, and two names with the same
/// lower-case form pass the same queries.
pub proof fn law_name_filter_ignores_case(n1: Seq<char>, n2: Seq<char>, q1: Seq<char>, q2: Seq<char>)
    requires
        lowercase(trimmed(q1)) == lowercase(trimmed(q2)),
        trimmed(q1).len() == 0 <==> trimmed(q2).len() == 0,
    ensures
        name_passes_filter(n1, q1) == name_passes_filter(n1, q2),
        lowercase(n1) == lowercase(n2) ==> name_passes_filter(n1, q1) == name_passes_filter(n2, q1),
{
}

} // verus!
