//! Rendering interpreted values as text: offsets, type names, byte dumps and escaped strings.
use vstd::prelude::*;
use crate::ast::{FieldDef, FieldType};
use crate::interpret::{FieldValue, FieldValueView};
use crate::text::{chars_of, char_utf8_width, decimal, hex_lower, hex_upper, i64_to_decimal, pad_zeros, push_char, signed_decimal, u32_to_hex_lower, u64_to_decimal, u64_to_hex_upper, utf8_width, zero_pad};

verus! {

/// Unless the full value is asked for, a value longer than this many bytes is shown cut.
pub const MAX_DISPLAY_BYTES: usize = 256;

/// `"V (0xHHHHHHHH)"` for an offset, `"-"` for none.
pub open spec fn offset_text(offset: Option<u64>) -> Seq<char> {
    match offset {
        Some(v) => decimal(v as nat) + " (0x"@ + zero_pad(hex_upper(v as nat), 8) + ")"@,
        None => "-"@,
    }
}

/// Renders an offset in decimal and as eight hex digits.
pub fn render_offset(offset: Option<u64>) -> (s: String)
    ensures
        s@ == offset_text(offset),
{
    match offset {
        Some(v) => {
            let mut s = u64_to_decimal(v);
            s.append(" (0x");
            let h = pad_zeros(u64_to_hex_upper(v), 8);
            s.append(h.as_str());
            s.append(")");
            s
        },
        None => String::from_str("-"),
    }
}

/// The name of a field's type; byte and text fields carry their length.
pub open spec fn type_text(ty: FieldType, byte_len: usize) -> Seq<char> {
    match ty {
        FieldType::U8 => "u8"@,
        FieldType::U16 => "u16"@,
        FieldType::U32 => "u32"@,
        FieldType::U64 => "u64"@,
        FieldType::I32 => "i32"@,
        FieldType::F32 => "f32"@,
        FieldType::Bytes => "bytes["@ + decimal(byte_len as nat) + "]"@,
        FieldType::Ascii => "ascii["@ + decimal(byte_len as nat) + "]"@,
    }
}

/// Renders the type column of a field: `u16`, `bytes[4]`, ...
pub fn render_field_type(field: &FieldDef, byte_len: usize) -> (s: String)
    ensures
        s@ == type_text(field.ty, byte_len),
{
    match field.ty {
        FieldType::U8 => String::from_str("u8"),
        FieldType::U16 => String::from_str("u16"),
        FieldType::U32 => String::from_str("u32"),
        FieldType::U64 => String::from_str("u64"),
        FieldType::I32 => String::from_str("i32"),
        FieldType::F32 => String::from_str("f32"),
        FieldType::Bytes => {
            let mut s = String::from_str("bytes[");
            let n = u64_to_decimal(byte_len as u64);
            s.append(n.as_str());
            s.append("]");
            s
        },
        FieldType::Ascii => {
            let mut s = String::from_str("ascii[");
            let n = u64_to_decimal(byte_len as u64);
            s.append(n.as_str());
            s.append("]");
            s
        },
    }
}

/// A byte as two upper-case hex digits.
pub open spec fn byte_hex(b: u8) -> Seq<char> {
    zero_pad(hex_upper(b as nat), 2)
}

/// Bytes as two-digit hex numbers separated by single spaces.
pub open spec fn hex_dump(bytes: Seq<u8>) -> Seq<char>
    decreases bytes.len(),
{
    if bytes.len() == 0 {
        Seq::empty()
    } else if bytes.len() == 1 {
        byte_hex(bytes[0])
    } else {
        hex_dump(bytes.drop_last()) + " "@ + byte_hex(bytes.last())
    }
}

/// The hex rendering of a byte value whose field is `byte_len` bytes long: all bytes, or,
/// for a long field when the full value is not asked for, the first `MAX_DISPLAY_BYTES`
/// followed by `...` and the field's length.
pub open spec fn bytes_text(bytes: Seq<u8>, byte_len: usize, full_bytes: bool) -> Seq<char> {
    if !full_bytes && byte_len > MAX_DISPLAY_BYTES {
        let shown = if bytes.len() <= MAX_DISPLAY_BYTES { bytes } else { bytes.take(MAX_DISPLAY_BYTES as int) };
        let parts = if shown.len() == 0 { "..."@ } else { hex_dump(shown) + " "@ + "..."@ };
        parts + " ("@ + decimal(byte_len as nat) + " bytes)"@
    } else {
        hex_dump(bytes)
    }
}

fn byte_to_hex(b: u8) -> (s: String)
    ensures
        s@ == byte_hex(b),
{
    pad_zeros(u64_to_hex_upper(b as u64), 2)
}

fn hex_dump_prefix(bytes: &[u8], n: usize) -> (s: String)
    requires
        n <= bytes@.len(),
    ensures
        s@ == hex_dump(bytes@.take(n as int)),
{
    let mut s = String::new();
    let mut i: usize = 0;
    while i < n
        invariant
            i <= n,
            n <= bytes@.len(),
            s@ == hex_dump(bytes@.take(i as int)),
        decreases n - i,
    {
        if i > 0 {
            s.append(" ");
        }
        let h = byte_to_hex(bytes[i]);
        s.append(h.as_str());
        proof {
            assert(bytes@.take(i + 1).drop_last() =~= bytes@.take(i as int));
        }
        i += 1;
    }
    s
}

/// Renders a byte value as hex, cut to `MAX_DISPLAY_BYTES` for a long field unless
/// `full_bytes` is set.
pub fn render_bytes(bytes: &[u8], byte_len: usize, full_bytes: bool) -> (s: String)
    ensures
        s@ == bytes_text(bytes@, byte_len, full_bytes),
{
    let cut = !full_bytes && byte_len > MAX_DISPLAY_BYTES;
    let display_len = if !cut || bytes.len() <= MAX_DISPLAY_BYTES { bytes.len() } else { MAX_DISPLAY_BYTES };
    let mut s = hex_dump_prefix(bytes, display_len);
    assert(bytes@.take(bytes@.len() as int) =~= bytes@);
    if cut {
        let ghost dump = s@;
        if display_len > 0 {
            s.append(" ");
            s.append("...");
        } else {
            s.append("...");
        }
        let ghost parts = s@;
        s.append(" (");
        let n = u64_to_decimal(byte_len as u64);
        s.append(n.as_str());
        s.append(" bytes)");
        assert(s@ =~= parts + " ("@ + decimal(byte_len as nat) + " bytes)"@);
    }
    s
}

/// How `char::escape_default` writes a character: the usual backslash escapes for tab,
/// carriage return, line feed, quotes and backslash; printable ASCII as itself; anything
/// else as `\u{..}` with lower-case hex digits.
pub open spec fn escaped_char(c: char) -> Seq<char> {
    if c == '\t' { seq!['\\', 't'] }
    else if c == '\r' { seq!['\\', 'r'] }
    else if c == '\n' { seq!['\\', 'n'] }
    else if c == '\'' { seq!['\\', '\''] }
    else if c == '"' { seq!['\\', '"'] }
    else if c == '\\' { seq!['\\', '\\'] }
    else if ' ' <= c && c <= '~' { seq![c] }
    else { seq!['\\', 'u', '{'] + hex_lower(c as nat) + seq!['}'] }
}

/// Every character of `s` escaped.
pub open spec fn escaped_text(s: Seq<char>) -> Seq<char>
    decreases s.len(),
{
    if s.len() == 0 { Seq::empty() } else { escaped_text(s.drop_last()) + escaped_char(s.last()) }
}

/// The number of leading characters of `s` that fit in `max` bytes of UTF-8.
pub open spec fn fitting_prefix(s: Seq<char>, max: nat) -> nat
    decreases s.len(),
{
    if s.len() == 0 || utf8_width(s[0]) > max {
        0
    } else {
        1 + fitting_prefix(s.drop_first(), (max - utf8_width(s[0])) as nat)
    }
}

/// Appends the escaped form of `c`.
fn push_escaped(s: &mut String, c: char)
    ensures
        final(s)@ == old(s)@ + escaped_char(c),
{
    if c == '\t' {
        push_char(s, '\\');
        push_char(s, 't');
    } else if c == '\r' {
        push_char(s, '\\');
        push_char(s, 'r');
    } else if c == '\n' {
        push_char(s, '\\');
        push_char(s, 'n');
    } else if c == '\'' {
        push_char(s, '\\');
        push_char(s, '\'');
    } else if c == '"' {
        push_char(s, '\\');
        push_char(s, '"');
    } else if c == '\\' {
        push_char(s, '\\');
        push_char(s, '\\');
    } else if ' ' <= c && c <= '~' {
        push_char(s, c);
    } else {
        push_char(s, '\\');
        push_char(s, 'u');
        push_char(s, '{');
        let h = u32_to_hex_lower(c as u32);
        s.append(h.as_str());
        push_char(s, '}');
    }
    assert(final(s)@ =~= old(s)@ + escaped_char(c));
}

/// Taking one more character that fits leaves the rest with that many fewer bytes.
pub proof fn lemma_fitting_prefix_step(s: Seq<char>, i: int, max: nat)
    requires
        0 <= i < s.len(),
        utf8_width(s[i]) <= max,
    ensures
        fitting_prefix(s.skip(i), max) == 1 + fitting_prefix(s.skip(i + 1), (max - utf8_width(s[i])) as nat),
{
    assert(s.skip(i).drop_first() =~= s.skip(i + 1));
}

/// Renders the longest leading part of `text` that fits in `max_bytes` bytes of UTF-8, with
/// every character escaped as `char::escape_default` does.
pub fn render_ascii_preview(text: &str, max_bytes: usize) -> (s: String)
    ensures
        s@ == escaped_text(text@.take(fitting_prefix(text@, max_bytes as nat) as int)),
{
    let chars = chars_of(text);
    let mut s = String::new();
    let mut used: usize = 0;
    let mut i: usize = 0;
    assert(text@.skip(0) =~= text@);
    while i < chars.len()
        invariant_except_break
            i <= chars.len(),
            chars@ == text@,
            used <= max_bytes,
            fitting_prefix(text@, max_bytes as nat) == i + fitting_prefix(text@.skip(i as int), (max_bytes - used) as nat),
            s@ == escaped_text(text@.take(i as int)),
        ensures
            i <= chars.len(),
            s@ == escaped_text(text@.take(i as int)),
            fitting_prefix(text@, max_bytes as nat) == i,
        decreases chars.len() - i,
    {
        let c = chars[i];
        let w = char_utf8_width(c);
        if w > max_bytes - used {
            break;
        }
        proof {
            lemma_fitting_prefix_step(text@, i as int, (max_bytes - used) as nat);
            assert(text@.take(i + 1).drop_last() =~= text@.take(i as int));
        }
        push_escaped(&mut s, c);
        used += w;
        i += 1;
    }
    s
}

/// `rendered` in double quotes when `quote` is set.
pub open spec fn quoted(rendered: Seq<char>, quote: bool) -> Seq<char> {
    if quote { "\""@ + rendered + "\""@ } else { rendered }
}

/// Puts `rendered` in double quotes when `quote_ascii` is set.
pub fn maybe_quote(rendered: String, quote_ascii: bool) -> (s: String)
    ensures
        s@ == quoted(rendered@, quote_ascii),
{
    if quote_ascii {
        let mut s = String::from_str("\"");
        s.append(rendered.as_str());
        s.append("\"");
        s
    } else {
        rendered
    }
}

/// The rendering of a text value whose field is `byte_len` bytes long: escaped, cut to
/// `MAX_DISPLAY_BYTES` bytes with `...` and the length for a long field unless the full
/// value is asked for, and quoted when `quote` is set.
pub open spec fn ascii_text(text: Seq<char>, byte_len: usize, full_bytes: bool, quote: bool) -> Seq<char> {
    let rendered = if full_bytes || byte_len <= MAX_DISPLAY_BYTES {
        escaped_text(text.take(fitting_prefix(text, usize::MAX as nat) as int))
    } else {
        escaped_text(text.take(fitting_prefix(text, MAX_DISPLAY_BYTES as nat) as int))
            + "... ("@ + decimal(byte_len as nat) + " bytes)"@
    };
    quoted(rendered, quote)
}

/// Renders a text value: escaped, cut for a long field unless `full_bytes` is set, and
/// quoted when `quote_ascii` is set.
pub fn render_ascii(text: &str, byte_len: usize, full_bytes: bool, quote_ascii: bool) -> (s: String)
    ensures
        s@ == ascii_text(text@, byte_len, full_bytes, quote_ascii),
{
    let rendered = if full_bytes || byte_len <= MAX_DISPLAY_BYTES {
        render_ascii_preview(text, usize::MAX)
    } else {
        let mut r = render_ascii_preview(text, MAX_DISPLAY_BYTES);
        r.append("... (");
        let n = u64_to_decimal(byte_len as u64);
        r.append(n.as_str());
        r.append(" bytes)");
        r
    };
    maybe_quote(rendered, quote_ascii)
}

/// The 64 bits of `v` read as an unsigned number (its two's complement).
pub open spec fn twos_complement(v: i64) -> nat {
    if v < 0 { (v + 0x1_0000_0000_0000_0000int) as nat } else { v as nat }
}

/// How a whole number is shown: its decimal text, then its hex digits in brackets.
pub open spec fn integer_text(dec: Seq<char>, hex_of: nat) -> Seq<char> {
    dec + " (0x"@ + hex_upper(hex_of) + ")"@
}

/// The text of a field's value, as the field table shows it; none for a float, whose text
/// is left to the caller.
pub open spec fn value_text(v: FieldValueView, byte_len: usize, full_bytes: bool, quote: bool) -> Option<Seq<char>> {
    match v {
        FieldValueView::UInt(n) => Some(integer_text(decimal(n as nat), n as nat)),
        FieldValueView::Int(n) => Some(integer_text(signed_decimal(n as int), twos_complement(n))),
        FieldValueView::Float(_) => None,
        FieldValueView::Bytes(b) => Some(bytes_text(b, byte_len, full_bytes)),
        FieldValueView::Ascii(t) => Some(ascii_text(t, byte_len, full_bytes, quote)),
    }
}

fn twos_complement_bits(v: i64) -> (r: u64)
    ensures
        r as nat == twos_complement(v),
{
    if v < 0 {
        let m: u64 = (-(v + 1)) as u64;
        u64::MAX - m
    } else {
        v as u64
    }
}

fn integer_string(dec: String, hex_of: u64) -> (s: String)
    ensures
        s@ == integer_text(dec@, hex_of as nat),
{
    let mut s = dec;
    s.append(" (0x");
    let h = u64_to_hex_upper(hex_of);
    s.append(h.as_str());
    s.append(")");
    s
}

/// Renders a field's value as the field table shows it, or nothing for a float.
pub fn render_field_value(value: &FieldValue, byte_len: usize, full_bytes: bool, quote_ascii: bool) -> (r: Option<String>)
    ensures
        match r {
            Some(s) => value_text(value@, byte_len, full_bytes, quote_ascii) == Some(s@),
            None => value_text(value@, byte_len, full_bytes, quote_ascii) is None,
        },
{
    match value {
        FieldValue::UInt(v) => Some(integer_string(u64_to_decimal(*v), *v)),
        FieldValue::Int(v) => Some(integer_string(i64_to_decimal(*v), twos_complement_bits(*v))),
        FieldValue::Float(_) => None,
        FieldValue::Bytes(bytes) => Some(render_bytes(bytes.as_slice(), byte_len, full_bytes)),
        FieldValue::Ascii(text) => Some(render_ascii(text.as_str(), byte_len, full_bytes, quote_ascii)),
    }
}


/// The value column of the table for a field: its value's text, or `-` when it has no
/// value; none for a float, whose text is left to the caller.
pub open spec fn table_value_text(value: Option<FieldValueView>, byte_len: usize, full_bytes: bool) -> Option<Seq<char>> {
    match value {
        Some(v) => value_text(v, byte_len, full_bytes, true),
        None => Some("-"@),
    }
}

/// Renders the value column of the table for a field, or nothing for a float.
pub fn render_table_value(value: Option<&FieldValue>, byte_len: usize, full_bytes: bool) -> (r: Option<String>)
    ensures
        match r {
            Some(s) => table_value_text(match value { Some(v) => Some(v@), None => None }, byte_len, full_bytes) == Some(s@),
            None => table_value_text(match value { Some(v) => Some(v@), None => None }, byte_len, full_bytes) is None,
        },
{
    match value {
        Some(v) => render_field_value(v, byte_len, full_bytes, true),
        None => Some(String::from_str("-")),
    }
}

} // verus!
