//! Finding byte patterns in a buffer, and the hex notation search queries are written in.
use vstd::prelude::*;
use crate::buffer::FileBuffer;
use crate::error::buffer_error_text;
use crate::text::{chars_of, char_is_hex_digit, char_is_whitespace, hex_digit_value, hex_value, is_hex_digit, is_whitespace_char, push_char};

verus! {

/// The number of bytes scanned per chunk; a chunk also reads the pattern's length minus one
/// bytes past its end so that matches across chunk boundaries are found.
pub const SEARCH_CHUNK_SIZE: usize = 65536;

/// The index of the first character that is neither a hex digit nor whitespace.
pub open spec fn first_invalid_hex_char(s: Seq<char>) -> Option<int>
    decreases s.len(),
{
    if s.len() == 0 {
        None
    } else {
        match first_invalid_hex_char(s.drop_last()) {
            Some(i) => Some(i),
            None => if is_hex_digit(s.last()) || is_whitespace_char(s.last()) { None } else { Some(s.len() - 1) },
        }
    }
}

/// The hex digits of `s`, in order.
pub open spec fn hex_digits_of(s: Seq<char>) -> Seq<char>
    decreases s.len(),
{
    if s.len() == 0 {
        Seq::empty()
    } else if is_hex_digit(s.last()) {
        hex_digits_of(s.drop_last()).push(s.last())
    } else {
        hex_digits_of(s.drop_last())
    }
}

/// The bytes that consecutive pairs of hex digits stand for.
pub open spec fn hex_pairs(d: Seq<char>) -> Seq<u8> {
    Seq::new(d.len() / 2, |k: int| (16 * hex_value(d[2 * k]) + hex_value(d[2 * k + 1])) as u8)
}

/// What `parse_hex_pattern` gives for the characters `s`.
pub open spec fn spec_hex_pattern(s: Seq<char>) -> Result<Seq<u8>, Seq<char>> {
    match first_invalid_hex_char(s) {
        Some(i) => Err("Invalid hex pattern: unexpected character '"@ + seq![s[i]] + "'"@),
        None => {
            let d = hex_digits_of(s);
            if d.len() == 0 {
                Ok(Seq::empty())
            } else if d.len() % 2 == 1 {
                Err("Invalid hex pattern: expected an even number of hex digits"@)
            } else {
                Ok(hex_pairs(d))
            }
        },
    }
}

/// The view of a pattern parse result.
pub open spec fn hex_result_view(r: Result<Vec<u8>, String>) -> Result<Seq<u8>, Seq<char>> {
    match r {
        Ok(v) => Ok(v@),
        Err(e) => Err(e@),
    }
}

/// Parses a hex byte pattern such as `"DE AD BE EF"` or `"deadbeef"`. Whitespace is
/// ignored, digits of either case are accepted, and the digits must pair up into bytes.
pub fn parse_hex_pattern(input: &str) -> (r: Result<Vec<u8>, String>)
    ensures
        hex_result_view(r) == spec_hex_pattern(input@),
{
    let chars = chars_of(input);
    let mut digits: Vec<char> = Vec::new();
    let mut i: usize = 0;
    while i < chars.len()
        invariant
            i <= chars.len(),
            chars@ == input@,
            first_invalid_hex_char(chars@.subrange(0, i as int)) is None,
            digits@ == hex_digits_of(chars@.subrange(0, i as int)),
        decreases chars.len() - i,
    {
        let ch = chars[i];
        let ghost next = chars@.subrange(0, i + 1);
        assert(next.drop_last() =~= chars@.subrange(0, i as int));
        if char_is_hex_digit(ch) {
            digits.push(ch);
        } else if !char_is_whitespace(ch) {
            proof {
                lemma_first_invalid_prefix(chars@, i as int + 1);
            }
            let mut message = String::from_str("Invalid hex pattern: unexpected character '");
            let ghost prefix = message@;
            push_char(&mut message, ch);
            assert(prefix.push(ch) =~= prefix + seq![ch]);
            message.append("'");
            return Err(message);
        }
        i += 1;
    }
    assert(chars@.subrange(0, chars.len() as int) =~= chars@);
    if digits.len() == 0 {
        return Ok(Vec::new());
    }
    if digits.len() % 2 == 1 {
        return Err(String::from_str("Invalid hex pattern: expected an even number of hex digits"));
    }
    let mut bytes: Vec<u8> = Vec::new();
    let mut k: usize = 0;
    proof { lemma_hex_digits_are_digits(chars@); }
    while k < digits.len() / 2
        invariant
            digits.len() % 2 == 0,
            k <= digits.len() / 2,
            bytes@ =~= hex_pairs(digits@).subrange(0, k as int),
            forall|j: int| 0 <= j < digits.len() ==> is_hex_digit(#[trigger] digits@[j]),
        decreases digits.len() / 2 - k,
    {
        let hi = hex_digit_value(digits[2 * k]);
        let lo = hex_digit_value(digits[2 * k + 1]);
        bytes.push(hi * 16 + lo);
        k += 1;
    }
    assert(hex_pairs(digits@).subrange(0, k as int) =~= hex_pairs(digits@));
    Ok(bytes)
}

proof fn lemma_hex_digits_are_digits(s: Seq<char>)
    ensures
        forall|j: int| 0 <= j < hex_digits_of(s).len() ==> is_hex_digit(#[trigger] hex_digits_of(s)[j]),
    decreases s.len(),
{
    if s.len() > 0 {
        let prev = hex_digits_of(s.drop_last());
        lemma_hex_digits_are_digits(s.drop_last());
        assert forall|j: int| 0 <= j < hex_digits_of(s).len() implies is_hex_digit(#[trigger] hex_digits_of(s)[j]) by {
            if j < prev.len() {
                assert(hex_digits_of(s)[j] == prev[j]);
            }
        }
    }
}

proof fn lemma_first_invalid_prefix(s: Seq<char>, n: int)
    requires
        0 < n <= s.len(),
        first_invalid_hex_char(s.subrange(0, n - 1)) is None,
        !is_hex_digit(s[n - 1]) && !is_whitespace_char(s[n - 1]),
    ensures
        first_invalid_hex_char(s) == Some(n - 1),
    decreases s.len(),
{
    if s.len() == n {
        assert(s.drop_last() =~= s.subrange(0, n - 1));
    } else {
        assert(s.drop_last().subrange(0, n - 1) =~= s.subrange(0, n - 1));
        lemma_first_invalid_prefix(s.drop_last(), n);
    }
}

/// Whether `pattern` occurs in `data` starting at `p`.
pub open spec fn occurs_at(data: Seq<u8>, pattern: Seq<u8>, p: int) -> bool {
    0 <= p && p + pattern.len() <= data.len() && data.subrange(p, p + pattern.len()) == pattern
}

/// The start offsets below `n` at which `pattern` occurs in `data`, in ascending order.
pub open spec fn occurrences_below(data: Seq<u8>, pattern: Seq<u8>, n: nat) -> Seq<u64>
    decreases n,
{
    if n == 0 {
        Seq::empty()
    } else {
        let prev = occurrences_below(data, pattern, (n - 1) as nat);
        if occurs_at(data, pattern, n - 1) { prev.push((n - 1) as u64) } else { prev }
    }
}

/// Whether the first `pattern.len()` bytes of `bytes` from `start` equal `pattern`.
fn matches_at(bytes: &[u8], start: usize, pattern: &[u8]) -> (r: bool)
    requires
        start + pattern@.len() <= bytes@.len(),
    ensures
        r == (bytes@.subrange(start as int, start + pattern@.len()) == pattern@),
{
    let mut j: usize = 0;
    let n = bytes.len();
    while j < pattern.len()
        invariant
            n == bytes@.len(),
            j <= pattern@.len(),
            start + pattern@.len() <= bytes@.len(),
            forall|k: int| 0 <= k < j ==> bytes@[start + k] == pattern@[k],
        decreases pattern.len() - j,
    {
        if bytes[start + j] != pattern[j] {
            assert(bytes@.subrange(start as int, start + pattern@.len())[j as int] != pattern@[j as int]);
            return false;
        }
        j += 1;
    }
    assert(bytes@.subrange(start as int, start + pattern@.len()) =~= pattern@);
    true
}

/// The offsets at which `pattern` occurs in the first `file_size` bytes of `buffer`, in
/// ascending order, overlapping matches included. The buffer is read in chunks of
/// `SEARCH_CHUNK_SIZE` bytes that overlap by the pattern's length minus one; the chunk that
/// reaches the end of the file is the last one read.
pub fn find_byte_pattern_matches<B: FileBuffer + ?Sized>(buffer: &B, file_size: u64, pattern: &[u8]) -> (r: Result<Vec<u64>, String>)
    ensures
        pattern@.len() == 0 || pattern@.len() > file_size ==> (r matches Ok(v) && v@.len() == 0),
        !(pattern@.len() == 0 || pattern@.len() > file_size) && pattern@.len() - 1 > usize::MAX - SEARCH_CHUNK_SIZE
            ==> (r matches Err(e) && e@ == "Search query is too large"@),
        !(pattern@.len() == 0 || pattern@.len() > file_size) && pattern@.len() - 1 <= usize::MAX - SEARCH_CHUNK_SIZE
            && file_size <= buffer.contents().len()
            ==> (r matches Ok(v) && v@ == occurrences_below(buffer.contents().subrange(0, file_size as int), pattern@,
                (file_size - pattern@.len() + 1) as nat)),
        !(pattern@.len() == 0 || pattern@.len() > file_size) && pattern@.len() - 1 <= usize::MAX - SEARCH_CHUNK_SIZE
            && file_size > buffer.contents().len()
            ==> (r matches Err(e) && e@ == buffer_error_text(crate::error::BufferError::OutOfBounds)),
{
    let plen = pattern.len();
    if plen == 0 || plen as u64 > file_size {
        return Ok(Vec::new());
    }
    let overlap = plen - 1;
    if overlap > usize::MAX - SEARCH_CHUNK_SIZE {
        return Err(String::from_str("Search query is too large"));
    }
    let read_budget = SEARCH_CHUNK_SIZE + overlap;
    let ghost data = buffer.contents();
    let ghost window = if file_size <= data.len() { data.subrange(0, file_size as int) } else { data };
    let mut matches: Vec<u64> = Vec::new();
    let mut offset: u64 = 0;
    while offset < file_size
        invariant
            plen == pattern@.len(),
            1 <= plen <= file_size,
            overlap == plen - 1,
            read_budget == SEARCH_CHUNK_SIZE + overlap,
            data == buffer.contents(),
            file_size <= data.len() ==> window == data.subrange(0, file_size as int),
            offset < file_size ==> file_size - offset >= plen,
            offset < file_size && file_size <= data.len() ==> matches@ == occurrences_below(window, pattern@, offset as nat),
            offset >= file_size ==> file_size <= data.len()
                && matches@ == occurrences_below(window, pattern@, (file_size - plen + 1) as nat),
            SEARCH_CHUNK_SIZE == 65536,
        decreases file_size - offset + 65536,
    {
        let remaining = file_size - offset;
        let read_len: usize = if remaining < read_budget as u64 { remaining as usize } else { read_budget };
        let bytes = match buffer.read_bytes(offset, read_len) {
            Ok(b) => b,
            Err(e) => return Err(e.to_string()),
        };
        let is_last = remaining <= read_len as u64;
        let scan_end: usize = if is_last { bytes.len() - plen + 1 } else { SEARCH_CHUNK_SIZE };
        let ghost fits = file_size <= data.len();
        let mut start: usize = 0;
        while start < scan_end
            invariant
                plen == pattern@.len(),
                1 <= plen,
                offset + read_len <= file_size,
                offset + read_len <= data.len(),
                fits == (file_size <= data.len()),
                fits ==> window == data.subrange(0, file_size as int),
                bytes@ == data.subrange(offset as int, offset + read_len),
                scan_end + plen <= read_len + 1,
                start <= scan_end,
                fits ==> matches@ == occurrences_below(window, pattern@, (offset + start) as nat),
            decreases scan_end - start,
        {
            let found = matches_at(bytes, start, pattern);
            proof {
                let p = offset + start;
                if fits {
                    assert(window.subrange(p as int, p + plen) =~= bytes@.subrange(start as int, start + plen));
                    assert(occurs_at(window, pattern@, p as int) == found);
                }
            }
            if found {
                matches.push(offset + start as u64);
            }
            start += 1;
        }
        offset = if is_last || offset > u64::MAX - SEARCH_CHUNK_SIZE as u64 {
            file_size
        } else {
            offset + SEARCH_CHUNK_SIZE as u64
        };
    }
    Ok(matches)
}

} // verus!
