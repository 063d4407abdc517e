//! What the text of a request holds, as far as the parser's safety turns on
//! it: its heading is read line by line as the parser reads it, to tell
//! whether the content is chunked and what length is declared, and the
//! chunks are walked to see that they are framed.

use crate::hex::{hex_value, is_hex_digit};
use crate::text::{bytes_of, decimal_value, is_digit};
use vstd::prelude::*;
use vstd::slice::slice_subrange;
use vstd::string::*;

verus! {

/// The carriage return that starts a line ending.
pub const CR: u8 = 0x0d;

/// The line feed that completes a line ending.
pub const LF: u8 = 0x0a;

/// The space.
pub const SP: u8 = 0x20;

/// The horizontal tab.
pub const HTAB: u8 = 0x09;

/// The colon that follows a field name.
pub const COLON: u8 = 0x3a;

/// The plus sign that may lead a number.
pub const PLUS: u8 = 0x2b;

/// The slash, which a protocol version holds and a method does not.
pub const SLASH: u8 = 0x2f;

/// The comma that parts the codings of a transfer.
pub const COMMA: u8 = 0x2c;

/// The semicolon that ends the size of a chunk where more follows on its line.
pub const SEMICOLON: u8 = 0x3b;

/// An ASCII capital letter as its small letter; any other byte as it is.
pub open spec fn lower(b: u8) -> u8 {
    if 0x41 <= b <= 0x5a {
        (b + 0x20) as u8
    } else {
        b
    }
}

/// Whether `pattern` stands in `text` at `i`.
pub open spec fn occurs_at(text: Seq<u8>, pattern: Seq<u8>, i: int) -> bool {
    &&& 0 <= i
    &&& i + pattern.len() <= text.len()
    &&& forall|k: int| 0 <= k < pattern.len() ==> text[i + k] == pattern[k]
}

/// Whether `pattern` stands in `text` at `i`, in letters of either case.
pub open spec fn occurs_folded_at(text: Seq<u8>, pattern: Seq<u8>, i: int) -> bool {
    &&& 0 <= i
    &&& i + pattern.len() <= text.len()
    &&& forall|k: int| 0 <= k < pattern.len() ==> lower(text[i + k]) == pattern[k]
}

/// Whether `text` is `pattern`, byte for byte.
pub open spec fn is_exactly(text: Seq<u8>, pattern: Seq<u8>) -> bool {
    text.len() == pattern.len() && occurs_at(text, pattern, 0)
}

/// Whether `b` is a space or a tab.
pub open spec fn is_blank(b: u8) -> bool {
    b == SP || b == HTAB
}

/// The first index from `i` on that holds no space or tab.
pub open spec fn skip_blanks(text: Seq<u8>, i: int) -> int
    decreases text.len() - i,
{
    if 0 <= i < text.len() && is_blank(text[i]) {
        skip_blanks(text, i + 1)
    } else {
        i
    }
}

/// The index after the last byte before `j` that is no space or tab.
pub open spec fn skip_blanks_back(text: Seq<u8>, j: int) -> int
    decreases j,
{
    if 0 < j <= text.len() && is_blank(text[j - 1]) {
        skip_blanks_back(text, j - 1)
    } else {
        j
    }
}

/// `text` without the spaces and tabs at its ends.
pub open spec fn trimmed(text: Seq<u8>) -> Seq<u8> {
    let from = skip_blanks(text, 0);
    let to = skip_blanks_back(text, text.len() as int);
    if from < to {
        text.subrange(from, to)
    } else {
        Seq::empty()
    }
}

/// The first index from `i` on that holds no digit.
pub open spec fn skip_digits(text: Seq<u8>, i: int) -> int
    decreases text.len() - i,
{
    if 0 <= i < text.len() && is_digit(text[i]) {
        skip_digits(text, i + 1)
    } else {
        i
    }
}

/// The first index from `i` on that holds no hexadecimal digit.
pub open spec fn skip_hex(text: Seq<u8>, i: int) -> int
    decreases text.len() - i,
{
    if 0 <= i < text.len() && is_hex_digit(text[i]) {
        skip_hex(text, i + 1)
    } else {
        i
    }
}

/// The number that a run of hexadecimal digits stands for.
pub open spec fn hex_number(digits: Seq<u8>) -> nat
    decreases digits.len(),
{
    if digits.len() == 0 {
        0
    } else {
        (hex_number(digits.drop_last()) * 16 + hex_value(digits.last())) as nat
    }
}

/// How many bytes stand from `p` on before the next line feed, or before
/// the end of the text.
pub open spec fn line_len(text: Seq<u8>, p: int) -> nat
    decreases text.len() - p,
{
    if 0 <= p < text.len() && text[p] != LF {
        1 + line_len(text, p + 1)
    } else {
        0
    }
}

/// The line that starts at `p`, without its line feed and the byte before
/// it, which is the carriage return in a line that is well ended.
pub open spec fn line_at(text: Seq<u8>, p: int) -> Seq<u8> {
    if line_len(text, p) > 0 {
        text.subrange(p, p + line_len(text, p) - 1)
    } else {
        Seq::empty()
    }
}

/// Whether `line` is the field `name`: it starts with the name, in letters
/// of either case, and blanks at most stand between the name and the colon.
pub open spec fn names_field(line: Seq<u8>, name: Seq<u8>) -> bool {
    &&& occurs_folded_at(line, name, 0)
    &&& skip_blanks(line, name.len() as int) < line.len()
    &&& line[skip_blanks(line, name.len() as int)] == COLON
}

/// The value of the field `name` on its own line: what follows the colon,
/// without the blanks at its ends.
pub open spec fn field_value(line: Seq<u8>, name: Seq<u8>) -> Seq<u8> {
    trimmed(line.skip(skip_blanks(line, name.len() as int) + 1))
}

/// The number that a field declares whose name ends before `after_name`:
/// blanks, a colon, blanks, an optional plus sign, then the digits that are
/// read. Without the colon there is no field, and nothing is declared.
pub open spec fn declared_length(line: Seq<u8>, after_name: int) -> nat {
    let colon = skip_blanks(line, after_name);
    if 0 <= colon < line.len() && line[colon] == COLON {
        let value = skip_blanks(line, colon + 1);
        let first = if 0 <= value < line.len() && line[value] == PLUS {
            value + 1
        } else {
            value
        };
        decimal_value(line.subrange(first, skip_digits(line, first)))
    } else {
        0
    }
}

/// The name of the field that declares the length of the content.
pub open spec fn length_field() -> Seq<u8> {
    bytes_of("content-length"@)
}

/// The name of the field that announces the transfer codings.
pub open spec fn coding_field() -> Seq<u8> {
    bytes_of("transfer-encoding"@)
}

/// The transfer coding that has the content read in chunks.
pub open spec fn chunked_coding() -> Seq<u8> {
    bytes_of("chunked"@)
}

/// What has been read of a heading, as far as the content turns on it.
pub struct Heading {
    /// Whether a field of transfer codings was read.
    pub coded: bool,
    /// The value of the first such field, with the lines that continue it.
    pub coding: Seq<u8>,
    /// Whether that field is the last field read, so that a continuation
    /// line continues it.
    pub coding_open: bool,
    /// Whether a field of the content's length was read.
    pub measured: bool,
    /// Whether what the first such field declares is within the limit.
    pub length_fits: bool,
}

/// A heading of which nothing was read.
pub open spec fn no_heading() -> Heading {
    Heading {
        coded: false,
        coding: Seq::empty(),
        coding_open: false,
        measured: false,
        length_fits: true,
    }
}

/// The heading after a line that starts a field. Of the fields of one name
/// the first counts.
pub open spec fn after_field(h: Heading, line: Seq<u8>, limit: nat) -> Heading {
    if names_field(line, coding_field()) && !h.coded {
        Heading {
            coded: true,
            coding: field_value(line, coding_field()),
            coding_open: true,
            ..h
        }
    } else if names_field(line, length_field()) && !names_field(line, coding_field())
        && !h.measured {
        Heading {
            measured: true,
            length_fits: declared_length(line, length_field().len() as int) <= limit,
            coding_open: false,
            ..h
        }
    } else {
        Heading { coding_open: false, ..h }
    }
}

/// The heading after a line that continues the field before it: a space
/// and the line, without the blanks at its ends, are added to that field.
pub open spec fn after_continuation(h: Heading, line: Seq<u8>) -> Heading {
    if h.coding_open {
        Heading { coding: h.coding.push(SP) + trimmed(line), ..h }
    } else {
        h
    }
}

/// The heading that is read from `p` on, line by line, and where the
/// content starts. A line of blanks ends the heading; a line that starts
/// with a blank continues the field before it; any other line starts a
/// field. Where the lines run out, so does the text.
pub open spec fn read_heading(text: Seq<u8>, p: int, h: Heading) -> (Heading, int)
    decreases text.len() - p,
{
    let q = p + line_len(text, p);
    if p < 0 || q >= text.len() {
        (h, text.len() as int)
    } else {
        let line = line_at(text, p);
        if skip_blanks(line, 0) >= line.len() {
            (h, q + 1)
        } else if is_blank(line[0]) {
            read_heading(text, q + 1, after_continuation(h, line))
        } else {
            read_heading(text, q + 1, after_field(h, line, text.len()))
        }
    }
}

/// The index after the last comma before `j`, or 0 where there is none.
pub open spec fn after_last_comma(value: Seq<u8>, j: int) -> int
    decreases j,
{
    if 0 < j <= value.len() && value[j - 1] != COMMA {
        after_last_comma(value, j - 1)
    } else {
        j
    }
}

/// The last of the codings that a field names: what follows its last
/// comma, without the blanks at its ends, or the whole value where it holds
/// no comma.
pub open spec fn last_coding(value: Seq<u8>) -> Seq<u8> {
    let from = after_last_comma(value, value.len() as int);
    if from > 0 {
        trimmed(value.skip(from))
    } else {
        value
    }
}

/// Whether the content is read in chunks: a field of transfer codings was
/// read, and the last coding it names is the chunked one.
pub open spec fn is_chunked(h: Heading) -> bool {
    h.coded && is_exactly(last_coding(h.coding), chunked_coding())
}

/// Whether the chunks from `p` on are framed: each starts with a line that
/// holds its size in hexadecimal digits, after a plus sign at most and
/// before a semicolon or the line's end; that many bytes follow, and a line
/// ending after them; and a chunk of size zero is the last.
pub open spec fn chunks_framed(text: Seq<u8>, p: int) -> bool
    decreases text.len() - p,
{
    let q = p + line_len(text, p);
    if p < 0 || q >= text.len() || q == p || text[q - 1] != CR {
        false
    } else {
        let first = if text[p] == PLUS {
            p + 1
        } else {
            p
        };
        let end = skip_hex(text, first);
        let size = hex_number(text.subrange(first, end));
        if end <= first || !(end == q - 1 || text[end] == SEMICOLON) {
            false
        } else if size == 0 {
            true
        } else {
            &&& q + 1 + size + 2 <= text.len()
            &&& text[q + 1 + size] == CR
            &&& text[q + 2 + size] == LF
            &&& chunks_framed(text, q + 3 + size)
        }
    }
}

/// Where the word ends that starts at `i`: at the next space, or at the end.
pub open spec fn word_end(text: Seq<u8>, i: int) -> int
    decreases text.len() - i,
{
    if 0 <= i < text.len() && text[i] != SP {
        word_end(text, i + 1)
    } else {
        i
    }
}

/// Whether `text` starts as a request does: its first word, which a request
/// has for its method and a response for its protocol version, holds no slash.
pub open spec fn starts_as_request(text: Seq<u8>) -> bool {
    forall|k: int| 0 <= k < word_end(text, 0) ==> text[k] != SLASH
}

/// Where the heading starts: after the first line, which is the request
/// line.
pub open spec fn heading_start(text: Seq<u8>) -> int {
    line_len(text, 0) as int + 1
}

/// Whether the content of `text` can be read without more being reserved
/// than the text is long, and without a chunk being found unframed: where
/// the heading has the content read in chunks, the chunks are framed;
/// otherwise the length that the heading declares, if any, is within the
/// length of the text.
pub open spec fn content_is_safe(text: Seq<u8>) -> bool {
    let read = read_heading(text, heading_start(text), no_heading());
    if is_chunked(read.0) {
        chunks_framed(text, read.1)
    } else {
        read.0.measured ==> read.0.length_fits
    }
}

/// Whether `text` may be handed to the parser: it starts as a request, and
/// its content can be read safely.
pub open spec fn parse_safe(text: Seq<u8>) -> bool {
    starts_as_request(text) && content_is_safe(text)
}

/// Finds the end of the line that starts at `p`.
fn line_end(text: &[u8], p: usize) -> (q: usize)
    requires
        p <= text.len(),
    ensures
        q == p + line_len(text@, p as int),
        p <= q <= text.len(),
        q < text.len() ==> text@[q as int] == LF,
{
    let mut q: usize = p;
    while q < text.len() && text[q] != LF
        invariant
            p <= q <= text.len(),
            p + line_len(text@, p as int) == q + line_len(text@, q as int),
        decreases text.len() - q,
    {
        q += 1;
    }
    q
}

/// Tells whether `pattern` stands in `text` at `i`, folding case on demand.
fn matches_at(text: &[u8], pattern: &[u8], i: usize, fold: bool) -> (r: bool)
    ensures
        fold ==> r == occurs_folded_at(text@, pattern@, i as int),
        !fold ==> r == occurs_at(text@, pattern@, i as int),
{
    if pattern.len() > text.len() || i > text.len() - pattern.len() {
        return false;
    }
    let mut k: usize = 0;
    while k < pattern.len()
        invariant
            k <= pattern.len(),
            i + pattern.len() <= text.len(),
            fold ==> forall|m: int| 0 <= m < k ==> lower(text@[i + m]) == pattern@[m],
            !fold ==> forall|m: int| 0 <= m < k ==> text@[i + m] == pattern@[m],
        decreases pattern.len() - k,
    {
        let b: u8 = text[i + k];
        let folded: u8 = if fold && 0x41 <= b && b <= 0x5a {
            b + 0x20
        } else {
            b
        };
        if folded != pattern[k] {
            return false;
        }
        k += 1;
    }
    true
}

fn skip_blanks_from(text: &[u8], i: usize) -> (j: usize)
    requires
        i <= text.len(),
    ensures
        j == skip_blanks(text@, i as int),
        i <= j <= text.len(),
{
    let mut j: usize = i;
    while j < text.len() && (text[j] == SP || text[j] == HTAB)
        invariant
            i <= j <= text.len(),
            skip_blanks(text@, i as int) == skip_blanks(text@, j as int),
        decreases text.len() - j,
    {
        j += 1;
    }
    j
}

fn skip_blanks_back_from(text: &[u8], j: usize) -> (i: usize)
    requires
        j <= text.len(),
    ensures
        i == skip_blanks_back(text@, j as int),
        i <= j,
{
    let mut i: usize = j;
    while i > 0 && (text[i - 1] == SP || text[i - 1] == HTAB)
        invariant
            i <= j <= text.len(),
            skip_blanks_back(text@, j as int) == skip_blanks_back(text@, i as int),
        decreases i,
    {
        i -= 1;
    }
    i
}

/// Appends `text` to `out`, without the blanks at its ends.
fn push_trimmed(out: &mut Vec<u8>, text: &[u8])
    ensures
        final(out)@ == old(out)@ + trimmed(text@),
{
    let from = skip_blanks_from(text, 0);
    let to = skip_blanks_back_from(text, text.len());
    if from < to {
        crate::text::append_bytes(out, slice_subrange(text, from, to));
    } else {
        assert(out@ =~= old(out)@ + Seq::<u8>::empty());
    }
}

/// Tells whether `line` is the field `name`, and where its colon stands.
fn field_named(line: &[u8], name: &[u8]) -> (r: (bool, usize))
    ensures
        r.0 == names_field(line@, name@),
        r.0 ==> r.1 == skip_blanks(line@, name@.len() as int) && r.1 < line.len(),
{
    if !matches_at(line, name, 0, true) {
        return (false, 0);
    }
    let colon = skip_blanks_from(line, name.len());
    (colon < line.len() && line[colon] == COLON, colon)
}

/// Tells whether the length declared after a field name is beyond `limit`.
fn declared_exceeds(line: &[u8], after_name: usize, limit: usize) -> (r: bool)
    requires
        after_name <= line.len(),
    ensures
        r == (declared_length(line@, after_name as int) > limit),
{
    let colon = skip_blanks_from(line, after_name);
    if colon >= line.len() || line[colon] != COLON {
        return false;
    }
    let value = skip_blanks_from(line, colon + 1);
    let first: usize = if value < line.len() && line[value] == PLUS {
        value + 1
    } else {
        value
    };
    let mut j: usize = first;
    let mut number: u128 = 0;
    let mut beyond: bool = false;
    assert(line@.subrange(first as int, j as int) =~= Seq::<u8>::empty());
    while j < line.len() && 48 <= line[j] && line[j] <= 57
        invariant
            first <= j <= line.len(),
            skip_digits(line@, first as int) == skip_digits(line@, j as int),
            !beyond ==> number == decimal_value(line@.subrange(first as int, j as int)) && number
                <= limit,
            beyond ==> decimal_value(line@.subrange(first as int, j as int)) > limit,
        decreases line.len() - j,
    {
        proof {
            let run = line@.subrange(first as int, j + 1);
            assert(run.drop_last() =~= line@.subrange(first as int, j as int));
            assert(run.last() == line@[j as int]);
        }
        if !beyond {
            number = number * 10 + (line[j] - 48) as u128;
            if number > limit as u128 {
                beyond = true;
            }
        }
        j += 1;
    }
    beyond
}

/// Tells whether the last coding that `value` names is the chunked one.
fn names_chunked(value: &[u8]) -> (r: bool)
    ensures
        r == is_exactly(last_coding(value@), chunked_coding()),
{
    let mut from: usize = value.len();
    while from > 0 && value[from - 1] != COMMA
        invariant
            from <= value.len(),
            after_last_comma(value@, value@.len() as int) == after_last_comma(value@, from as int),
        decreases from,
    {
        from -= 1;
    }
    let chunked = "chunked".as_bytes();
    if from > 0 {
        let mut last: Vec<u8> = Vec::new();
        let rest = slice_subrange(value, from, value.len());
        assert(rest@ =~= value@.skip(from as int));
        push_trimmed(&mut last, rest);
        assert(last@ =~= last_coding(value@));
        last.len() == chunked.len() && matches_at(last.as_slice(), chunked, 0, false)
    } else {
        value.len() == chunked.len() && matches_at(value, chunked, 0, false)
    }
}

fn is_hex(b: u8) -> (r: bool)
    ensures
        r == is_hex_digit(b),
{
    (0x30 <= b && b <= 0x39) || (0x41 <= b && b <= 0x46) || (0x61 <= b && b <= 0x66)
}

fn hex_of(b: u8) -> (r: u8)
    requires
        is_hex_digit(b),
    ensures
        r == hex_value(b),
        r < 16,
{
    if b <= 0x39 {
        b - 0x30
    } else if b <= 0x46 {
        b - 0x41 + 10
    } else {
        b - 0x61 + 10
    }
}

/// Reads the hexadecimal digits from `first` on: where they end, and the
/// number they stand for, unless it is beyond `limit`.
fn read_hex(text: &[u8], first: usize, limit: usize) -> (r: (usize, Option<usize>))
    requires
        first <= text.len(),
    ensures
        r.0 == skip_hex(text@, first as int),
        first <= r.0 <= text.len(),
        match r.1 {
            Some(n) => n == hex_number(text@.subrange(first as int, r.0 as int)) && n <= limit,
            None => hex_number(text@.subrange(first as int, r.0 as int)) > limit,
        },
{
    let mut j: usize = first;
    let mut number: u128 = 0;
    let mut beyond: bool = false;
    assert(text@.subrange(first as int, j as int) =~= Seq::<u8>::empty());
    while j < text.len() && is_hex(text[j])
        invariant
            first <= j <= text.len(),
            skip_hex(text@, first as int) == skip_hex(text@, j as int),
            !beyond ==> number == hex_number(text@.subrange(first as int, j as int)) && number
                <= limit,
            beyond ==> hex_number(text@.subrange(first as int, j as int)) > limit,
        decreases text.len() - j,
    {
        proof {
            let run = text@.subrange(first as int, j + 1);
            assert(run.drop_last() =~= text@.subrange(first as int, j as int));
            assert(run.last() == text@[j as int]);
        }
        if !beyond {
            number = number * 16 + hex_of(text[j]) as u128;
            if number > limit as u128 {
                beyond = true;
            }
        }
        j += 1;
    }
    if beyond {
        (j, None)
    } else {
        (j, Some(number as usize))
    }
}

/// The hexadecimal digits from `i` on end before a byte that is none.
proof fn lemma_skip_hex_stops(text: Seq<u8>, i: int, stop: int)
    requires
        0 <= i <= stop < text.len(),
        !is_hex_digit(text[stop]),
    ensures
        skip_hex(text, i) <= stop,
    decreases stop - i,
{
    if i < stop && is_hex_digit(text[i]) {
        lemma_skip_hex_stops(text, i + 1, stop);
    }
}

/// Tells whether the chunks from `start` on are framed.
fn has_framed_chunks(text: &[u8], start: usize) -> (r: bool)
    requires
        start <= text.len(),
    ensures
        r == chunks_framed(text@, start as int),
{
    let mut p: usize = start;
    loop
        invariant
            p <= text.len(),
            chunks_framed(text@, start as int) == chunks_framed(text@, p as int),
        decreases text.len() - p,
    {
        let q = line_end(text, p);
        if q >= text.len() || q == p || text[q - 1] != CR {
            return false;
        }
        let first: usize = if text[p] == PLUS {
            p + 1
        } else {
            p
        };
        let (end, size) = read_hex(text, first, text.len());
        proof {
            lemma_skip_hex_stops(text@, first as int, q - 1);
        }
        if end <= first || !(end == q - 1 || text[end] == SEMICOLON) {
            return false;
        }
        match size {
            None => {
                return false;
            },
            Some(size) => {
                if size == 0 {
                    return true;
                }
                if text.len() - q < 3 || text.len() - q - 3 < size {
                    return false;
                }
                if text[q + 1 + size] != CR || text[q + 2 + size] != LF {
                    return false;
                }
                p = q + 3 + size;
            },
        }
    }
}

/// Tells whether `text` starts as a request does.
fn has_request_start(text: &[u8]) -> (r: bool)
    ensures
        r == starts_as_request(text@),
{
    let mut i: usize = 0;
    while i < text.len() && text[i] != SP
        invariant
            i <= text.len(),
            word_end(text@, 0) == word_end(text@, i as int),
            forall|k: int| 0 <= k < i ==> text@[k] != SLASH,
        decreases text.len() - i,
    {
        if text[i] == SLASH {
            proof {
                lemma_word_end_bounds(text@, i as int + 1);
            }
            return false;
        }
        i += 1;
    }
    true
}

proof fn lemma_word_end_bounds(text: Seq<u8>, i: int)
    requires
        0 <= i <= text.len(),
    ensures
        i <= word_end(text, i) <= text.len(),
    decreases text.len() - i,
{
    if i < text.len() && text[i] != SP {
        lemma_word_end_bounds(text, i + 1);
    }
}

/// Tells whether the content of `text` can be read safely.
fn has_safe_content(text: &[u8]) -> (r: bool)
    ensures
        r == content_is_safe(text@),
{
    let coding_name = "transfer-encoding".as_bytes();
    let length_name = "content-length".as_bytes();
    let first = line_end(text, 0);
    if first >= text.len() {
        return true;
    }
    let mut p: usize = first + 1;
    let mut coded: bool = false;
    let mut coding: Vec<u8> = Vec::new();
    let mut coding_open: bool = false;
    let mut measured: bool = false;
    let mut length_fits: bool = true;
    let mut content: usize = text.len();
    loop
        invariant_except_break
            p <= text.len(),
            coding_name@ == coding_field(),
            length_name@ == length_field(),
            read_heading(text@, heading_start(text@), no_heading()) == read_heading(
                text@,
                p as int,
                Heading { coded, coding: coding@, coding_open, measured, length_fits },
            ),
        ensures
            content <= text.len(),
            read_heading(text@, heading_start(text@), no_heading()) == ((
                Heading { coded, coding: coding@, coding_open, measured, length_fits },
                content as int,
            )),
        decreases text.len() - p,
    {
        let q = line_end(text, p);
        if q >= text.len() {
            content = text.len();
            break;
        }
        let line = slice_subrange(text, p, if q > p {
            q - 1
        } else {
            p
        });
        assert(line@ =~= line_at(text@, p as int));
        if skip_blanks_from(line, 0) >= line.len() {
            content = q + 1;
            break;
        }
        if line[0] == SP || line[0] == HTAB {
            if coding_open {
                coding.push(SP);
                push_trimmed(&mut coding, line);
            }
        } else {
            let (is_coding, _) = field_named(line, coding_name);
            let (is_length, _) = field_named(line, length_name);
            if is_coding && !coded {
                coded = true;
                coding = Vec::new();
                let colon = skip_blanks_from(line, coding_name.len());
                let value = slice_subrange(line, colon + 1, line.len());
                assert(value@ =~= line@.skip(colon + 1));
                push_trimmed(&mut coding, value);
                assert(coding@ =~= field_value(line@, coding_field()));
                coding_open = true;
            } else if is_length && !is_coding && !measured {
                measured = true;
                length_fits = !declared_exceeds(line, length_name.len(), text.len());
                coding_open = false;
            } else {
                coding_open = false;
            }
        }
        p = q + 1;
    }
    if coded && names_chunked(coding.as_slice()) {
        has_framed_chunks(text, content)
    } else {
        !measured || length_fits
    }
}

/// Tells whether `text` may be handed to the parser.
pub fn is_parse_safe(text: &[u8]) -> (r: bool)
    ensures
        r == parse_safe(text@),
{
    has_request_start(text) && has_safe_content(text)
}

} // verus!
