//! The watermark file.
//!
//! The watermark is the time of the latest commit that was replicated. It is
//! kept in a file in the façade's working tree, as two integers in decimal
//! with whitespace between them: the seconds and the offset in minutes.

use crate::decimal::{
    decimal_text, decimal_within, digits_of, is_digit, lemma_decimal_round_trip, lemma_digits_of,
    read_i32, read_i64, write_i64,
};
use crate::timestamp::Timestamp;
use vstd::prelude::*;

verus! {

/// The name of the watermark file inside the façade's working tree.
pub fn watermark_file() -> (name: &'static str)
    ensures
        name@ == "latest-update.txt"@,
{
    "latest-update.txt"
}

/// Why the content of a watermark file is no watermark.
#[derive(Clone, Copy, Debug, PartialEq, Eq, Structural)]
pub enum WatermarkError {
    /// The file holds nothing but whitespace.
    MissingSeconds,
    /// The first field is no integer of 64 bits.
    BadSeconds,
    /// The file holds one field only.
    MissingOffset,
    /// The second field is no integer of 32 bits.
    BadOffset,
}

/// Whitespace: the space, and the control characters from tab to carriage
/// return.
pub open spec fn is_space(b: u8) -> bool {
    b == 0x20 || 0x09 <= b <= 0x0d
}

/// The first position at or after `from` that holds no whitespace, or the
/// end of `text`.
pub open spec fn field_start(text: Seq<u8>, from: int) -> int
    decreases text.len() - from,
{
    if 0 <= from < text.len() && is_space(text[from]) {
        field_start(text, from + 1)
    } else {
        from
    }
}

/// The first position at or after `from` that holds whitespace, or the end
/// of `text`.
pub open spec fn field_end(text: Seq<u8>, from: int) -> int
    decreases text.len() - from,
{
    if 0 <= from < text.len() && !is_space(text[from]) {
        field_end(text, from + 1)
    } else {
        from
    }
}

/// The watermark that a file's content denotes. The first two fields
/// count, and what follows them is not read.
pub open spec fn parsed_watermark(text: Seq<u8>) -> Result<Timestamp, WatermarkError> {
    let a = field_start(text, 0);
    let b = field_end(text, a);
    let c = field_start(text, b);
    let d = field_end(text, c);
    if a == b {
        Err(WatermarkError::MissingSeconds)
    } else {
        match decimal_within(text.subrange(a, b), i64::MIN as int, i64::MAX as int) {
            None => Err(WatermarkError::BadSeconds),
            Some(seconds) => if c == d {
                Err(WatermarkError::MissingOffset)
            } else {
                match decimal_within(text.subrange(c, d), i32::MIN as int, i32::MAX as int) {
                    None => Err(WatermarkError::BadOffset),
                    Some(offset) => Ok(
                        Timestamp { seconds: seconds as i64, offset_minutes: offset as i32 },
                    ),
                }
            },
        }
    }
}

/// The content of the watermark file for `w`: the seconds, one space, the
/// offset.
pub open spec fn watermark_text(w: Timestamp) -> Seq<u8> {
    decimal_text(w.seconds as int) + seq![0x20u8] + decimal_text(w.offset_minutes as int)
}

/// The watermark that a façade holds, given the content of its watermark
/// file, `None` where the file does not exist: a façade without the file
/// holds no watermark.
pub open spec fn stored_watermark(content: Option<Seq<u8>>) -> Result<
    Option<Timestamp>,
    WatermarkError,
> {
    match content {
        None => Ok(None),
        Some(text) => match parsed_watermark(text) {
            Ok(w) => Ok(Some(w)),
            Err(error) => Err(error),
        },
    }
}

/// The content of a file that may not exist.
pub open spec fn content_view(content: Option<&[u8]>) -> Option<Seq<u8>> {
    match content {
        Some(text) => Some(text@),
        None => None,
    }
}

fn is_space_byte(b: u8) -> (r: bool)
    ensures
        r == is_space(b),
{
    b == 0x20 || (0x09 <= b && b <= 0x0d)
}

fn skip_spaces(text: &[u8], from: usize) -> (at: usize)
    requires
        from <= text.len(),
    ensures
        at == field_start(text@, from as int),
        from <= at <= text.len(),
{
    let mut at = from;
    while at < text.len() && is_space_byte(text[at])
        invariant
            from <= at <= text.len(),
            field_start(text@, from as int) == field_start(text@, at as int),
        decreases text.len() - at,
    {
        at += 1;
    }
    at
}

fn skip_field(text: &[u8], from: usize) -> (at: usize)
    requires
        from <= text.len(),
    ensures
        at == field_end(text@, from as int),
        from <= at <= text.len(),
{
    let mut at = from;
    while at < text.len() && !is_space_byte(text[at])
        invariant
            from <= at <= text.len(),
            field_end(text@, from as int) == field_end(text@, at as int),
        decreases text.len() - at,
    {
        at += 1;
    }
    at
}

/// Reads the content of a watermark file.
pub fn parse_watermark(text: &[u8]) -> (r: Result<Timestamp, WatermarkError>)
    ensures
        r == parsed_watermark(text@),
{
    let a = skip_spaces(text, 0);
    let b = skip_field(text, a);
    if a == b {
        return Err(WatermarkError::MissingSeconds);
    }
    let seconds = match read_i64(&text[a..b]) {
        Some(seconds) => seconds,
        None => {
            return Err(WatermarkError::BadSeconds);
        },
    };
    let c = skip_spaces(text, b);
    let d = skip_field(text, c);
    if c == d {
        return Err(WatermarkError::MissingOffset);
    }
    match read_i32(&text[c..d]) {
        Some(offset_minutes) => Ok(Timestamp { seconds, offset_minutes }),
        None => Err(WatermarkError::BadOffset),
    }
}

/// Reads the watermark that a façade holds from the content of its
/// watermark file, `None` where the file does not exist.
pub fn read_watermark(content: Option<&[u8]>) -> (r: Result<Option<Timestamp>, WatermarkError>)
    ensures
        r == stored_watermark(content_view(content)),
{
    match content {
        None => Ok(None),
        Some(text) => match parse_watermark(text) {
            Ok(w) => Ok(Some(w)),
            Err(error) => Err(error),
        },
    }
}

/// Writes the content of the watermark file for `w`.
pub fn format_watermark(w: &Timestamp) -> (text: Vec<u8>)
    ensures
        text@ == watermark_text(*w),
{
    let mut text = write_i64(w.seconds);
    text.push(0x20);
    let mut offset = write_i64(w.offset_minutes as i64);
    text.append(&mut offset);
    text
}

/// A field that starts at `from` ends at `to` where no whitespace lies
/// between the two and `to` holds whitespace or is the end.
proof fn lemma_field_end(text: Seq<u8>, from: int, to: int)
    requires
        0 <= from <= to <= text.len(),
        forall|i: int| from <= i < to ==> !is_space(#[trigger] text[i]),
        to < text.len() ==> is_space(text[to]),
    ensures
        field_end(text, from) == to,
    decreases to - from,
{
    if from < to {
        lemma_field_end(text, from + 1, to);
    }
}

/// The decimal text of an integer is not empty and holds no whitespace.
proof fn lemma_decimal_text_is_field(v: int)
    ensures
        decimal_text(v).len() >= 1,
        forall|i: int| 0 <= i < decimal_text(v).len() ==> !is_space(#[trigger] decimal_text(v)[i]),
{
    let text = decimal_text(v);
    if v < 0 {
        lemma_digits_of((-v) as nat);
        assert forall|i: int| 0 <= i < text.len() implies !is_space(#[trigger] text[i]) by {
            if i > 0 {
                assert(is_digit(digits_of((-v) as nat)[i - 1]));
            }
        }
    } else {
        lemma_digits_of(v as nat);
        assert forall|i: int| 0 <= i < text.len() implies !is_space(#[trigger] text[i]) by {
            assert(is_digit(text[i]));
        }
    }
}

/// A watermark that was written is read back unchanged.
pub proof fn lemma_watermark_round_trip(w: Timestamp)
    ensures
        parsed_watermark(watermark_text(w)) == Ok::<Timestamp, WatermarkError>(w),
{
    let first = decimal_text(w.seconds as int);
    let second = decimal_text(w.offset_minutes as int);
    let text = watermark_text(w);
    let b = first.len() as int;
    let c = b + 1;
    let d = text.len() as int;
    lemma_decimal_text_is_field(w.seconds as int);
    lemma_decimal_text_is_field(w.offset_minutes as int);
    lemma_decimal_round_trip(w.seconds as int);
    lemma_decimal_round_trip(w.offset_minutes as int);
    assert forall|i: int| 0 <= i < b implies !is_space(#[trigger] text[i]) by {
        assert(text[i] == first[i]);
    }
    assert forall|i: int| c <= i < d implies !is_space(#[trigger] text[i]) by {
        assert(text[i] == second[i - c]);
    }
    lemma_field_end(text, 0, b);
    assert(field_start(text, b) == c) by {
        assert(field_start(text, c) == c);
    }
    lemma_field_end(text, c, d);
    assert(text.subrange(0, b) =~= first);
    assert(text.subrange(c, d) =~= second);
}

} // verus!
