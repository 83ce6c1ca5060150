//! The text of a document: what a text spells.
//!
//! A document is written as an object in braces. An object holds fields, each
//! a name, a colon and a value; a second name before the name is a prefix. A
//! value is an object, an array in square brackets, a number, `true` or
//! `false`, a string in double quotes, a colour as `#` and six or eight
//! hexadecimal digits, a name, a name before an object, which makes the
//! object a copy of the object named, or a name in double braces before an
//! object, which makes the object an instance of the type named. Blanks,
//! line breaks and commas separate, and `//` starts a comment that runs to
//! the end of its line. A field can also be a function: a prefix, a name,
//! and from the `(` after the name everything up to the end of the first
//! block in braces, which is kept as it stands. The text is UTF-8: a
//! string, a comment and a function can hold any characters, and places in
//! the text are counted in bytes.

use vstd::prelude::*;
use vstd::utf8::decode_utf8;
use crate::live_float::{pow10, LiveFloat};
use crate::live_id::{id_of_bytes, LiveFileId, LiveId, LiveType};
use crate::live_node::{LiveNodeOrigin, LiveNodeView, LiveValueView};

verus! {

/// Whether a byte separates: a blank, a tab, a line break or a comma.
pub open spec fn is_space(b: u8) -> bool {
    b == 0x20 || b == 0x09 || b == 0x0a || b == 0x0d || b == 0x2c
}

/// Whether a byte is a letter or an underscore.
pub open spec fn is_alpha(b: u8) -> bool {
    (0x41 <= b <= 0x5a) || (0x61 <= b <= 0x7a) || b == 0x5f
}

/// Whether a byte is a decimal digit.
pub open spec fn is_digit(b: u8) -> bool {
    0x30 <= b <= 0x39
}

/// Whether a byte can stand in a name: a letter, an underscore or a digit.
pub open spec fn is_ident(b: u8) -> bool {
    is_alpha(b) || is_digit(b)
}

/// The value of a hexadecimal digit.
pub open spec fn hex_value(b: u8) -> Option<u32> {
    if 0x30 <= b <= 0x39 {
        Some((b - 0x30) as u32)
    } else if 0x61 <= b <= 0x66 {
        Some((b - 0x61 + 10) as u32)
    } else if 0x41 <= b <= 0x46 {
        Some((b - 0x41 + 10) as u32)
    } else {
        None
    }
}

/// The index of the first line break at or after `at`, or the length of the
/// text where there is none.
pub open spec fn line_end(text: Seq<u8>, at: int) -> int
    decreases text.len() - at,
{
    if at < 0 || at >= text.len() {
        text.len() as int
    } else if text[at] == 0x0a {
        at
    } else {
        line_end(text, at + 1)
    }
}

/// The index of the first byte at or after `at` that is neither a separator
/// nor part of a comment.
pub open spec fn skip_space(text: Seq<u8>, at: int) -> int
    decreases text.len() - at,
{
    if at < 0 || at >= text.len() {
        at
    } else if is_space(text[at]) {
        skip_space(text, at + 1)
    } else if text[at] == 0x2f && at + 1 < text.len() && text[at + 1] == 0x2f {
        let end = line_end(text, at + 2);
        if at < end <= text.len() {
            skip_space(text, end)
        } else {
            at
        }
    } else {
        at
    }
}

/// The index of the first byte at or after `at` that cannot stand in a name.
pub open spec fn ident_end(text: Seq<u8>, at: int) -> int
    decreases text.len() - at,
{
    if 0 <= at < text.len() && is_ident(text[at]) {
        ident_end(text, at + 1)
    } else {
        at
    }
}

/// The index of the first byte at or after `at` that is no decimal digit.
pub open spec fn digits_end(text: Seq<u8>, at: int) -> int
    decreases text.len() - at,
{
    if 0 <= at < text.len() && is_digit(text[at]) {
        digits_end(text, at + 1)
    } else {
        at
    }
}

/// The index of the first byte at or after `at` that is no hexadecimal
/// digit.
pub open spec fn hex_end(text: Seq<u8>, at: int) -> int
    decreases text.len() - at,
{
    if 0 <= at < text.len() && hex_value(text[at]) is Some {
        hex_end(text, at + 1)
    } else {
        at
    }
}

/// The index of the first double quote at or after `at`, or the length of
/// the text where there is none.
pub open spec fn quote_at(text: Seq<u8>, at: int) -> int
    decreases text.len() - at,
{
    if at < 0 || at >= text.len() {
        text.len() as int
    } else if text[at] == 0x22 {
        at
    } else {
        quote_at(text, at + 1)
    }
}

/// The number that the decimal digits from `start` up to `end` spell.
pub open spec fn digits_value(text: Seq<u8>, start: int, end: int) -> nat
    decreases end - start,
{
    if start >= end {
        0
    } else {
        (digits_value(text, start, end - 1) * 10 + (text[end - 1] - 0x30)) as nat
    }
}

/// The number that the hexadecimal digits from `start` up to `end` spell.
pub open spec fn hex_digits_value(text: Seq<u8>, start: int, end: int) -> nat
    decreases end - start,
{
    if start >= end {
        0
    } else {
        (hex_digits_value(text, start, end - 1) * 16 + match hex_value(text[end - 1]) {
            Some(v) => v as int,
            None => 0,
        }) as nat
    }
}

/// The number of the line that the byte at `at` stands in, from 1.
pub open spec fn line_of(text: Seq<u8>, at: int) -> nat
    decreases at,
{
    if at <= 0 || at > text.len() {
        1
    } else if text[at - 1] == 0x0a {
        line_of(text, at - 1) + 1
    } else {
        line_of(text, at - 1)
    }
}

/// The place in its line of the byte at `at`, from 1.
pub open spec fn column_of(text: Seq<u8>, at: int) -> nat
    decreases at,
{
    if at <= 0 || at > text.len() || text[at - 1] == 0x0a {
        1
    } else {
        column_of(text, at - 1) + 1
    }
}

/// The origin of a node that is written at `at`.
pub open spec fn origin_at(text: Seq<u8>, file_id: LiveFileId, at: int, has_prefix: bool)
    -> LiveNodeOrigin {
    LiveNodeOrigin {
        file_id,
        line: line_of(text, at) as u32,
        column: column_of(text, at) as u32,
        has_prefix,
    }
}

/// Nodes that were read, and the index just past what they were read from.
pub struct Parsed {
    pub nodes: Seq<LiveNodeView>,
    pub end: int,
}

/// The node of a scalar, and the end of the scalar.
pub open spec fn scalar(origin: LiveNodeOrigin, id: LiveId, value: LiveValueView, end: int) -> Option<
    Parsed,
> {
    Some(Parsed { nodes: seq![LiveNodeView { origin, id, value }], end })
}

/// The nodes of a scope: its open marker and then its body.
pub open spec fn scope(origin: LiveNodeOrigin, id: LiveId, value: LiveValueView, body: Option<Parsed>)
    -> Option<Parsed> {
    match body {
        Some(body) => Some(
            Parsed { nodes: seq![LiveNodeView { origin, id, value }] + body.nodes, end: body.end },
        ),
        None => None,
    }
}

/// The number that starts at `at`: an integer where it has no point, which
/// has to lie in the range of `i64`; else the nearest number to the
/// decimal, which can have no more digits than a `u64` holds, and no more
/// than 19 of them after the point.
pub open spec fn parse_number(
    text: Seq<u8>,
    at: int,
    origin: LiveNodeOrigin,
    id: LiveId,
) -> Option<Parsed> {
    let negative = text[at] == 0x2d;
    let start = if negative {
        at + 1
    } else {
        at
    };
    let end = digits_end(text, start);
    let whole = digits_value(text, start, end);
    if end <= start {
        None
    } else if end < text.len() && text[end] == 0x2e {
        let last = digits_end(text, end + 1);
        let digits = last - end - 1;
        let mantissa = whole * pow10(digits as nat) + digits_value(text, end + 1, last);
        if digits <= 19 && mantissa <= u64::MAX {
            scalar(
                origin,
                id,
                LiveValueView::Float(
                    LiveFloat::spec_from_decimal(negative, mantissa as u64, digits as nat),
                ),
                last,
            )
        } else {
            None
        }
    } else if negative {
        if whole <= 0x8000_0000_0000_0000 {
            scalar(origin, id, LiveValueView::Int((-whole) as i64), end)
        } else {
            None
        }
    } else {
        if whole <= i64::MAX {
            scalar(origin, id, LiveValueView::Int(whole as i64), end)
        } else {
            None
        }
    }
}

/// The colour that starts at `at` with `#`: six hexadecimal digits for red,
/// green and blue, with which the colour is opaque, or eight, with the last
/// two for alpha.
pub open spec fn parse_color(text: Seq<u8>, at: int, origin: LiveNodeOrigin, id: LiveId) -> Option<
    Parsed,
> {
    let end = hex_end(text, at + 1);
    let value = hex_digits_value(text, at + 1, end);
    if end - at - 1 == 8 {
        scalar(origin, id, LiveValueView::Color(value as u32), end)
    } else if end - at - 1 == 6 {
        scalar(origin, id, LiveValueView::Color((value * 256 + 255) as u32), end)
    } else {
        None
    }
}

/// Whether the bytes from `start` up to `end` spell `word`.
pub open spec fn spells(text: Seq<u8>, start: int, end: int, word: Seq<u8>) -> bool {
    0 <= start <= end <= text.len() && text.subrange(start, end) == word
}

/// The string whose opening quote stands at `at`: the characters that the
/// bytes up to the next quote encode, which has to come.
pub open spec fn parse_string(text: Seq<u8>, at: int, origin: LiveNodeOrigin, id: LiveId) -> Option<
    Parsed,
> {
    let end = quote_at(text, at + 1);
    if at < end < text.len() {
        scalar(origin, id, LiveValueView::Str(decode_utf8(text.subrange(at + 1, end))), end + 1)
    } else {
        None
    }
}

/// The instance of a type whose double brace stands at `at`: the name of
/// the type in double braces, and then its fields in braces.
pub open spec fn parse_class(
    text: Seq<u8>,
    file_id: LiveFileId,
    at: int,
    origin: LiveNodeOrigin,
    id: LiveId,
) -> Option<Parsed>
    decreases text.len() - at, 1nat,
{
    let name = skip_space(text, at + 2);
    let name_end = ident_end(text, name);
    let closing = skip_space(text, name_end);
    let open = skip_space(text, closing + 2);
    if 0 <= at && at + 2 <= name < name_end <= closing && closing + 2 <= open < text.len()
        && is_alpha(text[name]) && text[closing] == 0x7d && text[closing + 1] == 0x7d && text[open]
        == 0x7b {
        scope(
            origin,
            id,
            LiveValueView::Class { live_type: LiveType(id_of_bytes(text.subrange(name, name_end)).0) },
            parse_fields(text, file_id, open + 1),
        )
    } else {
        None
    }
}

/// What starts with a name at `at`: `true`, `false`, a copy of the object
/// named where an object follows the name, or else the name itself.
pub open spec fn parse_name(
    text: Seq<u8>,
    file_id: LiveFileId,
    at: int,
    origin: LiveNodeOrigin,
    id: LiveId,
) -> Option<Parsed>
    decreases text.len() - at, 1nat,
{
    let end = ident_end(text, at);
    let open = skip_space(text, end);
    if !(0 <= at < end <= open) {
        None
    } else if spells(text, at, end, seq![0x74u8, 0x72, 0x75, 0x65]) {
        scalar(origin, id, LiveValueView::Bool(true), end)
    } else if spells(text, at, end, seq![0x66u8, 0x61, 0x6c, 0x73, 0x65]) {
        scalar(origin, id, LiveValueView::Bool(false), end)
    } else if open < text.len() && text[open] == 0x7b {
        scope(
            origin,
            id,
            LiveValueView::Clone(id_of_bytes(text.subrange(at, end))),
            parse_fields(text, file_id, open + 1),
        )
    } else {
        scalar(origin, id, LiveValueView::Id(id_of_bytes(text.subrange(at, end))), end)
    }
}

/// The value that starts at `at`, read for the field `id` with the origin
/// `origin`.
pub open spec fn parse_value(
    text: Seq<u8>,
    file_id: LiveFileId,
    at: int,
    origin: LiveNodeOrigin,
    id: LiveId,
) -> Option<Parsed>
    decreases text.len() - at, 2nat,
{
    if at < 0 || at >= text.len() {
        None
    } else if text[at] == 0x7b {
        if at + 1 < text.len() && text[at + 1] == 0x7b {
            parse_class(text, file_id, at, origin, id)
        } else {
            scope(origin, id, LiveValueView::Object, parse_fields(text, file_id, at + 1))
        }
    } else if text[at] == 0x5b {
        scope(origin, id, LiveValueView::Array, parse_items(text, file_id, at + 1))
    } else if text[at] == 0x22 {
        parse_string(text, at, origin, id)
    } else if text[at] == 0x23 {
        parse_color(text, at, origin, id)
    } else if text[at] == 0x2d || is_digit(text[at]) {
        parse_number(text, at, origin, id)
    } else if is_alpha(text[at]) {
        parse_name(text, file_id, at, origin, id)
    } else {
        None
    }
}

/// The close marker that is written at `at`.
pub open spec fn close_at(text: Seq<u8>, file_id: LiveFileId, at: int) -> Parsed {
    Parsed {
        nodes: seq![
            LiveNodeView {
                origin: origin_at(text, file_id, at, false),
                id: LiveId(0),
                value: LiveValueView::Close,
            },
        ],
        end: at + 1,
    }
}

/// The index of the first `{` at or after `at`, or the length of the text
/// where there is none.
pub open spec fn brace_at(text: Seq<u8>, at: int) -> int
    decreases text.len() - at,
{
    if at < 0 || at >= text.len() {
        text.len() as int
    } else if text[at] == 0x7b {
        at
    } else {
        brace_at(text, at + 1)
    }
}

/// The index just past the `}` that closes the block which is open `depth`
/// deep at `at`, or `None` where the text ends first.
pub open spec fn block_end(text: Seq<u8>, at: int, depth: nat) -> Option<int>
    decreases text.len() - at,
{
    if at < 0 || at >= text.len() || depth == 0 {
        None
    } else if text[at] == 0x7b {
        block_end(text, at + 1, depth + 1)
    } else if text[at] == 0x7d {
        if depth == 1 {
            Some(at + 1)
        } else {
            block_end(text, at + 1, (depth - 1) as nat)
        }
    } else {
        block_end(text, at + 1, depth)
    }
}

/// The function whose prefix stands at `first`, whose name stands at `name`,
/// and whose `(` stands at `paren`: everything from the prefix up to the
/// end of the first block in braces is its body.
pub open spec fn parse_function(
    text: Seq<u8>,
    file_id: LiveFileId,
    first: int,
    name: int,
    name_end: int,
    paren: int,
) -> Option<Parsed> {
    let open = brace_at(text, paren);
    match block_end(text, open + 1, 1) {
        Some(end) => if 0 <= first < end <= text.len() {
            scalar(
                origin_at(text, file_id, name, true),
                id_of_bytes(text.subrange(name, name_end)),
                LiveValueView::Dsl { start: first as u32, end: end as u32 },
                end,
            )
        } else {
            None
        },
        None => None,
    }
}

/// The field that starts at `first`: a name, or a prefix and a name, then a
/// colon, then the value; or a prefix, a name and a function.
pub open spec fn parse_field(text: Seq<u8>, file_id: LiveFileId, first: int) -> Option<Parsed>
    decreases text.len() - first, 3nat,
{
    let first_end = ident_end(text, first);
    let second = skip_space(text, first_end);
    let has_prefix = second < text.len() && is_alpha(text[second]);
    let name = if has_prefix {
        second
    } else {
        first
    };
    let name_end = ident_end(text, name);
    let colon = skip_space(text, name_end);
    let value = skip_space(text, colon + 1);
    if 0 <= first < first_end <= second && name < name_end <= colon && colon < text.len()
        && text[colon] == 0x3a && colon < value <= text.len() {
        parse_value(
            text,
            file_id,
            value,
            origin_at(text, file_id, name, has_prefix),
            id_of_bytes(text.subrange(name, name_end)),
        )
    } else if 0 <= first < first_end <= second && name < name_end <= colon && colon < text.len()
        && text[colon] == 0x28 && has_prefix {
        parse_function(text, file_id, first, name, name_end, colon)
    } else {
        None
    }
}

/// What was read first, and after it the rest.
pub open spec fn followed_by(first: Parsed, rest: Option<Parsed>) -> Option<Parsed> {
    match rest {
        Some(rest) => Some(Parsed { nodes: first.nodes + rest.nodes, end: rest.end }),
        None => None,
    }
}

/// The fields from `at` up to the `}` that closes their object, and the
/// close marker.
pub open spec fn parse_fields(text: Seq<u8>, file_id: LiveFileId, at: int) -> Option<Parsed>
    decreases text.len() - at, 4nat,
{
    let first = skip_space(text, at);
    if at < 0 || first < at || first >= text.len() {
        None
    } else if text[first] == 0x7d {
        Some(close_at(text, file_id, first))
    } else if !is_alpha(text[first]) {
        None
    } else {
        match parse_field(text, file_id, first) {
            Some(field) => if first < field.end <= text.len() {
                followed_by(field, parse_fields(text, file_id, field.end))
            } else {
                None
            },
            None => None,
        }
    }
}

/// The items from `at` up to the `]` that closes their array, and the close
/// marker.
pub open spec fn parse_items(text: Seq<u8>, file_id: LiveFileId, at: int) -> Option<Parsed>
    decreases text.len() - at, 4nat,
{
    let first = skip_space(text, at);
    if at < 0 || first < at || first >= text.len() {
        None
    } else if text[first] == 0x5d {
        Some(close_at(text, file_id, first))
    } else {
        match parse_value(text, file_id, first, origin_at(text, file_id, first, false), LiveId(0)) {
            Some(item) => if first < item.end <= text.len() {
                followed_by(item, parse_items(text, file_id, item.end))
            } else {
                None
            },
            None => None,
        }
    }
}

/// The nodes of the document that a text spells: the text has to be one
/// object, with nothing but separators and comments around it, and no
/// longer than a pointer can reach into.
#[verifier::opaque]
pub open spec fn parse_text(text: Seq<u8>, file_id: LiveFileId) -> Option<Seq<LiveNodeView>> {
    let start = skip_space(text, 0);
    if text.len() >= u32::MAX || start < 0 || start >= text.len() || text[start] != 0x7b {
        None
    } else {
        match parse_value(text, file_id, start, origin_at(text, file_id, start, false), LiveId(0)) {
            Some(document) => if skip_space(text, document.end) == text.len() {
                Some(document.nodes)
            } else {
                None
            },
            None => None,
        }
    }
}

} // verus!
