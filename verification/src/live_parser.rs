//! Reading a document from its text, as the format of documents spells it,
//! and registering the text of a module.

use vstd::prelude::*;
use vstd::string::StringSliceAdditionalSpecFns;
use vstd::utf8::{
    decode_utf8, encode_utf8_decode_utf8, encode_utf8_valid_utf8, is_char_boundary,
    is_char_boundary_iff_not_is_continuation_byte,
};
use crate::live_float::{lemma_pow10, pow10, LiveFloat};
use crate::live_format::{
    Parsed, block_end, brace_at, close_at, column_of, digits_end, digits_value,
    followed_by, hex_digits_value, hex_end, hex_value, ident_end, is_alpha, is_digit, is_ident,
    is_space, line_end, line_of, origin_at, parse_class, parse_color, parse_field, parse_fields,
    parse_function, parse_items, parse_name, parse_number, parse_string, parse_text,
    parse_value, quote_at, scope, skip_space, spells,
};
use crate::live_id::{id_of_bytes, LiveFileId, LiveId, LiveModuleId, LiveType};
use crate::live_node::{
    node_end, nodes_view, scope_end, LiveNode, LiveNodeOrigin, LiveNodeView, LiveValue,
    LiveValueView,
};
use crate::live_node_slice::is_document;
use crate::live_registry::{LivePtr, LiveRegistry, LiveRegistryError, MAX_LIVE_FILES};

verus! {

fn is_space_byte(b: u8) -> (r: bool)
    ensures
        r == is_space(b),
{
    b == 0x20 || b == 0x09 || b == 0x0a || b == 0x0d || b == 0x2c
}

fn is_alpha_byte(b: u8) -> (r: bool)
    ensures
        r == is_alpha(b),
{
    (0x41 <= b && b <= 0x5a) || (0x61 <= b && b <= 0x7a) || b == 0x5f
}

fn is_digit_byte(b: u8) -> (r: bool)
    ensures
        r == is_digit(b),
{
    0x30 <= b && b <= 0x39
}

fn hex_digit(b: u8) -> (r: Option<u32>)
    ensures
        r == hex_value(b),
        r matches Some(v) ==> v < 16,
{
    if 0x30 <= b && b <= 0x39 {
        Some((b - 0x30) as u32)
    } else if 0x61 <= b && b <= 0x66 {
        Some((b - 0x61 + 10) as u32)
    } else if 0x41 <= b && b <= 0x46 {
        Some((b - 0x41 + 10) as u32)
    } else {
        None
    }
}

fn find_line_end(text: &[u8], at: usize) -> (r: usize)
    requires
        at <= text@.len(),
    ensures
        r == line_end(text@, at as int),
        at <= r <= text@.len(),
{
    let mut i: usize = at;
    while i < text.len() && text[i] != 0x0a
        invariant
            at <= i <= text@.len(),
            line_end(text@, i as int) == line_end(text@, at as int),
        decreases text@.len() - i,
    {
        i += 1;
    }
    i
}

fn find_space_end(text: &[u8], at: usize) -> (r: usize)
    requires
        at <= text@.len(),
    ensures
        r == skip_space(text@, at as int),
        at <= r <= text@.len(),
{
    let len: usize = text.len();
    let mut i: usize = at;
    loop
        invariant_except_break
            len == text@.len(),
            at <= i <= len,
            skip_space(text@, i as int) == skip_space(text@, at as int),
        ensures
            at <= i <= len,
            i == skip_space(text@, at as int),
        decreases len - i,
    {
        if i >= len {
            break ;
        }
        if is_space_byte(text[i]) {
            i += 1;
        } else if text[i] == 0x2f && len - i > 1 && text[i + 1] == 0x2f {
            let end: usize = find_line_end(text, i + 2);
            i = end;
        } else {
            break ;
        }
    }
    i
}

fn find_ident_end(text: &[u8], at: usize) -> (r: usize)
    requires
        at <= text@.len(),
    ensures
        r == ident_end(text@, at as int),
        at <= r <= text@.len(),
{
    let mut i: usize = at;
    while i < text.len() && (is_alpha_byte(text[i]) || is_digit_byte(text[i]))
        invariant
            at <= i <= text@.len(),
            ident_end(text@, i as int) == ident_end(text@, at as int),
        decreases text@.len() - i,
    {
        i += 1;
    }
    i
}

fn find_quote(text: &[u8], at: usize) -> (r: usize)
    requires
        at <= text@.len(),
    ensures
        r == quote_at(text@, at as int),
        at <= r <= text@.len(),
        r < text@.len() ==> text@[r as int] == 0x22,
{
    let mut i: usize = at;
    while i < text.len() && text[i] != 0x22
        invariant
            at <= i <= text@.len(),
            quote_at(text@, i as int) == quote_at(text@, at as int),
        decreases text@.len() - i,
    {
        i += 1;
    }
    i
}

/// The digits from `start` spell a number that grows with every digit.
proof fn lemma_digits_value_step(text: Seq<u8>, start: int, end: int)
    requires
        start <= end,
        is_digit(text[end]),
    ensures
        digits_value(text, start, end + 1) == digits_value(text, start, end) * 10 + (text[end]
            - 0x30),
{
}

/// Reads decimal digits from `at` on into `value`, which holds the number
/// that the digits before them spell. Returns the end of the digits, the
/// number that all the digits spell, and how many digits were read; or
/// `None` where the number does not fit.
fn read_digits(text: &[u8], at: usize, value: u64) -> (r: Option<(usize, u64, usize)>)
    requires
        at <= text@.len(),
    ensures
        match r {
            Some((end, total, count)) => {
                &&& end == digits_end(text@, at as int)
                &&& at <= end <= text@.len()
                &&& count == end - at
                &&& total == value * pow10(count as nat) + digits_value(text@, at as int, end as int)
            },
            None => value * pow10((digits_end(text@, at as int) - at) as nat) + digits_value(
                text@,
                at as int,
                digits_end(text@, at as int),
            ) > u64::MAX,
        },
{
    let mut i: usize = at;
    let mut total: u64 = value;
    let mut overflow: bool = false;
    let ghost end = digits_end(text@, at as int);
    proof {
        lemma_digits_end(text@, at as int);
        assert(value * pow10(0) == value) by (nonlinear_arith)
            requires
                pow10(0) == 1,
        ;
    }
    while i < text.len() && is_digit_byte(text[i])
        invariant
            at <= i <= end <= text@.len(),
            end == digits_end(text@, at as int),
            digits_end(text@, i as int) == end,
            forall|j: int| at <= j < i ==> is_digit(#[trigger] text@[j]),
            !overflow ==> total == value * pow10((i - at) as nat) + digits_value(
                text@,
                at as int,
                i as int,
            ),
            overflow ==> value * pow10((i - at) as nat) + digits_value(text@, at as int, i as int)
                > u64::MAX,
        decreases text@.len() - i,
    {
        let digit: u64 = (text[i] - 0x30) as u64;
        proof {
            lemma_digits_end(text@, i + 1);
            lemma_digits_value_step(text@, at as int, i as int);
            let before = value * pow10((i - at) as nat) + digits_value(text@, at as int, i as int);
            let after = value * pow10((i + 1 - at) as nat) + digits_value(
                text@,
                at as int,
                i + 1,
            );
            assert(pow10((i + 1 - at) as nat) == 10 * pow10((i - at) as nat));
            assert(after == before * 10 + digit) by (nonlinear_arith)
                requires
                    after == value * (10 * pow10((i - at) as nat)) + (digits_value(
                        text@,
                        at as int,
                        i as int,
                    ) * 10 + digit),
                    before == value * pow10((i - at) as nat) + digits_value(
                        text@,
                        at as int,
                        i as int,
                    ),
            ;
        }
        if !overflow {
            if total > (u64::MAX - digit) / 10 {
                overflow = true;
            } else {
                total = total * 10 + digit;
            }
        }
        i += 1;
    }
    if overflow {
        None
    } else {
        Some((i, total, i - at))
    }
}

/// The digits end where the text ends or a byte that is no digit stands.
proof fn lemma_digits_end(text: Seq<u8>, at: int)
    requires
        0 <= at <= text.len(),
    ensures
        at <= digits_end(text, at) <= text.len(),
        forall|j: int| at <= j < digits_end(text, at) ==> is_digit(#[trigger] text[j]),
    decreases text.len() - at,
{
    if at < text.len() && is_digit(text[at]) {
        lemma_digits_end(text, at + 1);
    }
}

/// The line and the column of a place in a text, kept so that the place of
/// a later node is found from the place of an earlier one.
struct Locator {
    at: usize,
    line: u32,
    column: u32,
}

/// Lines and columns are no greater than the number of bytes before them
/// and one.
proof fn lemma_line_column_bounds(text: Seq<u8>, at: int)
    requires
        0 <= at <= text.len(),
    ensures
        1 <= line_of(text, at) <= at + 1,
        1 <= column_of(text, at) <= at + 1,
    decreases at,
{
    if at > 0 {
        lemma_line_column_bounds(text, at - 1);
    }
}

impl Locator {
    spec fn inv(&self, text: Seq<u8>) -> bool {
        &&& self.at <= text.len()
        &&& self.line == line_of(text, self.at as int)
        &&& self.column == column_of(text, self.at as int)
    }

    fn new() -> (r: Locator)
        ensures
            forall|text: Seq<u8>| r.inv(text),
    {
        Locator { at: 0, line: 1, column: 1 }
    }

    fn origin(&mut self, text: &[u8], file_id: LiveFileId, target: usize, has_prefix: bool) -> (r:
        LiveNodeOrigin)
        requires
            old(self).inv(text@),
            target <= text@.len() < u32::MAX,
        ensures
            final(self).inv(text@),
            r == origin_at(text@, file_id, target as int, has_prefix),
    {
        if target < self.at {
            self.at = 0;
            self.line = 1;
            self.column = 1;
        }
        while self.at < target
            invariant
                self.inv(text@),
                self.at <= target <= text@.len() < u32::MAX,
            decreases target - self.at,
        {
            proof {
                lemma_line_column_bounds(text@, self.at as int);
                lemma_line_column_bounds(text@, self.at + 1);
            }
            if text[self.at] == 0x0a {
                self.line = self.line + 1;
                self.column = 1;
            } else {
                self.column = self.column + 1;
            }
            self.at = self.at + 1;
        }
        LiveNodeOrigin { file_id, line: self.line, column: self.column, has_prefix }
    }
}

/// What was read agrees with what the text spells.
spec fn agrees(
    before: Seq<LiveNode>,
    after: Seq<LiveNode>,
    read: Option<usize>,
    spelled: Option<Parsed>,
) -> bool {
    match read {
        Some(end) => spelled matches Some(parsed) && end == parsed.end && nodes_view(after)
            == nodes_view(before) + parsed.nodes,
        None => spelled is None,
    }
}

fn push_node(out: &mut Vec<LiveNode>, origin: LiveNodeOrigin, id: LiveId, value: LiveValue)
    ensures
        nodes_view(final(out)@) == nodes_view(old(out)@) + seq![
            LiveNodeView { origin, id, value: value@ },
        ],
{
    out.push(LiveNode { origin, id, value });
    proof {
        assert(nodes_view(out@) =~= nodes_view(old(out)@) + seq![
            LiveNodeView { origin, id, value: value@ },
        ]);
    }
}

fn read_number(text: &[u8], at: usize, origin: LiveNodeOrigin, id: LiveId, out: &mut Vec<LiveNode>)
    -> (r: Option<usize>)
    requires
        at < text@.len(),
    ensures
        agrees(old(out)@, final(out)@, r, parse_number(text@, at as int, origin, id)),
        r matches Some(end) ==> at < end <= text@.len(),
{
    let negative: bool = text[at] == 0x2d;
    let start: usize = if negative {
        at + 1
    } else {
        at
    };
    proof {
        lemma_digits_end(text@, start as int);
        assert(0 * pow10((digits_end(text@, start as int) - start) as nat) == 0) by (nonlinear_arith);
    }
    let (end, whole) = match read_digits(text, start, 0) {
        Some((end, whole, _)) => (end, whole),
        None => {
            proof {
                let end = digits_end(text@, start as int);
                let whole = digits_value(text@, start as int, end);
                assert(whole > u64::MAX);
                if end < text@.len() && text@[end] == 0x2e {
                    let last = digits_end(text@, end + 1);
                    lemma_digits_end(text@, end + 1);
                    let digits = (last - end - 1) as nat;
                    if digits <= 19 {
                        lemma_pow10(digits);
                    }
                    assert(digits <= 19 ==> whole * pow10(digits) >= whole) by (nonlinear_arith)
                        requires
                            digits <= 19 ==> pow10(digits) >= 1,
                            whole >= 0,
                    ;
                }
            }
            return None;
        },
    };
    proof {
        assert(0 * pow10((end - start) as nat) == 0) by (nonlinear_arith);
    }
    if end == start {
        return None;
    }
    if end < text.len() && text[end] == 0x2e {
        proof {
            lemma_digits_end(text@, end + 1);
        }
        match read_digits(text, end + 1, whole) {
            Some((last, mantissa, digits)) => {
                if digits <= 19 {
                    let value = LiveFloat::from_decimal(negative, mantissa, digits as u8);
                    push_node(out, origin, id, LiveValue::Float(value));
                    Some(last)
                } else {
                    None
                }
            },
            None => None,
        }
    } else if negative {
        if whole <= 0x8000_0000_0000_0000 {
            let value: i64 = if whole == 0x8000_0000_0000_0000 {
                i64::MIN
            } else {
                -(whole as i64)
            };
            push_node(out, origin, id, LiveValue::Int(value));
            Some(end)
        } else {
            None
        }
    } else {
        if whole <= i64::MAX as u64 {
            push_node(out, origin, id, LiveValue::Int(whole as i64));
            Some(end)
        } else {
            None
        }
    }
}

proof fn lemma_hex_end(text: Seq<u8>, at: int)
    requires
        0 <= at <= text.len(),
    ensures
        at <= hex_end(text, at) <= text.len(),
    decreases text.len() - at,
{
    if at < text.len() && hex_value(text[at]) is Some {
        lemma_hex_end(text, at + 1);
    }
}

fn read_color(text: &[u8], at: usize, origin: LiveNodeOrigin, id: LiveId, out: &mut Vec<LiveNode>)
    -> (r: Option<usize>)
    requires
        at < text@.len(),
    ensures
        agrees(old(out)@, final(out)@, r, parse_color(text@, at as int, origin, id)),
        r matches Some(end) ==> at < end <= text@.len(),
{
    let len: usize = text.len();
    let start: usize = at + 1;
    let mut i: usize = start;
    let mut value: u64 = 0;
    proof {
        lemma_hex_end(text@, start as int);
    }
    while i < len && i - start < 9 && hex_digit(text[i]).is_some()
        invariant
            len == text@.len(),
            start <= i <= text@.len(),
            i - start <= 9,
            hex_end(text@, i as int) == hex_end(text@, start as int),
            value == hex_digits_value(text@, start as int, i as int),
            value < pow16((i - start) as nat),
        decreases text@.len() - i,
    {
        let digit: u32 = match hex_digit(text[i]) {
            Some(digit) => digit,
            None => 0,
        };
        proof {
            lemma_hex_end(text@, i + 1);
            lemma_pow16((i - start) as nat);
        }
        value = value * 16 + digit as u64;
        i += 1;
    }
    proof {
        lemma_pow16(8);
        lemma_pow16(6);
        lemma_hex_end(text@, i as int);
    }
    if i - start == 8 {
        push_node(out, origin, id, LiveValue::Color(value as u32));
        Some(i)
    } else if i - start == 6 {
        push_node(out, origin, id, LiveValue::Color((value * 256 + 255) as u32));
        Some(i)
    } else {
        None
    }
}

/// 16 to the power `digits`.
spec fn pow16(digits: nat) -> nat
    decreases digits,
{
    if digits == 0 {
        1
    } else {
        16 * pow16((digits - 1) as nat)
    }
}

proof fn lemma_pow16(digits: nat)
    requires
        digits <= 9,
    ensures
        pow16(digits) <= 0x10_0000_0000,
        pow16(digits + 1) == 16 * pow16(digits),
        digits == 8 ==> pow16(digits) == 0x1_0000_0000,
        digits == 6 ==> pow16(digits) == 0x100_0000,
{
    reveal_with_fuel(pow16, 11);
}

fn spells_true(text: &[u8], start: usize, end: usize) -> (r: bool)
    requires
        start <= end <= text@.len(),
    ensures
        r == spells(text@, start as int, end as int, seq![0x74u8, 0x72, 0x75, 0x65]),
{
    let ghost word = seq![0x74u8, 0x72, 0x75, 0x65];
    if end - start == 4 && text[start] == 0x74 && text[start + 1] == 0x72 && text[start + 2] == 0x75
        && text[start + 3] == 0x65 {
        proof {
            assert(text@.subrange(start as int, end as int) =~= word);
        }
        true
    } else {
        proof {
            let sub = text@.subrange(start as int, end as int);
            if sub == word {
                assert(sub.len() == 4);
                assert(sub[0] == word[0] && sub[1] == word[1] && sub[2] == word[2] && sub[3]
                    == word[3]);
            }
        }
        false
    }
}

fn spells_false(text: &[u8], start: usize, end: usize) -> (r: bool)
    requires
        start <= end <= text@.len(),
    ensures
        r == spells(text@, start as int, end as int, seq![0x66u8, 0x61, 0x6c, 0x73, 0x65]),
{
    let ghost word = seq![0x66u8, 0x61, 0x6c, 0x73, 0x65];
    if end - start == 5 && text[start] == 0x66 && text[start + 1] == 0x61 && text[start + 2] == 0x6c
        && text[start + 3] == 0x73 && text[start + 4] == 0x65 {
        proof {
            assert(text@.subrange(start as int, end as int) =~= word);
        }
        true
    } else {
        proof {
            let sub = text@.subrange(start as int, end as int);
            if sub == word {
                assert(sub.len() == 5);
                assert(sub[0] == word[0] && sub[1] == word[1] && sub[2] == word[2] && sub[3]
                    == word[3] && sub[4] == word[4]);
            }
        }
        false
    }
}

/// The stretch of a text from `start` up to `end`, where a byte of ASCII
/// stands just before `start` and at `end`: between two such bytes no
/// character is cut.
fn text_between<'a>(source: &'a str, start: usize, end: usize) -> (r: &'a str)
    requires
        0 < start <= end < source.spec_bytes().len(),
        source.spec_bytes()[start - 1] < 0x80,
        source.spec_bytes()[end as int] < 0x80,
    ensures
        r.spec_bytes() == source.spec_bytes().subrange(start as int, end as int),
        r@ == decode_utf8(source.spec_bytes().subrange(start as int, end as int)),
{
    let ghost bytes = source.spec_bytes();
    proof {
        encode_utf8_valid_utf8(source@);
        is_char_boundary_iff_not_is_continuation_byte(bytes, start - 1);
    }
    let (_, tail) = source.split_at(start - 1);
    proof {
        encode_utf8_valid_utf8(tail@);
        assert(tail.spec_bytes()[0] == bytes[start - 1]);
        reveal_with_fuel(is_char_boundary, 2);
        assert(is_char_boundary(tail.spec_bytes(), 1));
    }
    let (_, rest) = tail.split_at(1);
    proof {
        encode_utf8_valid_utf8(rest@);
        assert(rest.spec_bytes() =~= bytes.subrange(start as int, bytes.len() as int));
        assert(rest.spec_bytes()[end - start] == bytes[end as int]);
        is_char_boundary_iff_not_is_continuation_byte(rest.spec_bytes(), end - start);
    }
    let (body, _) = rest.split_at(end - start);
    proof {
        assert(body.spec_bytes() =~= bytes.subrange(start as int, end as int));
        encode_utf8_decode_utf8(body@);
    }
    body
}

/// What reading needs of a text: it is the text of `source`, no longer than
/// a pointer can reach into.
spec fn readable(source: &str, text: Seq<u8>) -> bool {
    &&& text == source.spec_bytes()
    &&& text.len() < u32::MAX
}

/// Reads a scope: writes its open marker, and reads its fields from `body`
/// on.
fn read_object(
    source: &str,
    text: &[u8],
    file_id: LiveFileId,
    at: usize,
    body: usize,
    origin: LiveNodeOrigin,
    id: LiveId,
    marker: LiveValue,
    out: &mut Vec<LiveNode>,
    loc: &mut Locator,
) -> (r: Option<usize>)
    requires
        readable(source, text@),
        at < body <= text@.len(),
        old(loc).inv(text@),
    ensures
        final(loc).inv(text@),
        agrees(
            old(out)@,
            final(out)@,
            r,
            scope(origin, id, marker@, parse_fields(text@, file_id, body as int)),
        ),
        r matches Some(end) ==> at < end <= text@.len(),
    decreases text@.len() - at, 0nat,
{
    let ghost open = LiveNodeView { origin, id, value: marker@ };
    push_node(out, origin, id, marker);
    let r = read_fields(source, text, file_id, body, out, loc);
    proof {
        if let Some(fields) = parse_fields(text@, file_id, body as int) {
            assert((nodes_view(old(out)@) + seq![open]) + fields.nodes =~= nodes_view(old(out)@)
                + (seq![open] + fields.nodes));
        }
    }
    r
}

/// Reads an array: writes its open marker, and reads its items.
fn read_array(
    source: &str,
    text: &[u8],
    file_id: LiveFileId,
    at: usize,
    origin: LiveNodeOrigin,
    id: LiveId,
    out: &mut Vec<LiveNode>,
    loc: &mut Locator,
) -> (r: Option<usize>)
    requires
        readable(source, text@),
        at < text@.len(),
        old(loc).inv(text@),
    ensures
        final(loc).inv(text@),
        agrees(
            old(out)@,
            final(out)@,
            r,
            scope(origin, id, LiveValueView::Array, parse_items(text@, file_id, at + 1)),
        ),
        r matches Some(end) ==> at < end <= text@.len(),
    decreases text@.len() - at, 0nat,
{
    let ghost open = LiveNodeView { origin, id, value: LiveValueView::Array };
    push_node(out, origin, id, LiveValue::Array);
    let r = read_items(source, text, file_id, at + 1, out, loc);
    proof {
        if let Some(items) = parse_items(text@, file_id, at + 1) {
            assert((nodes_view(old(out)@) + seq![open]) + items.nodes =~= nodes_view(old(out)@) + (
            seq![open] + items.nodes));
        }
    }
    r
}

/// Reads a string, whose opening quote stands at `at`.
fn read_string(
    source: &str,
    text: &[u8],
    at: usize,
    origin: LiveNodeOrigin,
    id: LiveId,
    out: &mut Vec<LiveNode>,
) -> (r: Option<usize>)
    requires
        readable(source, text@),
        at < text@.len(),
        text@[at as int] == 0x22,
    ensures
        agrees(old(out)@, final(out)@, r, parse_string(text@, at as int, origin, id)),
        r matches Some(end) ==> at < end <= text@.len(),
{
    let end: usize = find_quote(text, at + 1);
    if end >= text.len() {
        return None;
    }
    let value: String = text_between(source, at + 1, end).to_owned();
    push_node(out, origin, id, LiveValue::Str(value));
    Some(end + 1)
}

/// Reads an instance of a type, whose double brace stands at `at`.
fn read_class(
    source: &str,
    text: &[u8],
    file_id: LiveFileId,
    at: usize,
    origin: LiveNodeOrigin,
    id: LiveId,
    out: &mut Vec<LiveNode>,
    loc: &mut Locator,
) -> (r: Option<usize>)
    requires
        readable(source, text@),
        at + 1 < text@.len(),
        old(loc).inv(text@),
    ensures
        final(loc).inv(text@),
        agrees(old(out)@, final(out)@, r, parse_class(text@, file_id, at as int, origin, id)),
        r matches Some(end) ==> at < end <= text@.len(),
    decreases text@.len() - at, 1nat,
{
    let len: usize = text.len();
    let name: usize = find_space_end(text, at + 2);
    let name_end: usize = find_ident_end(text, name);
    let closing: usize = find_space_end(text, name_end);
    if name >= len || !is_alpha_byte(text[name]) || len - closing < 2 || text[closing] != 0x7d
        || text[closing + 1] != 0x7d {
        proof {
            lemma_ident_end(text@, name as int);
        }
        return None;
    }
    proof {
        lemma_ident_end(text@, name as int);
    }
    let open: usize = find_space_end(text, closing + 2);
    if open >= len || text[open] != 0x7b {
        return None;
    }
    let live_type = LiveType(LiveId::from_bytes(text, name, name_end).0);
    read_object(
        source,
        text,
        file_id,
        at,
        open + 1,
        origin,
        id,
        LiveValue::Class { live_type },
        out,
        loc,
    )
}

/// A name that starts with a letter has at least that letter.
proof fn lemma_ident_end(text: Seq<u8>, at: int)
    requires
        0 <= at <= text.len(),
    ensures
        at <= ident_end(text, at) <= text.len(),
        at < text.len() && is_alpha(text[at]) ==> at < ident_end(text, at),
    decreases text.len() - at,
{
    if at < text.len() && is_ident(text[at]) {
        lemma_ident_end(text, at + 1);
    }
}

/// Reads what starts with a name at `at`: `true`, `false`, a copy of the
/// object named, or the name itself.
fn read_name(
    source: &str,
    text: &[u8],
    file_id: LiveFileId,
    at: usize,
    origin: LiveNodeOrigin,
    id: LiveId,
    out: &mut Vec<LiveNode>,
    loc: &mut Locator,
) -> (r: Option<usize>)
    requires
        readable(source, text@),
        at < text@.len(),
        is_alpha(text@[at as int]),
        old(loc).inv(text@),
    ensures
        final(loc).inv(text@),
        agrees(old(out)@, final(out)@, r, parse_name(text@, file_id, at as int, origin, id)),
        r matches Some(end) ==> at < end <= text@.len(),
    decreases text@.len() - at, 1nat,
{
    let len: usize = text.len();
    let end: usize = find_ident_end(text, at);
    let open: usize = find_space_end(text, end);
    proof {
        lemma_ident_end(text@, at as int);
    }
    if spells_true(text, at, end) {
        push_node(out, origin, id, LiveValue::Bool(true));
        Some(end)
    } else if spells_false(text, at, end) {
        push_node(out, origin, id, LiveValue::Bool(false));
        Some(end)
    } else if open < len && text[open] == 0x7b {
        let clone = LiveId::from_bytes(text, at, end);
        read_object(source, text, file_id, at, open + 1, origin, id, LiveValue::Clone(clone), out, loc)
    } else {
        push_node(out, origin, id, LiveValue::Id(LiveId::from_bytes(text, at, end)));
        Some(end)
    }
}

fn read_value(
    source: &str,
    text: &[u8],
    file_id: LiveFileId,
    at: usize,
    origin: LiveNodeOrigin,
    id: LiveId,
    out: &mut Vec<LiveNode>,
    loc: &mut Locator,
) -> (r: Option<usize>)
    requires
        readable(source, text@),
        at <= text@.len(),
        old(loc).inv(text@),
    ensures
        final(loc).inv(text@),
        agrees(old(out)@, final(out)@, r, parse_value(text@, file_id, at as int, origin, id)),
        r matches Some(end) ==> at < end <= text@.len(),
    decreases text@.len() - at, 2nat,
{
    let len: usize = text.len();
    if at >= len {
        return None;
    }
    let first: u8 = text[at];
    if first == 0x7b {
        if len - at > 1 && text[at + 1] == 0x7b {
            read_class(source, text, file_id, at, origin, id, out, loc)
        } else {
            read_object(source, text, file_id, at, at + 1, origin, id, LiveValue::Object, out, loc)
        }
    } else if first == 0x5b {
        read_array(source, text, file_id, at, origin, id, out, loc)
    } else if first == 0x22 {
        read_string(source, text, at, origin, id, out)
    } else if first == 0x23 {
        read_color(text, at, origin, id, out)
    } else if first == 0x2d || is_digit_byte(first) {
        read_number(text, at, origin, id, out)
    } else if is_alpha_byte(first) {
        read_name(source, text, file_id, at, origin, id, out, loc)
    } else {
        None
    }
}

/// Reads the field that starts at `first`.
fn read_field(
    source: &str,
    text: &[u8],
    file_id: LiveFileId,
    first: usize,
    out: &mut Vec<LiveNode>,
    loc: &mut Locator,
) -> (r: Option<usize>)
    requires
        readable(source, text@),
        first < text@.len(),
        is_alpha(text@[first as int]),
        old(loc).inv(text@),
    ensures
        final(loc).inv(text@),
        agrees(old(out)@, final(out)@, r, parse_field(text@, file_id, first as int)),
        r matches Some(end) ==> first < end <= text@.len(),
    decreases text@.len() - first, 3nat,
{
    let len: usize = text.len();
    let first_end: usize = find_ident_end(text, first);
    let second: usize = find_space_end(text, first_end);
    let has_prefix: bool = second < len && is_alpha_byte(text[second]);
    let name: usize = if has_prefix {
        second
    } else {
        first
    };
    let name_end: usize = find_ident_end(text, name);
    let colon: usize = find_space_end(text, name_end);
    proof {
        lemma_ident_end(text@, first as int);
        lemma_ident_end(text@, name as int);
    }
    if colon >= len {
        return None;
    }
    if text[colon] == 0x28 && has_prefix {
        return read_function(text, file_id, first, name, name_end, colon, out, loc);
    }
    if text[colon] != 0x3a {
        return None;
    }
    let value: usize = find_space_end(text, colon + 1);
    let origin = loc.origin(text, file_id, name, has_prefix);
    let id = LiveId::from_bytes(text, name, name_end);
    read_value(source, text, file_id, value, origin, id, out, loc)
}

/// Reads the function whose prefix stands at `first`, whose name stands at
/// `name`, and whose `(` stands at `paren`.
fn read_function(
    text: &[u8],
    file_id: LiveFileId,
    first: usize,
    name: usize,
    name_end: usize,
    paren: usize,
    out: &mut Vec<LiveNode>,
    loc: &mut Locator,
) -> (r: Option<usize>)
    requires
        first < name <= name_end <= paren < text@.len() < u32::MAX,
        old(loc).inv(text@),
    ensures
        final(loc).inv(text@),
        agrees(
            old(out)@,
            final(out)@,
            r,
            parse_function(
                text@,
                file_id,
                first as int,
                name as int,
                name_end as int,
                paren as int,
            ),
        ),
        r matches Some(end) ==> first < end <= text@.len(),
{
    let len: usize = text.len();
    let mut open: usize = paren;
    while open < len && text[open] != 0x7b
        invariant
            len == text@.len(),
            paren <= open <= len,
            brace_at(text@, open as int) == brace_at(text@, paren as int),
        decreases len - open,
    {
        open += 1;
    }
    if open >= len {
        return None;
    }
    let mut at: usize = open + 1;
    let mut depth: usize = 1;
    while at < len
        invariant
            len == text@.len() < u32::MAX,
            first < name <= name_end <= paren <= open < at <= len,
            loc.inv(text@),
            open == brace_at(text@, paren as int),
            1 <= depth <= at - open,
            block_end(text@, at as int, depth as nat) == block_end(text@, open + 1, 1),
            *out == *old(out),
        decreases len - at,
    {
        if text[at] == 0x7b {
            depth += 1;
        } else if text[at] == 0x7d {
            if depth == 1 {
                let origin = loc.origin(text, file_id, name, true);
                let id = LiveId::from_bytes(text, name, name_end);
                push_node(
                    out,
                    origin,
                    id,
                    LiveValue::Dsl { start: first as u32, end: (at + 1) as u32 },
                );
                return Some(at + 1);
            }
            depth -= 1;
        }
        at += 1;
    }
    None
}

fn read_fields(
    source: &str,
    text: &[u8],
    file_id: LiveFileId,
    start: usize,
    out: &mut Vec<LiveNode>,
    loc: &mut Locator,
) -> (r: Option<usize>)
    requires
        readable(source, text@),
        start <= text@.len(),
        old(loc).inv(text@),
    ensures
        final(loc).inv(text@),
        agrees(old(out)@, final(out)@, r, parse_fields(text@, file_id, start as int)),
        r matches Some(end) ==> start < end <= text@.len(),
    decreases text@.len() - start, 4nat,
{
    let len: usize = text.len();
    let mut at: usize = start;
    let ghost mut done: Seq<LiveNodeView> = Seq::empty();
    proof {
        assert(nodes_view(out@) + done =~= nodes_view(out@));
        lemma_followed_by_nothing(parse_fields(text@, file_id, start as int));
    }
    loop
        invariant
            readable(source, text@),
            len == text@.len(),
            start <= at <= len,
            loc.inv(text@),
            nodes_view(out@) == nodes_view(old(out)@) + done,
            parse_fields(text@, file_id, start as int) == followed_by(
                Parsed { nodes: done, end: 0 },
                parse_fields(text@, file_id, at as int),
            ),
        decreases len - at,
    {
        let first: usize = find_space_end(text, at);
        if first >= len {
            return None;
        }
        if text[first] == 0x7d {
            let origin = loc.origin(text, file_id, first, false);
            push_node(out, origin, LiveId(0), LiveValue::Close);
            proof {
                let close = close_at(text@, file_id, first as int);
                assert((nodes_view(old(out)@) + done) + close.nodes =~= nodes_view(old(out)@) + (
                done + close.nodes));
            }
            return Some(first + 1);
        }
        if !is_alpha_byte(text[first]) {
            return None;
        }
        match read_field(source, text, file_id, first, out, loc) {
            Some(end) => {
                proof {
                    let field = parse_field(text@, file_id, first as int).unwrap();
                    assert((nodes_view(old(out)@) + done) + field.nodes =~= nodes_view(old(out)@)
                        + (done + field.nodes));
                    lemma_followed_by_assoc(done, field, parse_fields(text@, file_id, end as int));
                    done = done + field.nodes;
                }
                at = end;
            },
            None => {
                return None;
            },
        }
    }
}

/// Nothing read first leaves what is read after it.
proof fn lemma_followed_by_nothing(rest: Option<Parsed>)
    ensures
        followed_by(Parsed { nodes: Seq::empty(), end: 0 }, rest) == rest,
{
    if let Some(rest) = rest {
        assert(Seq::<LiveNodeView>::empty() + rest.nodes =~= rest.nodes);
    }
}

/// Reading one more before the rest is reading it after what was read.
proof fn lemma_followed_by_assoc(done: Seq<LiveNodeView>, next: Parsed, rest: Option<Parsed>)
    ensures
        followed_by(Parsed { nodes: done, end: 0 }, followed_by(next, rest)) == followed_by(
            Parsed { nodes: done + next.nodes, end: 0 },
            rest,
        ),
{
    if let Some(rest) = rest {
        assert(done + (next.nodes + rest.nodes) =~= (done + next.nodes) + rest.nodes);
    }
}

fn read_items(
    source: &str,
    text: &[u8],
    file_id: LiveFileId,
    start: usize,
    out: &mut Vec<LiveNode>,
    loc: &mut Locator,
) -> (r: Option<usize>)
    requires
        readable(source, text@),
        start <= text@.len(),
        old(loc).inv(text@),
    ensures
        final(loc).inv(text@),
        agrees(old(out)@, final(out)@, r, parse_items(text@, file_id, start as int)),
        r matches Some(end) ==> start < end <= text@.len(),
    decreases text@.len() - start, 4nat,
{
    let len: usize = text.len();
    let mut at: usize = start;
    let ghost mut done: Seq<LiveNodeView> = Seq::empty();
    proof {
        assert(nodes_view(out@) + done =~= nodes_view(out@));
        lemma_followed_by_nothing(parse_items(text@, file_id, start as int));
    }
    loop
        invariant
            readable(source, text@),
            len == text@.len(),
            start <= at <= len,
            loc.inv(text@),
            nodes_view(out@) == nodes_view(old(out)@) + done,
            parse_items(text@, file_id, start as int) == followed_by(
                Parsed { nodes: done, end: 0 },
                parse_items(text@, file_id, at as int),
            ),
        decreases len - at,
    {
        let first: usize = find_space_end(text, at);
        if first >= len {
            return None;
        }
        if text[first] == 0x5d {
            let origin = loc.origin(text, file_id, first, false);
            push_node(out, origin, LiveId(0), LiveValue::Close);
            proof {
                let close = close_at(text@, file_id, first as int);
                assert((nodes_view(old(out)@) + done) + close.nodes =~= nodes_view(old(out)@) + (
                done + close.nodes));
            }
            return Some(first + 1);
        }
        let origin = loc.origin(text, file_id, first, false);
        match read_value(source, text, file_id, first, origin, LiveId(0), out, loc) {
            Some(end) => {
                proof {
                    let item = parse_value(text@, file_id, first as int, origin, LiveId(0)).unwrap();
                    assert((nodes_view(old(out)@) + done) + item.nodes =~= nodes_view(old(out)@)
                        + (done + item.nodes));
                    lemma_followed_by_assoc(done, item, parse_items(text@, file_id, end as int));
                    done = done + item.nodes;
                }
                at = end;
            },
            None => {
                return None;
            },
        }
    }
}

/// Reads the document that a text spells, for the file `file_id`. `None`
/// where the text spells no document: it is too long for
/// pointers to reach into, or it is not one object written as the format
/// asks.
pub fn parse_document(file_id: LiveFileId, source: &str) -> (r: Option<Vec<LiveNode>>)
    ensures
        match r {
            Some(nodes) => parse_text(source.spec_bytes(), file_id) == Some(nodes_view(nodes@)),
            None => parse_text(source.spec_bytes(), file_id) is None,
        },
{
    proof {
        reveal(parse_text);
    }
    let text = source.as_bytes();
    let len: usize = text.len();
    if len >= u32::MAX as usize {
        return None;
    }
    let start: usize = find_space_end(text, 0);
    if start >= len || text[start] != 0x7b {
        return None;
    }
    let mut out: Vec<LiveNode> = Vec::new();
    let mut loc = Locator::new();
    let origin = loc.origin(text, file_id, start, false);
    match read_value(source, text, file_id, start, origin, LiveId(0), &mut out, &mut loc) {
        Some(end) => {
            if find_space_end(text, end) == len {
                proof {
                    let parsed = parse_value(text@, file_id, start as int, origin, LiveId(0)).unwrap();
                    assert(Seq::<LiveNodeView>::empty() + parsed.nodes =~= parsed.nodes);
                }
                Some(out)
            } else {
                None
            }
        },
        None => None,
    }
}

/// Whether the nodes from `from` on hold what was read, node for node.
pub open spec fn holds(nodes: Seq<LiveNode>, from: int, read: Seq<LiveNodeView>) -> bool {
    &&& 0 <= from
    &&& from + read.len() <= nodes.len()
    &&& forall|i: int| 0 <= i < read.len() ==> (#[trigger] nodes[from + i])@ == read[i]
}

proof fn lemma_holds_parts(nodes: Seq<LiveNode>, from: int, first: Seq<LiveNodeView>, rest: Seq<
    LiveNodeView,
>)
    requires
        holds(nodes, from, first + rest),
    ensures
        holds(nodes, from, first),
        holds(nodes, from + first.len(), rest),
{
    assert forall|i: int| 0 <= i < first.len() implies (#[trigger] nodes[from + i])@ == first[i] by {
        assert((first + rest)[i] == first[i]);
    }
    assert forall|i: int| 0 <= i < rest.len() implies (#[trigger] nodes[from + first.len() + i])@
        == rest[i] by {
        assert((first + rest)[first.len() + i] == rest[i]);
        assert(nodes[from + (first.len() + i)]@ == (first + rest)[first.len() + i]);
    }
}

proof fn lemma_scope_is_balanced(
    nodes: Seq<LiveNode>,
    from: int,
    open: LiveNodeView,
    body: Seq<LiveNodeView>,
)
    requires
        holds(nodes, from, seq![open] + body),
        open.value is Object || open.value is Array || open.value is Clone || open.value is Class,
        holds(nodes, from + 1, body) ==> scope_end(nodes, from + 1) == Some(from + 1 + body.len()),
    ensures
        node_end(nodes, from) == Some(from + 1 + body.len()),
{
    lemma_holds_parts(nodes, from, seq![open], body);
    assert(nodes[from + 0]@ == open);
    assert(nodes[from].value.is_open());
}

proof fn lemma_scalar_is_balanced(nodes: Seq<LiveNode>, from: int, node: LiveNodeView)
    requires
        holds(nodes, from, seq![node]),
        !(node.value is Object || node.value is Array || node.value is Clone || node.value
            is Class || node.value is Close),
    ensures
        node_end(nodes, from) == Some(from + 1),
{
    assert(nodes[from + 0]@ == node);
}

proof fn lemma_value_is_balanced(
    text: Seq<u8>,
    file_id: LiveFileId,
    at: int,
    origin: LiveNodeOrigin,
    id: LiveId,
    nodes: Seq<LiveNode>,
    from: int,
)
    ensures
        parse_value(text, file_id, at, origin, id) matches Some(read) ==> (holds(
            nodes,
            from,
            read.nodes,
        ) ==> node_end(nodes, from) == Some(from + read.nodes.len()) && read.nodes.len() > 0),
    decreases text.len() - at, 2nat,
{
    if let Some(read) = parse_value(text, file_id, at, origin, id) {
        if holds(nodes, from, read.nodes) {
            if text[at] == 0x7b {
                if at + 1 < text.len() && text[at + 1] == 0x7b {
                    let name = skip_space(text, at + 2);
                    let name_end = ident_end(text, name);
                    let closing = skip_space(text, name_end);
                    let open = skip_space(text, closing + 2);
                    let body = parse_fields(text, file_id, open + 1).unwrap();
                    lemma_fields_are_balanced(text, file_id, open + 1, nodes, from + 1);
                    lemma_scope_is_balanced(nodes, from, read.nodes[0], body.nodes);
                } else {
                    let body = parse_fields(text, file_id, at + 1).unwrap();
                    lemma_fields_are_balanced(text, file_id, at + 1, nodes, from + 1);
                    lemma_scope_is_balanced(nodes, from, read.nodes[0], body.nodes);
                }
            } else if text[at] == 0x5b {
                let body = parse_items(text, file_id, at + 1).unwrap();
                lemma_items_are_balanced(text, file_id, at + 1, nodes, from + 1);
                lemma_scope_is_balanced(nodes, from, read.nodes[0], body.nodes);
            } else if text[at] == 0x22 || text[at] == 0x23 || text[at] == 0x2d || is_digit(text[at]) {
                lemma_scalar_is_balanced(nodes, from, read.nodes[0]);
            } else {
                let end = ident_end(text, at);
                let open = skip_space(text, end);
                if !spells(text, at, end, seq![0x74u8, 0x72, 0x75, 0x65]) && !spells(
                    text,
                    at,
                    end,
                    seq![0x66u8, 0x61, 0x6c, 0x73, 0x65],
                ) && open < text.len() && text[open] == 0x7b {
                    let body = parse_fields(text, file_id, open + 1).unwrap();
                    lemma_fields_are_balanced(text, file_id, open + 1, nodes, from + 1);
                    lemma_scope_is_balanced(nodes, from, read.nodes[0], body.nodes);
                } else {
                    lemma_scalar_is_balanced(nodes, from, read.nodes[0]);
                }
            }
        }
    }
}

proof fn lemma_fields_are_balanced(
    text: Seq<u8>,
    file_id: LiveFileId,
    at: int,
    nodes: Seq<LiveNode>,
    from: int,
)
    ensures
        parse_fields(text, file_id, at) matches Some(read) ==> (holds(nodes, from, read.nodes)
            ==> scope_end(nodes, from) == Some(from + read.nodes.len())),
    decreases text.len() - at, 4nat,
{
    if let Some(read) = parse_fields(text, file_id, at) {
        if holds(nodes, from, read.nodes) {
            let first = skip_space(text, at);
            if text[first] == 0x7d {
                assert(nodes[from + 0]@ == read.nodes[0]);
            } else {
                let field = parse_field(text, file_id, first).unwrap();
                let rest = parse_fields(text, file_id, field.end).unwrap();
                lemma_holds_parts(nodes, from, field.nodes, rest.nodes);
                lemma_field_is_balanced(text, file_id, first, nodes, from);
                lemma_fields_are_balanced(text, file_id, field.end, nodes, from + field.nodes.len());
                crate::live_node::lemma_node_end_bounds(nodes, from);
            }
        }
    }
}

proof fn lemma_field_is_balanced(
    text: Seq<u8>,
    file_id: LiveFileId,
    first: int,
    nodes: Seq<LiveNode>,
    from: int,
)
    ensures
        parse_field(text, file_id, first) matches Some(read) ==> (holds(nodes, from, read.nodes)
            ==> node_end(nodes, from) == Some(from + read.nodes.len()) && read.nodes.len() > 0),
    decreases text.len() - first, 3nat,
{
    if let Some(read) = parse_field(text, file_id, first) {
        let first_end = ident_end(text, first);
        let second = skip_space(text, first_end);
        let has_prefix = second < text.len() && is_alpha(text[second]);
        let name = if has_prefix {
            second
        } else {
            first
        };
        let name_end = ident_end(text, name);
        let colon = skip_space(text, name_end);
        let value = skip_space(text, colon + 1);
        if text[colon] == 0x3a {
            lemma_value_is_balanced(
                text,
                file_id,
                value,
                origin_at(text, file_id, name, has_prefix),
                id_of_bytes(text.subrange(name, name_end)),
                nodes,
                from,
            );
        } else if holds(nodes, from, read.nodes) {
            lemma_scalar_is_balanced(nodes, from, read.nodes[0]);
        }
    }
}

proof fn lemma_items_are_balanced(
    text: Seq<u8>,
    file_id: LiveFileId,
    at: int,
    nodes: Seq<LiveNode>,
    from: int,
)
    ensures
        parse_items(text, file_id, at) matches Some(read) ==> (holds(nodes, from, read.nodes)
            ==> scope_end(nodes, from) == Some(from + read.nodes.len())),
    decreases text.len() - at, 4nat,
{
    if let Some(read) = parse_items(text, file_id, at) {
        if holds(nodes, from, read.nodes) {
            let first = skip_space(text, at);
            if text[first] == 0x5d {
                assert(nodes[from + 0]@ == read.nodes[0]);
            } else {
                let item = parse_value(
                    text,
                    file_id,
                    first,
                    origin_at(text, file_id, first, false),
                    LiveId(0),
                ).unwrap();
                let rest = parse_items(text, file_id, item.end).unwrap();
                lemma_holds_parts(nodes, from, item.nodes, rest.nodes);
                lemma_value_is_balanced(
                    text,
                    file_id,
                    first,
                    origin_at(text, file_id, first, false),
                    LiveId(0),
                    nodes,
                    from,
                );
                lemma_items_are_balanced(text, file_id, item.end, nodes, from + item.nodes.len());
                crate::live_node::lemma_node_end_bounds(nodes, from);
            }
        }
    }
}

/// Every text that spells a document spells a well-formed one: a single
/// scope of fields that spans the whole stream.
pub proof fn lemma_parsed_is_document(text: Seq<u8>, file_id: LiveFileId, nodes: Seq<LiveNode>)
    requires
        parse_text(text, file_id) == Some(nodes_view(nodes)),
    ensures
        is_document(nodes),
{
    reveal(parse_text);
    let start = skip_space(text, 0);
    let origin = origin_at(text, file_id, start, false);
    let read = parse_value(text, file_id, start, origin, LiveId(0)).unwrap();
    assert(holds(nodes, 0, read.nodes));
    lemma_value_is_balanced(text, file_id, start, origin, LiveId(0), nodes, 0);
    assert(nodes[0int + 0]@ == read.nodes[0]);
}

impl LiveRegistry {
    /// The file id that a module has, or would get.
    pub open spec fn spec_file_id_for(&self, module_id: LiveModuleId) -> int {
        match self.spec_module_id_to_file_id(module_id) {
            Some(file) => file,
            None => self.live_files@.len() as int,
        }
    }

    /// Whether the text of a module can be registered: the file id of the
    /// document, or why not. A new module for which no file id is left is
    /// refused first, then a text that spells no document, then a module
    /// whose generation cannot be advanced.
    pub open spec fn source_outcome(&self, module_id: LiveModuleId, source: &str) -> Result<
        int,
        LiveRegistryError,
    > {
        let file = self.spec_file_id_for(module_id);
        let known = self.spec_module_id_to_file_id(module_id) is Some;
        if !known && file == MAX_LIVE_FILES {
            Err(LiveRegistryError::TooManyFiles)
        } else if parse_text(source.spec_bytes(), LiveFileId(file as u16)) is None {
            Err(LiveRegistryError::Unreadable)
        } else if known && self.live_files@[file].generation == u64::MAX {
            Err(LiveRegistryError::TooManyGenerations)
        } else {
            Ok(file)
        }
    }

    /// Reads the text of a module and stores what it spells as the document
    /// of the module, as `register_nodes` does. A new module for which no
    /// file id is left is refused before its text is read; a text that
    /// spells no document is refused as unreadable; and then nothing
    /// changes. Once a module is registered anew, no pointer that was valid
    /// for its document before is valid any longer; every other pointer
    /// stays as valid as it was, and a pointer made afterwards is valid.
    pub fn register_document(&mut self, module_id: LiveModuleId, source: &str) -> (r: Result<
        LiveFileId,
        LiveRegistryError,
    >)
        requires
            old(self).wf(),
        ensures
            final(self).wf(),
            r is Err ==> *final(self) == *old(self),
            match old(self).source_outcome(module_id, source) {
                Err(error) => r == Err::<LiveFileId, LiveRegistryError>(error),
                Ok(file) => {
                    let known = old(self).spec_module_id_to_file_id(module_id) is Some;
                    &&& r == Ok::<LiveFileId, LiveRegistryError>(LiveFileId(file as u16))
                    &&& final(self).live_files@.len() == if known {
                        old(self).live_files@.len()
                    } else {
                        old(self).live_files@.len() + 1
                    }
                    &&& final(self).main_module == old(self).main_module
                    &&& forall|i: int|
                        0 <= i < old(self).live_files@.len() && i != file ==> final(self).live_files@[i]
                            == old(self).live_files@[i]
                    &&& final(self).live_files@[file].module_id == module_id
                    &&& final(self).live_files@[file].generation == if known {
                        old(self).live_files@[file].generation + 1
                    } else {
                        0
                    }
                    &&& Some(nodes_view(final(self).live_files@[file].nodes@)) == parse_text(
                        source.spec_bytes(),
                        LiveFileId(file as u16),
                    )
                    &&& forall|live_ptr: LivePtr|
                        #![trigger final(self).generation_valid(live_ptr)]
                        old(self).generation_valid(live_ptr) ==> final(self).generation_valid(
                            live_ptr,
                        ) == (live_ptr.file_id.to_index() != file)
                    &&& forall|index: u32|
                        final(self).generation_valid(
                            #[trigger] final(self).spec_live_ptr(LiveFileId(file as u16), index),
                        )
                },
            },
    {
        let file_id = match self.module_id_to_file_id(module_id) {
            Some(file_id) => file_id,
            None => {
                if self.live_files.len() == MAX_LIVE_FILES {
                    return Err(LiveRegistryError::TooManyFiles);
                }
                LiveFileId::new(self.live_files.len())
            },
        };
        let ghost file = old(self).spec_file_id_for(module_id);
        proof {
            assert(file_id == LiveFileId(file as u16));
        }
        match parse_document(file_id, source) {
            Some(nodes) => {
                proof {
                    lemma_parsed_is_document(source.spec_bytes(), file_id, nodes@);
                }
                let ghost stored = nodes;
                let r = self.register_nodes(module_id, nodes);
                proof {
                    assert(is_document(stored@));
                    assert(parse_text(source.spec_bytes(), file_id) == Some(nodes_view(stored@)));
                    if r is Ok {
                        if old(self).spec_module_id_to_file_id(module_id) is Some {
                            assert(old(self).replaced(file, stored, self));
                            assert(self.live_files@[file].nodes == stored);
                        } else {
                            assert(old(self).added(module_id, stored, self));
                            assert(self.live_files@[file].nodes == stored);
                            assert forall|i: int|
                                0 <= i < old(self).live_files@.len() implies self.live_files@[i]
                                == old(self).live_files@[i] by {}
                        }
                    }
                }
                r
            },
            None => Err(LiveRegistryError::Unreadable),
        }
    }
}

} // verus!
