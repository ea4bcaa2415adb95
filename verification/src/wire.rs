//! Mathematical model of the wire format: a single JSON object
//! `{"data":[...],"id":<millis>,"title":"..."}` whose `id` field carries the
//! alert timestamp as signed epoch-milliseconds.
use vstd::prelude::*;

verus! {

/// Ghost model of one alert: affected area names, the timestamp as
/// epoch-milliseconds, and the title.
pub struct AlertModel {
    pub areas: Seq<Seq<char>>,
    pub date: int,
    pub title: Seq<char>,
}

impl AlertModel {
    /// The timestamp fits the signed 64-bit integer used on the wire.
    pub open spec fn valid(self) -> bool {
        i64::MIN <= self.date <= i64::MAX
    }
}

// ---------------------------------------------------------------------------
// characters
// ---------------------------------------------------------------------------

/// JSON insignificant whitespace.
pub open spec fn is_ws(c: char) -> bool {
    c == ' ' || c == '\n' || c == '\r' || c == '\t'
}

/// Longest whitespace prefix removed.
pub open spec fn skip_ws(s: Seq<char>) -> Seq<char>
    decreases s.len(),
{
    if s.len() > 0 && is_ws(s[0]) {
        skip_ws(s.skip(1))
    } else {
        s
    }
}

pub open spec fn is_digit(c: char) -> bool {
    48 <= c as u32 <= 57
}

pub open spec fn digit_val(c: char) -> int {
    c as u32 - 48
}

pub open spec fn digit_char(d: int) -> char {
    ((48 + d) as u32) as char
}

pub open spec fn is_hex_digit(c: char) -> bool {
    is_digit(c) || 97 <= c as u32 <= 102 || 65 <= c as u32 <= 70
}

pub open spec fn hex_val(c: char) -> int {
    if is_digit(c) {
        c as u32 - 48
    } else if 97 <= c as u32 {
        c as u32 - 87
    } else {
        c as u32 - 55
    }
}

/// Lower-case hexadecimal digit for `0 <= d < 16`.
pub open spec fn hex_char(d: int) -> char {
    if d < 10 {
        digit_char(d)
    } else {
        ((87 + d) as u32) as char
    }
}

/// A character that may stand unescaped inside a JSON string literal.
pub open spec fn is_plain_char(c: char) -> bool {
    c != '"' && c != '\\' && c as u32 >= 32
}

/// A Unicode scalar value: what a `char` can hold.
pub open spec fn is_scalar_val(v: int) -> bool {
    (0 <= v < 0xD800) || (0xE000 <= v <= 0x10FFFF)
}

/// What a two-character escape `\c` stands for.
pub open spec fn simple_unescape(c: char) -> Option<char> {
    if c == '"' {
        Some('"')
    } else if c == '\\' {
        Some('\\')
    } else if c == '/' {
        Some('/')
    } else if c == 'b' {
        Some('\u{08}')
    } else if c == 'f' {
        Some('\u{0C}')
    } else if c == 'n' {
        Some('\n')
    } else if c == 'r' {
        Some('\r')
    } else if c == 't' {
        Some('\t')
    } else {
        None
    }
}

/// Value of the four hexadecimal digits `s[0..4]`.
pub open spec fn hex4_val(s: Seq<char>) -> int {
    4096 * hex_val(s[0]) + 256 * hex_val(s[1]) + 16 * hex_val(s[2]) + hex_val(s[3])
}

// ---------------------------------------------------------------------------
// decoding: each parser consumes a prefix and hands back the rest
// ---------------------------------------------------------------------------

/// Body of a JSON string literal, entered just after the opening quote.
/// Yields the decoded characters and the rest after the closing quote.
pub open spec fn parse_string_rest(s: Seq<char>) -> Option<(Seq<char>, Seq<char>)>
    decreases s.len(),
{
    if s.len() == 0 {
        None
    } else if s[0] == '"' {
        Some((Seq::empty(), s.skip(1)))
    } else if s[0] == '\\' {
        if s.len() >= 2 && simple_unescape(s[1]) is Some {
            match parse_string_rest(s.skip(2)) {
                Some((cs, r)) => Some((seq![simple_unescape(s[1])->Some_0] + cs, r)),
                None => None,
            }
        } else if s.len() >= 6 && s[1] == 'u' && is_hex_digit(s[2]) && is_hex_digit(s[3])
            && is_hex_digit(s[4]) && is_hex_digit(s[5]) && is_scalar_val(hex4_val(s.skip(2))) {
            match parse_string_rest(s.skip(6)) {
                Some((cs, r)) => Some((seq![(hex4_val(s.skip(2)) as u32) as char] + cs, r)),
                None => None,
            }
        } else {
            None
        }
    } else if is_plain_char(s[0]) {
        match parse_string_rest(s.skip(1)) {
            Some((cs, r)) => Some((seq![s[0]] + cs, r)),
            None => None,
        }
    } else {
        None
    }
}

/// Length of the leading run of decimal digits.
pub open spec fn digit_run(s: Seq<char>) -> int
    decreases s.len(),
{
    if s.len() > 0 && is_digit(s[0]) {
        1 + digit_run(s.skip(1))
    } else {
        0
    }
}

/// Value of a digit string, most significant first.
pub open spec fn digits_val(ds: Seq<char>) -> int
    decreases ds.len(),
{
    if ds.len() == 0 {
        0
    } else {
        10 * digits_val(ds.take(ds.len() - 1)) + digit_val(ds[ds.len() - 1])
    }
}

/// Unsigned JSON integer: a nonempty digit run without a redundant leading zero.
pub open spec fn parse_uint_rest(s: Seq<char>) -> Option<(int, Seq<char>)> {
    let k = digit_run(s);
    if k == 0 {
        None
    } else if k > 1 && s[0] == '0' {
        None
    } else {
        Some((digits_val(s.take(k)), s.skip(k)))
    }
}

/// Signed JSON integer, unbounded.
pub open spec fn parse_int_rest(s: Seq<char>) -> Option<(int, Seq<char>)> {
    if s.len() > 0 && s[0] == '-' {
        match parse_uint_rest(s.skip(1)) {
            Some((n, r)) => Some((-n, r)),
            None => None,
        }
    } else {
        parse_uint_rest(s)
    }
}

proof fn lemma_skip_ws_len(s: Seq<char>)
    ensures
        skip_ws(s).len() <= s.len(),
    decreases s.len(),
{
    if s.len() > 0 && is_ws(s[0]) {
        lemma_skip_ws_len(s.skip(1));
    }
}

proof fn lemma_parse_string_rest_len(s: Seq<char>)
    ensures
        parse_string_rest(s) matches Some((cs, r)) ==> r.len() < s.len(),
    decreases s.len(),
{
    if s.len() == 0 {
    } else if s[0] == '"' {
    } else if s[0] == '\\' {
        if s.len() >= 2 && simple_unescape(s[1]) is Some {
            lemma_parse_string_rest_len(s.skip(2));
        } else if s.len() >= 6 && s[1] == 'u' {
            lemma_parse_string_rest_len(s.skip(6));
        }
    } else if is_plain_char(s[0]) {
        lemma_parse_string_rest_len(s.skip(1));
    }
}

/// Comma-separated string literals up to the closing bracket; entered at the
/// first element, which must begin with a quote.
pub open spec fn parse_items_rest(s: Seq<char>) -> Option<(Seq<Seq<char>>, Seq<char>)>
    decreases s.len(),
        via parse_items_rest_dec
{
    if s.len() > 0 && s[0] == '"' {
        match parse_string_rest(s.skip(1)) {
            Some((item, r)) => {
                let t = skip_ws(r);
                if t.len() > 0 && t[0] == ',' {
                    match parse_items_rest(skip_ws(t.skip(1))) {
                        Some((items, u)) => Some((seq![item] + items, u)),
                        None => None,
                    }
                } else if t.len() > 0 && t[0] == ']' {
                    Some((seq![item], t.skip(1)))
                } else {
                    None
                }
            },
            None => None,
        }
    } else {
        None
    }
}

#[via_fn]
proof fn parse_items_rest_dec(s: Seq<char>) {
    if s.len() > 0 && s[0] == '"' {
        lemma_parse_string_rest_len(s.skip(1));
        if let Some((item, r)) = parse_string_rest(s.skip(1)) {
            lemma_skip_ws_len(r);
            let t = skip_ws(r);
            if t.len() > 0 && t[0] == ',' {
                lemma_skip_ws_len(t.skip(1));
            }
        }
    }
}

/// A JSON array of strings, entered at the opening bracket.
pub open spec fn parse_areas_rest(s: Seq<char>) -> Option<(Seq<Seq<char>>, Seq<char>)> {
    if s.len() > 0 && s[0] == '[' {
        let t = skip_ws(s.skip(1));
        if t.len() > 0 && t[0] == ']' {
            Some((Seq::empty(), t.skip(1)))
        } else {
            parse_items_rest(t)
        }
    } else {
        None
    }
}

// ---------------------------------------------------------------------------
// the object
// ---------------------------------------------------------------------------

pub open spec fn data_key() -> Seq<char> {
    seq!['d', 'a', 't', 'a']
}

pub open spec fn id_key() -> Seq<char> {
    seq!['i', 'd']
}

pub open spec fn title_key() -> Seq<char> {
    seq!['t', 'i', 't', 'l', 'e']
}

pub open spec fn expect_char(s: Seq<char>, c: char) -> Option<Seq<char>> {
    if s.len() > 0 && s[0] == c {
        Some(s.skip(1))
    } else {
        None
    }
}

/// An unescaped key literal with its quotes.
pub open spec fn expect_key(s: Seq<char>, key: Seq<char>) -> Option<Seq<char>> {
    if s.len() >= key.len() + 2 && s[0] == '"' && s.subrange(1, key.len() as int + 1) == key
        && s[key.len() as int + 1] == '"' {
        Some(s.skip(key.len() as int + 2))
    } else {
        None
    }
}

/// After `"title"` and its value have been read: the closing brace and
/// nothing but whitespace behind it.
pub open spec fn parse_end(areas: Seq<Seq<char>>, date: int, title: Seq<char>, s: Seq<char>) -> Option<AlertModel> {
    match expect_char(skip_ws(s), '}') {
        None => None,
        Some(s1) => if skip_ws(s1).len() == 0 {
            Some(AlertModel { areas, date, title })
        } else {
            None
        },
    }
}

/// After the `id` value has been read: `,"title":<string>` and the end.
pub open spec fn parse_title_part(areas: Seq<Seq<char>>, date: int, s: Seq<char>) -> Option<AlertModel> {
    match expect_char(skip_ws(s), ',') {
        None => None,
        Some(s1) => match expect_key(skip_ws(s1), title_key()) {
            None => None,
            Some(s2) => match expect_char(skip_ws(s2), ':') {
                None => None,
                Some(s3) => match expect_char(skip_ws(s3), '"') {
                    None => None,
                    Some(s4) => match parse_string_rest(s4) {
                        None => None,
                        Some((title, s5)) => parse_end(areas, date, title, s5),
                    },
                },
            },
        },
    }
}

/// After the `data` value has been read: `,"id":<integer>` and the rest.
/// A timestamp outside the signed 64-bit range is rejected.
pub open spec fn parse_id_part(areas: Seq<Seq<char>>, s: Seq<char>) -> Option<AlertModel> {
    match expect_char(skip_ws(s), ',') {
        None => None,
        Some(s1) => match expect_key(skip_ws(s1), id_key()) {
            None => None,
            Some(s2) => match expect_char(skip_ws(s2), ':') {
                None => None,
                Some(s3) => match parse_int_rest(skip_ws(s3)) {
                    None => None,
                    Some((date, s4)) => if i64::MIN <= date <= i64::MAX {
                        parse_title_part(areas, date, s4)
                    } else {
                        None
                    },
                },
            },
        },
    }
}

/// The whole response body: one object `{"data":…,"id":…,"title":…}`, the
/// three fields in this order, with JSON whitespace between tokens.
pub open spec fn spec_decode(s: Seq<char>) -> Option<AlertModel> {
    match expect_char(skip_ws(s), '{') {
        None => None,
        Some(s1) => match expect_key(skip_ws(s1), data_key()) {
            None => None,
            Some(s2) => match expect_char(skip_ws(s2), ':') {
                None => None,
                Some(s3) => match parse_areas_rest(skip_ws(s3)) {
                    None => None,
                    Some((areas, s4)) => parse_id_part(areas, s4),
                },
            },
        },
    }
}

// ---------------------------------------------------------------------------
// encoding
// ---------------------------------------------------------------------------

/// How one character appears inside an encoded JSON string literal.
pub open spec fn escape_char(c: char) -> Seq<char> {
    if c == '"' {
        seq!['\\', '"']
    } else if c == '\\' {
        seq!['\\', '\\']
    } else if c == '\u{08}' {
        seq!['\\', 'b']
    } else if c == '\u{0C}' {
        seq!['\\', 'f']
    } else if c == '\n' {
        seq!['\\', 'n']
    } else if c == '\r' {
        seq!['\\', 'r']
    } else if c == '\t' {
        seq!['\\', 't']
    } else if (c as u32) < 32 {
        seq!['\\', 'u', '0', '0', hex_char(c as u32 as int / 16), hex_char(c as u32 as int % 16)]
    } else {
        seq![c]
    }
}

pub open spec fn escape_string(s: Seq<char>) -> Seq<char>
    decreases s.len(),
{
    if s.len() == 0 {
        Seq::empty()
    } else {
        escape_char(s[0]) + escape_string(s.skip(1))
    }
}

/// A string literal with its quotes.
pub open spec fn quote(s: Seq<char>) -> Seq<char> {
    seq!['"'] + escape_string(s) + seq!['"']
}

/// Decimal digits of `n >= 0`, most significant first.
pub open spec fn dec_digits(n: int) -> Seq<char>
    decreases n,
{
    if n < 10 {
        seq![digit_char(if n >= 0 { n } else { 0 })]
    } else {
        dec_digits(n / 10).push(digit_char(n % 10))
    }
}

/// A signed decimal integer literal.
pub open spec fn encode_int(n: int) -> Seq<char> {
    if n < 0 {
        seq!['-'] + dec_digits(-n)
    } else {
        dec_digits(n)
    }
}

/// The elements of the area array, comma-separated.
pub open spec fn encode_items(xs: Seq<Seq<char>>) -> Seq<char>
    decreases xs.len(),
{
    if xs.len() == 0 {
        Seq::empty()
    } else if xs.len() == 1 {
        quote(xs[0])
    } else {
        quote(xs[0]) + seq![','] + encode_items(xs.skip(1))
    }
}

pub open spec fn encode_areas(xs: Seq<Seq<char>>) -> Seq<char> {
    seq!['['] + encode_items(xs) + seq![']']
}

/// Canonical encoding of an alert: no whitespace, fields in wire order.
pub open spec fn spec_encode(m: AlertModel) -> Seq<char> {
    seq!['{', '"', 'd', 'a', 't', 'a', '"', ':'] + encode_areas(m.areas)
        + seq![',', '"', 'i', 'd', '"', ':'] + encode_int(m.date)
        + seq![',', '"', 't', 'i', 't', 'l', 'e', '"', ':'] + quote(m.title)
        + seq!['}']
}

} // verus!
