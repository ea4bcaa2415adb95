use vstd::prelude::*;
use vstd::arithmetic::div_mod::lemma_fundamental_div_mod;
use crate::wire::{
    data_key, dec_digits, digit_char, digit_run, digits_val, digit_val, encode_areas, encode_int,
    encode_items, escape_char, escape_string, expect_char, expect_key, hex4_val, hex_char,
    hex_val, id_key, is_digit, is_hex_digit, is_plain_char, is_scalar_val, is_ws,
    parse_areas_rest, parse_int_rest, parse_items_rest, parse_string_rest, parse_uint_rest,
    quote, skip_ws, spec_decode, spec_encode, title_key, AlertModel,
};

verus! {

/// Whitespace skipping leaves a stream alone that does not begin with it.
proof fn lemma_skip_ws_id(s: Seq<char>)
    requires
        s.len() == 0 || !is_ws(s[0]),
    ensures
        skip_ws(s) == s,
{
}

/// One expected character at the head of a stream.
proof fn lemma_expect_char_peel(c: char, rest: Seq<char>)
    ensures
        expect_char(seq![c] + rest, c) == Some(rest),
{
    assert((seq![c] + rest)[0] == c);
    assert((seq![c] + rest).skip(1) =~= rest);
}

/// One expected key literal at the head of a stream.
proof fn lemma_expect_key_peel(key: Seq<char>, rest: Seq<char>)
    requires
        forall|q: int| 0 <= q < key.len() ==> key[q] != '"',
    ensures
        expect_key(seq!['"'] + key + seq!['"'] + rest, key) == Some(rest),
{
    let s = seq!['"'] + key + seq!['"'] + rest;
    assert(s.len() == key.len() + 2 + rest.len());
    assert(s[0] == '"');
    assert(s.subrange(1, key.len() as int + 1) =~= key);
    assert(s[key.len() as int + 1] == '"');
    assert(s.skip(key.len() as int + 2) =~= rest);
}

/// The decimal digit characters round-trip through their values.
proof fn lemma_digit_char(d: int)
    requires
        0 <= d < 10,
    ensures
        is_digit(digit_char(d)),
        digit_val(digit_char(d)) == d,
        d > 0 ==> digit_char(d) != '0',
{
    assert(digit_char(d) as u32 == 48 + d);
}

/// The hexadecimal digit characters round-trip through their values.
proof fn lemma_hex_char(d: int)
    requires
        0 <= d < 16,
    ensures
        is_hex_digit(hex_char(d)),
        hex_val(hex_char(d)) == d,
{
    if d < 10 {
        assert(hex_char(d) as u32 == 48 + d);
    } else {
        assert(hex_char(d) as u32 == 87 + d);
    }
}

/// Decoding a string literal body undoes the escaping, whatever follows the
/// closing quote.
proof fn lemma_parse_string_of_escape(s: Seq<char>, r: Seq<char>)
    ensures
        parse_string_rest(escape_string(s) + seq!['"'] + r) == Some((s, r)),
    decreases s.len(),
{
    let e = escape_string(s) + seq!['"'] + r;
    if s.len() == 0 {
        assert(e =~= seq!['"'] + r);
        assert(e[0] == '"');
        assert(e.skip(1) =~= r);
        assert(s =~= Seq::<char>::empty());
    } else {
        let c = s[0];
        let tail = escape_string(s.skip(1)) + seq!['"'] + r;
        assert(e =~= escape_char(c) + tail);
        lemma_parse_string_of_escape(s.skip(1), r);
        if c == '"' || c == '\\' || c == '\u{08}' || c == '\u{0C}' || c == '\n' || c == '\r'
            || c == '\t' {
            // a two-character escape
            let ec = escape_char(c);
            assert(ec.len() == 2 && ec[0] == '\\');
            assert(e[0] == '\\');
            assert(e.len() >= 2 && e[1] == ec[1]);
            assert(crate::wire::simple_unescape(ec[1]) == Some(c));
            assert(e.skip(2) =~= tail);
            assert(seq![c] + s.skip(1) =~= s);
        } else if (c as u32) < 32 {
            // the \u00XX form
            let u = c as u32;
            let hi = u as int / 16;
            let lo = u as int % 16;
            lemma_fundamental_div_mod(u as int, 16);
            lemma_hex_char(hi);
            lemma_hex_char(lo);
            assert(e[0] == '\\' && e[1] == 'u' && e[2] == '0' && e[3] == '0' && e[4] == hex_char(
                hi,
            ) && e[5] == hex_char(lo));
            assert(crate::wire::simple_unescape('u') is None);
            assert(is_hex_digit('0') && hex_val('0') == 0) by {
                assert('0' as u32 == 48);
            }
            let h = e.skip(2);
            assert(h[0] == '0' && h[1] == '0' && h[2] == hex_char(hi) && h[3] == hex_char(lo));
            assert(hex4_val(h) == 16 * hi + lo);
            assert(hex4_val(h) == u);
            assert(is_scalar_val(u as int));
            vstd::utf8::char_u32_cast(c, u);
            assert((hex4_val(h) as u32) as char == c);
            assert(e.skip(6) =~= tail);
            assert(seq![c] + s.skip(1) =~= s);
        } else {
            // the character stands for itself
            assert(escape_char(c) =~= seq![c]);
            assert(e[0] == c);
            assert(is_plain_char(c));
            assert(e.skip(1) =~= tail);
            assert(seq![c] + s.skip(1) =~= s);
        }
    }
}

/// The digits of a number: all decimal, no redundant leading zero, and their
/// value is the number again.
proof fn lemma_dec_digits(n: int)
    requires
        n >= 0,
    ensures
        dec_digits(n).len() >= 1,
        forall|q: int| 0 <= q < dec_digits(n).len() ==> is_digit(#[trigger] dec_digits(n)[q]),
        digits_val(dec_digits(n)) == n,
        n > 0 ==> dec_digits(n)[0] != '0',
        dec_digits(n).len() > 1 ==> dec_digits(n)[0] != '0',
    decreases n,
{
    if n < 10 {
        lemma_digit_char(n);
        let ds = dec_digits(n);
        assert(ds =~= seq![digit_char(n)]);
        assert(ds.take(0) =~= Seq::<char>::empty());
        assert(digits_val(ds) == 10 * digits_val(ds.take(0)) + digit_val(digit_char(n)));
    } else {
        lemma_fundamental_div_mod(n, 10);
        lemma_dec_digits(n / 10);
        lemma_digit_char(n % 10);
        let x = dec_digits(n / 10);
        let ds = dec_digits(n);
        assert(ds == x.push(digit_char(n % 10)));
        assert(ds.take(ds.len() - 1) =~= x);
        assert(ds[ds.len() - 1] == digit_char(n % 10));
        assert(digits_val(ds) == 10 * digits_val(x) + digit_val(digit_char(n % 10)));
        assert(forall|q: int|
            0 <= q < ds.len() ==> is_digit(#[trigger] ds[q])) by {
            assert(forall|q: int| 0 <= q < x.len() ==> ds[q] == x[q]);
        }
        assert(ds[0] == x[0]);
    }
}

/// A run of digits followed by a non-digit is measured and split exactly.
proof fn lemma_digit_run_of(ds: Seq<char>, r: Seq<char>)
    requires
        forall|q: int| 0 <= q < ds.len() ==> is_digit(#[trigger] ds[q]),
        r.len() == 0 || !is_digit(r[0]),
    ensures
        digit_run(ds + r) == ds.len(),
    decreases ds.len(),
{
    if ds.len() == 0 {
        assert(ds + r =~= r);
    } else {
        assert((ds + r)[0] == ds[0]);
        assert((ds + r).skip(1) =~= ds.skip(1) + r);
        lemma_digit_run_of(ds.skip(1), r);
    }
}

/// Decoding an integer literal undoes the encoding, provided what follows
/// does not continue the digit run.
proof fn lemma_parse_int_of_encode(n: int, r: Seq<char>)
    requires
        i64::MIN <= n <= i64::MAX,
        r.len() > 0,
        !is_digit(r[0]),
    ensures
        parse_int_rest(encode_int(n) + r) == Some((n, r)),
{
    if n < 0 {
        let m = -n;
        lemma_dec_digits(m);
        let d = dec_digits(m);
        let e = encode_int(n) + r;
        assert(e =~= seq!['-'] + (d + r));
        assert(e[0] == '-');
        assert(e.skip(1) =~= d + r);
        lemma_digit_run_of(d, r);
        assert((d + r).take(d.len() as int) =~= d);
        assert((d + r).skip(d.len() as int) =~= r);
        assert((d + r)[0] == d[0]);
        assert(parse_uint_rest(d + r) == Some((m, r)));
    } else {
        lemma_dec_digits(n);
        let d = dec_digits(n);
        let e = encode_int(n) + r;
        assert(e =~= d + r);
        lemma_digit_run_of(d, r);
        assert(e.take(d.len() as int) =~= d);
        assert(e.skip(d.len() as int) =~= r);
        assert(e[0] == d[0]);
        assert(is_digit(e[0]));
        assert(e[0] != '-') by {
            assert('-' as u32 == 45);
        }
        assert(parse_uint_rest(e) == Some((n, r)));
    }
}

/// Decoding an encoded element list undoes the encoding, whatever follows
/// the closing bracket.
proof fn lemma_parse_items_of_encode(xs: Seq<Seq<char>>, r: Seq<char>)
    requires
        xs.len() >= 1,
    ensures
        parse_items_rest(encode_items(xs) + seq![']'] + r) == Some((xs, r)),
    decreases xs.len(),
{
    let e = encode_items(xs) + seq![']'] + r;
    if xs.len() == 1 {
        let close = seq![']'] + r;
        assert(e =~= seq!['"'] + (escape_string(xs[0]) + seq!['"'] + close));
        assert(e[0] == '"');
        assert(e.skip(1) =~= escape_string(xs[0]) + seq!['"'] + close);
        lemma_parse_string_of_escape(xs[0], close);
        assert(close[0] == ']');
        lemma_skip_ws_id(close);
        assert(close[0] != ',');
        assert(close.skip(1) =~= r);
        assert(seq![xs[0]] =~= xs);
    } else {
        let ri = encode_items(xs.skip(1)) + seq![']'] + r;
        let mid = seq![','] + ri;
        assert(e =~= seq!['"'] + (escape_string(xs[0]) + seq!['"'] + mid));
        assert(e[0] == '"');
        assert(e.skip(1) =~= escape_string(xs[0]) + seq!['"'] + mid);
        lemma_parse_string_of_escape(xs[0], mid);
        assert(mid[0] == ',');
        lemma_skip_ws_id(mid);
        assert(mid.skip(1) =~= ri);
        assert(xs.skip(1).len() >= 1);
        assert(encode_items(xs.skip(1))[0] == '"') by {
            if xs.skip(1).len() == 1 {
                assert(encode_items(xs.skip(1)) == quote(xs.skip(1)[0]));
            }
            assert(quote(xs.skip(1)[0])[0] == '"');
        }
        assert(ri[0] == '"');
        lemma_skip_ws_id(ri);
        lemma_parse_items_of_encode(xs.skip(1), r);
        assert(parse_items_rest(e) == Some((seq![xs[0]] + xs.skip(1), r)));
        assert(seq![xs[0]] + xs.skip(1) =~= xs);
    }
}

/// Decoding an encoded area array undoes the encoding.
proof fn lemma_parse_areas_of_encode(xs: Seq<Seq<char>>, r: Seq<char>)
    ensures
        parse_areas_rest(encode_areas(xs) + r) == Some((xs, r)),
{
    let e = encode_areas(xs) + r;
    assert(e[0] == '[');
    if xs.len() == 0 {
        assert(e =~= seq!['['] + (seq![']'] + r));
        assert(e.skip(1) =~= seq![']'] + r);
        lemma_skip_ws_id(seq![']'] + r);
        assert((seq![']'] + r)[0] == ']');
        assert((seq![']'] + r).skip(1) =~= r);
        assert(xs =~= Seq::<Seq<char>>::empty());
    } else {
        let t = encode_items(xs) + seq![']'] + r;
        assert(e =~= seq!['['] + t);
        assert(e.skip(1) =~= t);
        assert(encode_items(xs)[0] == '"') by {
            if xs.len() == 1 {
                assert(encode_items(xs) == quote(xs[0]));
            }
            assert(quote(xs[0])[0] == '"');
        }
        assert(t[0] == '"');
        lemma_skip_ws_id(t);
        assert(t[0] != ']');
        lemma_parse_items_of_encode(xs, r);
    }
}

/// The round-trip law: decoding an encoded alert yields the alert again,
/// field for field, for every alert whose timestamp the wire can carry —
/// arbitrary area lists and titles, negative timestamps included. The
/// encoding is never empty, so it is never mistaken for the no-alert signal.
#[verifier::rlimit(100)]
#[verifier::spinoff_prover]
pub proof fn lemma_round_trip(m: AlertModel)
    requires
        m.valid(),
    ensures
        spec_decode(spec_encode(m)) == Some(m),
        spec_encode(m).len() > 0,
{
    let a = encode_areas(m.areas);
    let n = encode_int(m.date);
    let t = quote(m.title);
    let e = spec_encode(m);

    // peel the object head and the data key
    let s_after_title_colon = t + seq!['}'];
    let s_after_title_key = seq![':'] + s_after_title_colon;
    let s_after_id = seq![','] + (seq!['"'] + title_key() + seq!['"'] + s_after_title_key);
    let s_after_id_colon = n + s_after_id;
    let s_after_id_key = seq![':'] + s_after_id_colon;
    let s_after_areas = seq![','] + (seq!['"'] + id_key() + seq!['"'] + s_after_id_key);
    let s_after_data_colon = a + s_after_areas;
    let s_after_data_key = seq![':'] + s_after_data_colon;
    let s_after_brace = seq!['"'] + data_key() + seq!['"'] + s_after_data_key;

    assert(e =~= seq!['{'] + s_after_brace);
    assert(e[0] == '{');
    lemma_skip_ws_id(e);
    lemma_expect_char_peel('{', s_after_brace);

    assert(s_after_brace[0] == '"');
    lemma_skip_ws_id(s_after_brace);
    lemma_expect_key_peel(data_key(), s_after_data_key);

    assert(s_after_data_key[0] == ':');
    lemma_skip_ws_id(s_after_data_key);
    lemma_expect_char_peel(':', s_after_data_colon);

    assert(s_after_data_colon =~= a + s_after_areas);
    assert(s_after_data_colon[0] == '[');
    lemma_skip_ws_id(s_after_data_colon);
    lemma_parse_areas_of_encode(m.areas, s_after_areas);

    // ,"id":<millis>
    assert(s_after_areas[0] == ',');
    lemma_skip_ws_id(s_after_areas);
    lemma_expect_char_peel(',', seq!['"'] + id_key() + seq!['"'] + s_after_id_key);
    let s_id_key = seq!['"'] + id_key() + seq!['"'] + s_after_id_key;
    assert(s_id_key[0] == '"');
    lemma_skip_ws_id(s_id_key);
    lemma_expect_key_peel(id_key(), s_after_id_key);
    assert(s_after_id_key[0] == ':');
    lemma_skip_ws_id(s_after_id_key);
    lemma_expect_char_peel(':', s_after_id_colon);

    assert(s_after_id[0] == ',');
    assert(!is_digit(',')) by {
        assert(',' as u32 == 44);
    }
    assert(s_after_id_colon[0] == n[0]);
    assert(n[0] == '-' || is_digit(n[0])) by {
        if m.date >= 0 {
            lemma_dec_digits(m.date);
        } else {
            lemma_dec_digits(-m.date);
            assert(n =~= seq!['-'] + dec_digits(-m.date));
        }
    }
    assert(!is_ws(s_after_id_colon[0])) by {
        assert('-' as u32 == 45);
        assert(' ' as u32 == 32 && '\n' as u32 == 10 && '\r' as u32 == 13 && '\t' as u32 == 9);
    }
    lemma_skip_ws_id(s_after_id_colon);
    lemma_parse_int_of_encode(m.date, s_after_id);

    // ,"title":<string>
    lemma_expect_char_peel(',', seq!['"'] + title_key() + seq!['"'] + s_after_title_key);
    let s_title_key = seq!['"'] + title_key() + seq!['"'] + s_after_title_key;
    assert(s_after_id.skip(1) =~= s_title_key);
    assert(s_title_key[0] == '"');
    lemma_skip_ws_id(s_title_key);
    lemma_expect_key_peel(title_key(), s_after_title_key);
    assert(s_after_title_key[0] == ':');
    lemma_skip_ws_id(s_after_title_key);
    lemma_expect_char_peel(':', s_after_title_colon);

    let s_string_body = escape_string(m.title) + seq!['"'] + seq!['}'];
    assert(s_after_title_colon =~= seq!['"'] + s_string_body);
    assert(s_after_title_colon[0] == '"');
    lemma_skip_ws_id(s_after_title_colon);
    lemma_expect_char_peel('"', s_string_body);
    lemma_parse_string_of_escape(m.title, seq!['}']);

    // the closing brace and the end of the stream
    lemma_skip_ws_id(seq!['}']);
    lemma_expect_char_peel('}', Seq::<char>::empty());
    assert(seq!['}'] =~= seq!['}'] + Seq::<char>::empty());
    assert(skip_ws(Seq::<char>::empty()).len() == 0);
    assert(m == AlertModel { areas: m.areas, date: m.date, title: m.title });
}

} // verus!
