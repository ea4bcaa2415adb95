use vstd::prelude::*;
use vstd::string::StrSliceExecFns;
use crate::alert::{areas_view, Alert};
use crate::chars::{digit_char_of, hex_char_of, push_char};
use crate::wire::{
    dec_digits, digit_char, encode_areas, encode_int, encode_items, escape_char, escape_string,
    quote, spec_encode,
};

verus! {

/// Escaping distributes over concatenation.
proof fn lemma_escape_string_append(a: Seq<char>, b: Seq<char>)
    ensures
        escape_string(a + b) == escape_string(a) + escape_string(b),
    decreases a.len(),
{
    if a.len() == 0 {
        assert(a + b =~= b);
        assert(escape_string(a) + escape_string(b) =~= escape_string(b));
    } else {
        assert((a + b).skip(1) =~= a.skip(1) + b);
        lemma_escape_string_append(a.skip(1), b);
        assert(escape_char(a[0]) + (escape_string(a.skip(1)) + escape_string(b)) =~= (escape_char(
            a[0],
        ) + escape_string(a.skip(1))) + escape_string(b));
    }
}

/// The string literal body of `s` followed by one more character.
proof fn lemma_escape_string_snoc(s: Seq<char>, c: char)
    ensures
        escape_string(s.push(c)) == escape_string(s) + escape_char(c),
{
    assert(s.push(c) =~= s + seq![c]);
    lemma_escape_string_append(s, seq![c]);
    assert(seq![c].skip(1) =~= Seq::<char>::empty());
    assert(escape_string(Seq::<char>::empty()) == Seq::<char>::empty());
    assert(seq![c].len() == 1 && seq![c][0] == c);
    assert(escape_string(seq![c]) == escape_char(c) + escape_string(seq![c].skip(1)));
    assert(escape_string(seq![c]) =~= escape_char(c));
}

/// The encoded element list of a list with one more element behind it.
proof fn lemma_encode_items_snoc(xs: Seq<Seq<char>>, x: Seq<char>)
    ensures
        encode_items(xs.push(x)) == if xs.len() == 0 {
            quote(x)
        } else {
            encode_items(xs) + seq![','] + quote(x)
        },
    decreases xs.len(),
{
    let ys = xs.push(x);
    if xs.len() == 0 {
        assert(ys.len() == 1);
        assert(ys[0] == x);
    } else if xs.len() == 1 {
        assert(ys.len() == 2);
        assert(ys[0] == xs[0]);
        assert(ys.skip(1) =~= seq![x]);
        assert(encode_items(seq![x]) == quote(x));
        assert(encode_items(xs) == quote(xs[0]));
        assert(quote(xs[0]) + seq![','] + quote(x) =~= quote(xs[0]) + (seq![','] + quote(x)));
    } else {
        assert(ys.skip(1) =~= xs.skip(1).push(x));
        lemma_encode_items_snoc(xs.skip(1), x);
        assert(encode_items(ys) == quote(xs[0]) + seq![','] + (encode_items(xs.skip(1)) + seq![',']
            + quote(x)));
        assert(quote(xs[0]) + seq![','] + (encode_items(xs.skip(1)) + seq![','] + quote(x)) =~= (
        quote(xs[0]) + seq![','] + encode_items(xs.skip(1))) + seq![','] + quote(x));
    }
}

/// The escaped body of a JSON string literal for `s`, quotes not included.
fn escaped(s: &str) -> (r: String)
    ensures
        r@ == escape_string(s@),
{
    let n = s.unicode_len();
    let mut out = String::new();
    let mut k: usize = 0;
    while k < n
        invariant
            k <= n,
            n == s@.len(),
            out@ == escape_string(s@.take(k as int)),
        decreases n - k,
    {
        let c = s.get_char(k);
        let u = c as u32;
        if c == '"' {
            push_char(&mut out, '\\');
            push_char(&mut out, '"');
        } else if c == '\\' {
            push_char(&mut out, '\\');
            push_char(&mut out, '\\');
        } else if u == 8 {
            push_char(&mut out, '\\');
            push_char(&mut out, 'b');
        } else if u == 12 {
            push_char(&mut out, '\\');
            push_char(&mut out, 'f');
        } else if u == 10 {
            push_char(&mut out, '\\');
            push_char(&mut out, 'n');
        } else if u == 13 {
            push_char(&mut out, '\\');
            push_char(&mut out, 'r');
        } else if u == 9 {
            push_char(&mut out, '\\');
            push_char(&mut out, 't');
        } else if u < 32 {
            push_char(&mut out, '\\');
            push_char(&mut out, 'u');
            push_char(&mut out, '0');
            push_char(&mut out, '0');
            push_char(&mut out, hex_char_of(u / 16));
            push_char(&mut out, hex_char_of(u % 16));
        } else {
            push_char(&mut out, c);
        }
        proof {
            lemma_escape_string_snoc(s@.take(k as int), c);
            assert(s@.take(k as int).push(c) =~= s@.take(k as int + 1));
            assert(out@ =~= escape_string(s@.take(k as int)) + escape_char(c));
        }
        k = k + 1;
    }
    proof {
        assert(s@.take(n as int) =~= s@);
    }
    out
}

/// A complete JSON string literal for `s`.
fn quoted(s: &str) -> (r: String)
    ensures
        r@ == quote(s@),
{
    let mut out = String::new();
    push_char(&mut out, '"');
    let body = escaped(s);
    out.append(body.as_str());
    push_char(&mut out, '"');
    proof {
        assert(out@ =~= quote(s@));
    }
    out
}

/// The date codec, serializing direction: the timestamp of an alert is put
/// on the wire as its signed epoch-millisecond count in decimal.
pub fn serialize(date: i64) -> (r: String)
    ensures
        r@ == encode_int(date as int),
{
    let mut out = String::new();
    let m: u64 = if date < 0 {
        push_char(&mut out, '-');
        (-(date as i128)) as u64
    } else {
        date as u64
    };
    let ghost sign: Seq<char> = if date < 0 {
        seq!['-']
    } else {
        Seq::empty()
    };
    assert(out@ =~= sign);
    let mut tmp: Vec<char> = Vec::new();
    tmp.push(digit_char_of(m % 10));
    let mut m2: u64 = m / 10;
    proof {
        if m < 10 {
            assert(tmp@.reverse() =~= seq![digit_char(m as int)]);
        } else {
            assert(dec_digits(m as int) == dec_digits(m as int / 10).push(
                digit_char(m as int % 10),
            ));
            assert(dec_digits(m2 as int) + tmp@.reverse() =~= dec_digits(m as int / 10).push(
                digit_char(m as int % 10),
            ));
        }
    }
    while m2 > 0
        invariant
            if m2 > 0 {
                dec_digits(m as int) == dec_digits(m2 as int) + tmp@.reverse()
            } else {
                dec_digits(m as int) == tmp@.reverse()
            },
        decreases m2,
    {
        let ghost prev = tmp@;
        let ghost pm2 = m2 as int;
        let d = m2 % 10;
        tmp.push(digit_char_of(d));
        m2 = m2 / 10;
        proof {
            assert(tmp@.reverse() =~= seq![digit_char(d as int)] + prev.reverse());
            if m2 > 0 {
                assert(dec_digits(pm2) == dec_digits(pm2 / 10).push(digit_char(pm2 % 10)));
                assert(dec_digits(pm2 / 10) + tmp@.reverse() =~= dec_digits(pm2 / 10).push(
                    digit_char(pm2 % 10),
                ) + prev.reverse());
            } else {
                assert(pm2 < 10);
                assert(dec_digits(pm2) =~= seq![digit_char(pm2)]);
                assert(dec_digits(pm2) + prev.reverse() =~= tmp@.reverse());
            }
        }
    }
    let n = tmp.len();
    let mut idx = n;
    while idx > 0
        invariant
            idx <= n,
            n == tmp@.len(),
            dec_digits(m as int) == tmp@.reverse(),
            out@ == sign + tmp@.reverse().take(n as int - idx as int),
        decreases idx,
    {
        idx = idx - 1;
        push_char(&mut out, tmp[idx]);
        proof {
            let k = n as int - idx as int - 1;
            assert(tmp@.reverse()[k] == tmp@[idx as int]);
            assert(tmp@.reverse().take(k + 1) =~= tmp@.reverse().take(k).push(tmp@.reverse()[k]));
            assert(out@ =~= sign + tmp@.reverse().take(k + 1));
        }
    }
    proof {
        assert(tmp@.reverse().take(n as int) =~= tmp@.reverse());
        if date < 0 {
            assert(m as int == -(date as int));
            assert(out@ =~= encode_int(date as int));
        } else {
            assert(sign + tmp@.reverse() =~= tmp@.reverse());
        }
    }
    out
}

/// The encoded `data` array: each area name as a string literal, in order.
fn areas_literal(v: &Vec<String>) -> (r: String)
    ensures
        r@ == encode_areas(areas_view(v@)),
{
    let mut out = String::new();
    push_char(&mut out, '[');
    let n = v.len();
    let mut k: usize = 0;
    while k < n
        invariant
            k <= n,
            n == v@.len(),
            out@ == seq!['['] + encode_items(areas_view(v@.take(k as int))),
        decreases n - k,
    {
        if k > 0 {
            push_char(&mut out, ',');
        }
        let q = quoted(v[k].as_str());
        out.append(q.as_str());
        proof {
            let xs = areas_view(v@.take(k as int));
            lemma_encode_items_snoc(xs, v@[k as int]@);
            assert(areas_view(v@.take(k as int + 1)) =~= xs.push(v@[k as int]@));
            if k == 0 {
                assert(xs.len() == 0);
                assert(out@ =~= seq!['['] + quote(v@[k as int]@));
            } else {
                assert(out@ =~= seq!['['] + (encode_items(xs) + seq![','] + quote(v@[k as int]@)));
                assert(seq!['['] + (encode_items(xs) + seq![','] + quote(v@[k as int]@)) =~= seq![
                    '[',
                ] + encode_items(areas_view(v@.take(k as int + 1))));
            }
        }
        k = k + 1;
    }
    push_char(&mut out, ']');
    proof {
        assert(v@.take(n as int) =~= v@);
        assert(out@ =~= encode_areas(areas_view(v@)));
    }
    out
}

impl Alert {
    /// The canonical wire encoding of this alert: `{"data":…,"id":…,"title":…}`
    /// with the timestamp under the `id` field as epoch-milliseconds.
    pub fn encode(&self) -> (r: String)
        ensures
            r@ == spec_encode(self@),
    {
        let mut out = String::new();
        push_char(&mut out, '{');
        push_char(&mut out, '"');
        push_char(&mut out, 'd');
        push_char(&mut out, 'a');
        push_char(&mut out, 't');
        push_char(&mut out, 'a');
        push_char(&mut out, '"');
        push_char(&mut out, ':');
        let ar = areas_literal(&self.areas);
        out.append(ar.as_str());
        push_char(&mut out, ',');
        push_char(&mut out, '"');
        push_char(&mut out, 'i');
        push_char(&mut out, 'd');
        push_char(&mut out, '"');
        push_char(&mut out, ':');
        let da = serialize(self.date);
        out.append(da.as_str());
        push_char(&mut out, ',');
        push_char(&mut out, '"');
        push_char(&mut out, 't');
        push_char(&mut out, 'i');
        push_char(&mut out, 't');
        push_char(&mut out, 'l');
        push_char(&mut out, 'e');
        push_char(&mut out, '"');
        push_char(&mut out, ':');
        let ti = quoted(self.title.as_str());
        out.append(ti.as_str());
        push_char(&mut out, '}');
        proof {
            assert(out@ =~= spec_encode(self@));
        }
        out
    }
}

} // verus!
