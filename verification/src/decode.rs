use vstd::prelude::*;
use vstd::string::StrSliceExecFns;
use crate::alert::{areas_view, Alert, Error};
use crate::chars::{char_from_u32, push_char};
use crate::wire::{
    data_key, digit_run, digits_val, expect_char, expect_key, hex4_val, id_key, is_digit,
    is_hex_digit, is_plain_char, is_ws, parse_areas_rest, parse_int_rest, parse_items_rest,
    parse_string_rest, parse_uint_rest, simple_unescape, skip_ws, spec_decode, title_key,
};

verus! {

/// The characters of `s`, one by one.
fn to_chars(s: &str) -> (v: Vec<char>)
    ensures
        v@ == s@,
{
    let n = s.unicode_len();
    let mut v: Vec<char> = Vec::new();
    let mut k: usize = 0;
    while k < n
        invariant
            k <= n,
            n == s@.len(),
            v@ == s@.take(k as int),
        decreases n - k,
    {
        v.push(s.get_char(k));
        proof {
            assert(s@.take(k as int).push(s@[k as int]) =~= s@.take(k as int + 1));
        }
        k = k + 1;
    }
    proof {
        assert(s@.take(n as int) =~= s@);
    }
    v
}

/// Position of the first non-whitespace character at or after `i`.
fn skip_ws_at(v: &Vec<char>, i: usize) -> (j: usize)
    requires
        i <= v@.len(),
    ensures
        i <= j <= v@.len(),
        v@.skip(j as int) == skip_ws(v@.skip(i as int)),
{
    let mut j = i;
    loop
        invariant
            i <= j <= v@.len(),
            skip_ws(v@.skip(j as int)) == skip_ws(v@.skip(i as int)),
        decreases v@.len() - j,
    {
        if j >= v.len() {
            return j;
        }
        let c = v[j];
        proof {
            assert(v@.skip(j as int)[0] == c);
            assert(v@.skip(j as int).skip(1) =~= v@.skip(j as int + 1));
        }
        if !(c == ' ' || c == '\n' || c == '\r' || c == '\t') {
            proof {
                assert(!is_ws(c));
                assert(skip_ws(v@.skip(j as int)) == v@.skip(j as int));
            }
            return j;
        }
        j = j + 1;
    }
}

/// One expected punctuation character.
fn eat_char(v: &Vec<char>, i: usize, c: char) -> (r: Option<usize>)
    requires
        i <= v@.len(),
    ensures
        match expect_char(v@.skip(i as int), c) {
            Some(rest) => r matches Some(j) && i < j <= v@.len() && v@.skip(j as int) == rest,
            None => r is None,
        },
{
    proof {
        if i < v@.len() {
            assert(v@.skip(i as int)[0] == v@[i as int]);
            assert(v@.skip(i as int).skip(1) =~= v@.skip(i as int + 1));
        }
    }
    if i < v.len() && v[i] == c {
        Some(i + 1)
    } else {
        None
    }
}

/// An expected object key with its quotes, no escapes in it.
fn eat_key(v: &Vec<char>, i: usize, key: &Vec<char>) -> (r: Option<usize>)
    requires
        i <= v@.len(),
        key@.len() + 2 <= usize::MAX,
    ensures
        match expect_key(v@.skip(i as int), key@) {
            Some(rest) => r matches Some(j) && i < j <= v@.len() && v@.skip(j as int) == rest,
            None => r is None,
        },
{
    let ghost s = v@.skip(i as int);
    let klen = key.len();
    let n = v.len();
    if n - i < klen + 2 || v[i] != '"' || v[i + klen + 1] != '"' {
        proof {
            if s.len() >= klen + 2 {
                assert(s[0] == v@[i as int]);
                assert(s[klen as int + 1] == v@[i as int + klen as int + 1]);
            }
        }
        return None;
    }
    let mut p: usize = 0;
    while p < klen
        invariant
            p <= klen,
            klen == key@.len(),
            n == v@.len(),
            i + klen + 2 <= n,
            s == v@.skip(i as int),
            forall|q: int| 0 <= q < p ==> v@[i as int + 1 + q] == key@[q],
        decreases klen - p,
    {
        if v[i + 1 + p] != key[p] {
            proof {
                assert(s.subrange(1, klen as int + 1)[p as int] == v@[i as int + 1 + p as int]);
            }
            return None;
        }
        p = p + 1;
    }
    proof {
        assert(s.subrange(1, klen as int + 1) =~= key@);
        assert(s[0] == v@[i as int]);
        assert(s[klen as int + 1] == v@[i as int + klen as int + 1]);
        assert(s.skip(klen as int + 2) =~= v@.skip(i as int + klen as int + 2));
    }
    Some(i + klen + 2)
}

/// What a two-character escape stands for, executable side.
fn simple_unescape_of(c: char) -> (r: Option<char>)
    ensures
        r == simple_unescape(c),
{
    if c == '"' {
        Some('"')
    } else if c == '\\' {
        Some('\\')
    } else if c == '/' {
        Some('/')
    } else if c == 'b' {
        Some('\u{08}')
    } else if c == 'f' {
        Some('\u{0C}')
    } else if c == 'n' {
        Some('\n')
    } else if c == 'r' {
        Some('\r')
    } else if c == 't' {
        Some('\t')
    } else {
        None
    }
}

/// Value of one hexadecimal digit character.
fn hex_val_of(c: char) -> (r: Option<u32>)
    ensures
        r is Some <==> is_hex_digit(c),
        r matches Some(x) ==> x == crate::wire::hex_val(c),
{
    let u = c as u32;
    if 48 <= u && u <= 57 {
        Some(u - 48)
    } else if 97 <= u && u <= 102 {
        Some(u - 87)
    } else if 65 <= u && u <= 70 {
        Some(u - 55)
    } else {
        None
    }
}

/// Body of a string literal, entered just after the opening quote.
fn parse_string_at(v: &Vec<char>, i: usize) -> (r: Option<(String, usize)>)
    requires
        i <= v@.len(),
    ensures
        match parse_string_rest(v@.skip(i as int)) {
            Some((cs, rest)) => r matches Some(p) && p.0@ == cs && i < p.1 <= v@.len()
                && v@.skip(p.1 as int) == rest,
            None => r is None,
        },
{
    let mut acc = String::new();
    let mut j = i;
    loop
        invariant
            i <= j <= v@.len(),
            match parse_string_rest(v@.skip(j as int)) {
                Some((cs, rest)) => parse_string_rest(v@.skip(i as int)) == Some(
                    (acc@ + cs, rest),
                ),
                None => parse_string_rest(v@.skip(i as int)) is None,
            },
        decreases v@.len() - j,
    {
        let ghost s = v@.skip(j as int);
        if j >= v.len() {
            return None;
        }
        let c = v[j];
        proof {
            assert(s[0] == c);
            assert(s.skip(1) =~= v@.skip(j as int + 1));
        }
        if c == '"' {
            proof {
                assert(acc@ + Seq::<char>::empty() =~= acc@);
            }
            return Some((acc, j + 1));
        } else if c == '\\' {
            if v.len() - j < 2 {
                return None;
            }
            let e = v[j + 1];
            proof {
                assert(s[1] == e);
            }
            match simple_unescape_of(e) {
                Some(u) => {
                    let ghost prev = acc@;
                    push_char(&mut acc, u);
                    proof {
                        assert(s.skip(2) =~= v@.skip(j as int + 2));
                        if let Some((cs2, rest2)) = parse_string_rest(v@.skip(j as int + 2)) {
                            assert(parse_string_rest(s) == Some((seq![u] + cs2, rest2)));
                            assert(prev + (seq![u] + cs2) =~= acc@ + cs2);
                        }
                    }
                    j = j + 2;
                },
                None => {
                    if e != 'u' {
                        return None;
                    }
                    if v.len() - j < 6 {
                        return None;
                    }
                    proof {
                        assert(s[2] == v@[j as int + 2]);
                        assert(s[3] == v@[j as int + 3]);
                        assert(s[4] == v@[j as int + 4]);
                        assert(s[5] == v@[j as int + 5]);
                        assert(s.skip(2) =~= v@.skip(j as int + 2));
                    }
                    let h0 = match hex_val_of(v[j + 2]) {
                        Some(x) => x,
                        None => {
                            return None;
                        },
                    };
                    let h1 = match hex_val_of(v[j + 3]) {
                        Some(x) => x,
                        None => {
                            return None;
                        },
                    };
                    let h2 = match hex_val_of(v[j + 4]) {
                        Some(x) => x,
                        None => {
                            return None;
                        },
                    };
                    let h3 = match hex_val_of(v[j + 5]) {
                        Some(x) => x,
                        None => {
                            return None;
                        },
                    };
                    let val: u32 = 4096 * h0 + 256 * h1 + 16 * h2 + h3;
                    proof {
                        assert(val == hex4_val(s.skip(2)));
                    }
                    match char_from_u32(val) {
                        Some(u) => {
                            let ghost prev = acc@;
                            push_char(&mut acc, u);
                            proof {
                                vstd::utf8::char_u32_cast(u, val);
                                assert(u == (hex4_val(s.skip(2)) as u32) as char);
                                assert(s.skip(6) =~= v@.skip(j as int + 6));
                                if let Some((cs2, rest2)) = parse_string_rest(
                                    v@.skip(j as int + 6),
                                ) {
                                    assert(parse_string_rest(s) == Some((seq![u] + cs2, rest2)));
                                    assert(prev + (seq![u] + cs2) =~= acc@ + cs2);
                                }
                            }
                            j = j + 6;
                        },
                        None => {
                            return None;
                        },
                    }
                },
            }
        } else {
            if (c as u32) < 32 {
                return None;
            }
            let ghost prev = acc@;
            push_char(&mut acc, c);
            proof {
                assert(is_plain_char(c));
                if let Some((cs2, rest2)) = parse_string_rest(v@.skip(j as int + 1)) {
                    assert(parse_string_rest(s) == Some((seq![c] + cs2, rest2)));
                    assert(prev + (seq![c] + cs2) =~= acc@ + cs2);
                }
            }
            j = j + 1;
        }
    }
}

/// A signed decimal integer, rejected when its value does not fit `i64`.
fn parse_i64_at(v: &Vec<char>, i: usize) -> (r: Option<(i64, usize)>)
    requires
        i <= v@.len(),
    ensures
        match parse_int_rest(v@.skip(i as int)) {
            Some((n, rest)) => if i64::MIN <= n <= i64::MAX {
                r matches Some(p) && p.0 == n && i <= p.1 <= v@.len() && v@.skip(p.1 as int)
                    == rest
            } else {
                r is None
            },
            None => r is None,
        },
{
    let ghost s = v@.skip(i as int);
    let neg = i < v.len() && v[i] == '-';
    let s0: usize = if neg {
        i + 1
    } else {
        i
    };
    proof {
        if s.len() > 0 {
            assert(s[0] == v@[i as int]);
            assert(s.skip(1) =~= v@.skip(i as int + 1));
        }
    }
    let ghost su = v@.skip(s0 as int);
    // scan the digit run, accumulating its value, capped just above i64 range
    let magmax: u128 = (i64::MAX as u128) + 1;
    let mut j = s0;
    let mut val: u128 = 0;
    let mut big = false;
    loop
        invariant
            s0 <= j <= v@.len(),
            su == v@.skip(s0 as int),
            magmax == (i64::MAX as u128) + 1,
            digit_run(su) == j - s0 + digit_run(v@.skip(j as int)),
            big ==> digits_val(v@.subrange(s0 as int, j as int)) > magmax,
            !big ==> val == digits_val(v@.subrange(s0 as int, j as int)) && val <= magmax,
        ensures
            s0 <= j <= v@.len(),
            digit_run(su) == j - s0,
            big ==> digits_val(v@.subrange(s0 as int, j as int)) > magmax,
            !big ==> val == digits_val(v@.subrange(s0 as int, j as int)) && val <= magmax,
        decreases v@.len() - j,
    {
        if j >= v.len() {
            proof {
                assert(digit_run(v@.skip(j as int)) == 0);
            }
            break;
        }
        let c = v[j];
        proof {
            assert(v@.skip(j as int)[0] == c);
        }
        let u = c as u32;
        if !(48 <= u && u <= 57) {
            proof {
                assert(!is_digit(c));
                assert(digit_run(v@.skip(j as int)) == 0);
            }
            break;
        }
        let d: u32 = c as u32 - 48;
        let ghost pre = v@.subrange(s0 as int, j as int);
        proof {
            assert(v@.skip(j as int)[0] == c);
            assert(is_digit(c));
            assert(v@.skip(j as int).skip(1) =~= v@.skip(j as int + 1));
            let post = v@.subrange(s0 as int, j as int + 1);
            assert(post.take(post.len() - 1) =~= pre);
            assert(post[post.len() - 1] == c);
            assert(digits_val(post) == 10 * digits_val(pre) + d);
        }
        if !big {
            let nv: u128 = 10 * val + (d as u128);
            if nv > magmax {
                big = true;
            } else {
                val = nv;
            }
        }
        j = j + 1;
    }
    if j == s0 {
        // no digits: nothing parses
        return None;
    }
    if j - s0 > 1 && v[s0] == '0' {
        proof {
            assert(su[0] == v@[s0 as int]);
        }
        return None;
    }
    let ghost k = digit_run(su);
    proof {
        assert(su[0] == v@[s0 as int]);
        assert(su.take(k) =~= v@.subrange(s0 as int, j as int));
        assert(su.skip(k) =~= v@.skip(j as int));
        assert(parse_uint_rest(su) == Some(
            (digits_val(v@.subrange(s0 as int, j as int)), v@.skip(j as int)),
        ));
    }
    if big {
        return None;
    }
    if neg {
        if val == magmax {
            proof {
                assert(0 - val as int == i64::MIN);
            }
            return Some((i64::MIN, j));
        }
        let out: i64 = -(val as i64);
        return Some((out, j));
    }
    if val == magmax {
        // one past i64::MAX: representable only with the minus sign
        return None;
    }
    Some((val as i64, j))
}

/// The `data` array of area names.
fn parse_areas_at(v: &Vec<char>, i: usize) -> (r: Option<(Vec<String>, usize)>)
    requires
        i <= v@.len(),
    ensures
        match parse_areas_rest(v@.skip(i as int)) {
            Some((items, rest)) => r matches Some(p) && areas_view(p.0@) == items && i
                < p.1 <= v@.len() && v@.skip(p.1 as int) == rest,
            None => r is None,
        },
{
    let ghost s = v@.skip(i as int);
    proof {
        if s.len() > 0 {
            assert(s[0] == v@[i as int]);
            assert(s.skip(1) =~= v@.skip(i as int + 1));
        }
    }
    if i >= v.len() || v[i] != '[' {
        return None;
    }
    let mut j = skip_ws_at(v, i + 1);
    let ghost t = skip_ws(s.skip(1));
    proof {
        assert(t == v@.skip(j as int));
        if t.len() > 0 {
            assert(t[0] == v@[j as int]);
            assert(t.skip(1) =~= v@.skip(j as int + 1));
        }
    }
    if j < v.len() && v[j] == ']' {
        let out: Vec<String> = Vec::new();
        proof {
            assert(areas_view(out@) =~= Seq::<Seq<char>>::empty());
        }
        return Some((out, j + 1));
    }
    let mut out: Vec<String> = Vec::new();
    loop
        invariant
            i < j <= v@.len(),
            t == skip_ws(v@.skip(i as int).skip(1)),
            parse_areas_rest(v@.skip(i as int)) == parse_items_rest(t),
            match parse_items_rest(v@.skip(j as int)) {
                Some((items, rest)) => parse_items_rest(t) == Some(
                    (areas_view(out@) + items, rest),
                ),
                None => parse_items_rest(t) is None,
            },
        decreases v@.len() - j,
    {
        let ghost u = v@.skip(j as int);
        proof {
            if u.len() > 0 {
                assert(u[0] == v@[j as int]);
                assert(u.skip(1) =~= v@.skip(j as int + 1));
            }
        }
        if j >= v.len() || v[j] != '"' {
            return None;
        }
        match parse_string_at(v, j + 1) {
            None => {
                return None;
            },
            Some(item) => {
                let (it, j2) = item;
                let ghost cs = it@;
                let j3 = skip_ws_at(v, j2);
                let ghost w = skip_ws(v@.skip(j2 as int));
                proof {
                    assert(w == v@.skip(j3 as int));
                    if w.len() > 0 {
                        assert(w[0] == v@[j3 as int]);
                        assert(w.skip(1) =~= v@.skip(j3 as int + 1));
                    }
                }
                if j3 < v.len() && v[j3] == ',' {
                    let ghost prev = out@;
                    out.push(it);
                    let j4 = skip_ws_at(v, j3 + 1);
                    proof {
                        assert(areas_view(out@) =~= areas_view(prev).push(cs));
                        if let Some((items4, rest4)) = parse_items_rest(v@.skip(j4 as int)) {
                            assert(parse_items_rest(u) == Some((seq![cs] + items4, rest4)));
                            assert(areas_view(prev) + (seq![cs] + items4) =~= areas_view(out@)
                                + items4);
                        }
                    }
                    j = j4;
                } else if j3 < v.len() && v[j3] == ']' {
                    let ghost prev = out@;
                    out.push(it);
                    proof {
                        assert(parse_items_rest(u) == Some((seq![cs], w.skip(1))));
                        assert(areas_view(out@) =~= areas_view(prev).push(cs));
                        assert(areas_view(prev) + seq![cs] =~= areas_view(out@));
                    }
                    return Some((out, j3 + 1));
                } else {
                    return None;
                }
            },
        }
    }
}

impl Alert {
    /// Parses one non-empty response body. Succeeds exactly on the bodies the
    /// wire grammar accepts, and then returns the alert the body denotes;
    /// every other body is a parse error. Never a transport error.
    #[verifier::rlimit(60)]
    pub fn decode(s: &str) -> (r: Result<Alert, Error>)
        ensures
            match spec_decode(s@) {
                Some(m) => r matches Ok(a) && a@ == m,
                None => r matches Err(e) && e == Error::Parse,
            },
    {
        let v = to_chars(s);
        proof {
            assert(v@.skip(0) =~= s@);
        }
        let i0 = skip_ws_at(&v, 0);
        let i1 = match eat_char(&v, i0, '{') {
            Some(x) => x,
            None => {
                return Err(Error::Parse);
            },
        };
        let i2 = skip_ws_at(&v, i1);
        let dkey = vec!['d', 'a', 't', 'a'];
        proof {
            assert(dkey@ =~= data_key());
        }
        let i3 = match eat_key(&v, i2, &dkey) {
            Some(x) => x,
            None => {
                return Err(Error::Parse);
            },
        };
        let i4 = skip_ws_at(&v, i3);
        let i5 = match eat_char(&v, i4, ':') {
            Some(x) => x,
            None => {
                return Err(Error::Parse);
            },
        };
        let i6 = skip_ws_at(&v, i5);
        let (areas, i7) = match parse_areas_at(&v, i6) {
            Some(x) => x,
            None => {
                return Err(Error::Parse);
            },
        };
        // ,"id":<millis>
        let i8 = skip_ws_at(&v, i7);
        let i9 = match eat_char(&v, i8, ',') {
            Some(x) => x,
            None => {
                return Err(Error::Parse);
            },
        };
        let i10 = skip_ws_at(&v, i9);
        let ikey = vec!['i', 'd'];
        proof {
            assert(ikey@ =~= id_key());
        }
        let i11 = match eat_key(&v, i10, &ikey) {
            Some(x) => x,
            None => {
                return Err(Error::Parse);
            },
        };
        let i12 = skip_ws_at(&v, i11);
        let i13 = match eat_char(&v, i12, ':') {
            Some(x) => x,
            None => {
                return Err(Error::Parse);
            },
        };
        let i14 = skip_ws_at(&v, i13);
        let (date, i15) = match parse_i64_at(&v, i14) {
            Some(x) => x,
            None => {
                return Err(Error::Parse);
            },
        };
        // ,"title":<string>
        let i16 = skip_ws_at(&v, i15);
        let i17 = match eat_char(&v, i16, ',') {
            Some(x) => x,
            None => {
                return Err(Error::Parse);
            },
        };
        let i18 = skip_ws_at(&v, i17);
        let tkey = vec!['t', 'i', 't', 'l', 'e'];
        proof {
            assert(tkey@ =~= title_key());
        }
        let i19 = match eat_key(&v, i18, &tkey) {
            Some(x) => x,
            None => {
                return Err(Error::Parse);
            },
        };
        let i20 = skip_ws_at(&v, i19);
        let i21 = match eat_char(&v, i20, ':') {
            Some(x) => x,
            None => {
                return Err(Error::Parse);
            },
        };
        let i22 = skip_ws_at(&v, i21);
        let i23 = match eat_char(&v, i22, '"') {
            Some(x) => x,
            None => {
                return Err(Error::Parse);
            },
        };
        let (title, i24) = match parse_string_at(&v, i23) {
            Some(x) => x,
            None => {
                return Err(Error::Parse);
            },
        };
        // the closing brace, then nothing but whitespace
        let i25 = skip_ws_at(&v, i24);
        let i26 = match eat_char(&v, i25, '}') {
            Some(x) => x,
            None => {
                return Err(Error::Parse);
            },
        };
        let i27 = skip_ws_at(&v, i26);
        if i27 != v.len() {
            proof {
                assert(v@.skip(i27 as int).len() > 0);
            }
            return Err(Error::Parse);
        }
        proof {
            assert(v@.skip(i27 as int).len() == 0);
        }
        Ok(Alert { areas, date, title })
    }

    /// One fetched response body: a zero-length body is the designed signal
    /// for "no active alert"; anything else must parse as an alert object.
    /// Never a transport error.
    pub fn parse_response(body: &str) -> (r: Result<Option<Alert>, Error>)
        ensures
            body@.len() == 0 ==> (r matches Ok(a) && a is None),
            body@.len() > 0 ==> match spec_decode(body@) {
                Some(m) => r matches Ok(a) && a matches Some(al) && al@ == m,
                None => r matches Err(e) && e == Error::Parse,
            },
    {
        if body.unicode_len() == 0 {
            Ok(None)
        } else {
            match Self::decode(body) {
                Ok(a) => Ok(Some(a)),
                Err(e) => Err(e),
            }
        }
    }
}

/// The date codec, deserializing direction: a complete decimal integer
/// literal read as signed epoch-milliseconds. A literal outside the `i64`
/// range is a parse error, exactly as a timestamp beyond the representable
/// range must be.
pub fn deserialize(s: &str) -> (r: Result<i64, Error>)
    ensures
        match parse_int_rest(s@) {
            Some((n, rest)) => if rest.len() == 0 && i64::MIN <= n <= i64::MAX {
                r matches Ok(d) && d == n
            } else {
                r matches Err(e) && e == Error::Parse
            },
            None => r matches Err(e) && e == Error::Parse,
        },
{
    let v = to_chars(s);
    proof {
        assert(v@.skip(0) =~= s@);
    }
    match parse_i64_at(&v, 0) {
        Some(p) => {
            let (d, j) = p;
            if j == v.len() {
                proof {
                    assert(v@.skip(j as int).len() == 0);
                }
                Ok(d)
            } else {
                proof {
                    assert(v@.skip(j as int).len() > 0);
                }
                Err(Error::Parse)
            }
        },
        None => Err(Error::Parse),
    }
}

} // verus!
