//! The manifest store's text format: a compact JSON-shaped encoding of the
//! three manifest kinds, written by verified encoders and read back by a
//! verified parser, with proofs that reading undoes writing.
//!
//! Strings are quoted, with `"` and `\` escaped by a backslash; name lists
//! are bracketed and comma-separated; objects are brace-enclosed `"key":value`
//! pairs, accepted in any key order on read and written in one fixed order.

use vstd::prelude::*;
use crate::num::{dec_rep, digit_val_char, int_chars, is_dec_digit, digit_val, lemma_dec_rep_shape,
    lemma_parse_digits_dec_rep, parse_digits, pow10, push_int};
use crate::config::{AVRPlatformSpecificConfig, AppConfig, AppModel, AvrModel, ConfigError,
    DriverConfig, DriverModel, OSConfig, OSModel, PlatformModel, PlatformSpecific};
use crate::text::{chars_of, push_char, str_eq};

verus! {

/// The escaped form of one character.
pub open spec fn esc_char(c: char) -> Seq<char> {
    if c == '"' || c == '\\' {
        seq!['\\', c]
    } else {
        seq![c]
    }
}

/// The escaped form of a string's characters.
pub open spec fn esc(s: Seq<char>) -> Seq<char>
    decreases s.len(),
{
    if s.len() == 0 {
        Seq::<char>::empty()
    } else {
        esc_char(s[0]) + esc(s.drop_first())
    }
}

/// The encoding of a string: its escaped characters between quotes.
pub open spec fn enc_str(s: Seq<char>) -> Seq<char> {
    seq!['"'] + esc(s) + seq!['"']
}

/// Escaping distributes over concatenation.
pub proof fn lemma_esc_append(a: Seq<char>, b: Seq<char>)
    ensures
        esc(a + b) == esc(a) + esc(b),
    decreases a.len(),
{
    if a.len() == 0 {
        assert(a + b =~= b);
        assert(esc(a) + esc(b) =~= esc(b));
    } else {
        assert((a + b).drop_first() =~= a.drop_first() + b);
        assert((a + b)[0] == a[0]);
        lemma_esc_append(a.drop_first(), b);
        assert(esc_char(a[0]) + (esc(a.drop_first()) + esc(b)) =~= (esc_char(a[0]) + esc(
            a.drop_first(),
        )) + esc(b));
        assert(esc(a + b) =~= esc(a) + esc(b));
    }
}

/// Parses the characters of a quoted string after its opening quote: returns
/// the unescaped contents and what follows the closing quote.
pub open spec fn parse_str_body(s: Seq<char>) -> Option<(Seq<char>, Seq<char>)>
    decreases s.len(),
{
    if s.len() == 0 {
        None
    } else if s[0] == '"' {
        Some((Seq::<char>::empty(), s.drop_first()))
    } else if s[0] == '\\' {
        if s.len() >= 2 {
            match parse_str_body(s.skip(2)) {
                Some(p) => Some((seq![s[1]] + p.0, p.1)),
                None => None,
            }
        } else {
            None
        }
    } else {
        match parse_str_body(s.drop_first()) {
            Some(p) => Some((seq![s[0]] + p.0, p.1)),
            None => None,
        }
    }
}

/// Parses a quoted string from the front of `s`.
pub open spec fn parse_string(s: Seq<char>) -> Option<(Seq<char>, Seq<char>)> {
    if s.len() > 0 && s[0] == '"' {
        parse_str_body(s.drop_first())
    } else {
        None
    }
}

/// Reading a string body undoes escaping.
pub proof fn lemma_parse_str_body_esc(t: Seq<char>, rest: Seq<char>)
    ensures
        parse_str_body(esc(t) + seq!['"'] + rest) == Some((t, rest)),
    decreases t.len(),
{
    let s = esc(t) + seq!['"'] + rest;
    if t.len() == 0 {
        assert(s =~= seq!['"'] + rest);
        assert(s[0] == '"');
        assert(s.drop_first() =~= rest);
    } else {
        let c = t[0];
        let t2 = t.drop_first();
        assert(esc(t) == esc_char(c) + esc(t2));
        lemma_parse_str_body_esc(t2, rest);
        if c == '"' || c == '\\' {
            assert(s[0] == '\\');
            assert(s[1] == c);
            assert(s.len() >= 2);
            assert(s[0] != '"');
            assert(s.skip(2) =~= esc(t2) + seq!['"'] + rest);
            assert(seq![c] + t2 =~= t);
        } else {
            assert(s[0] == c);
            assert(s.drop_first() =~= esc(t2) + seq!['"'] + rest);
            assert(seq![c] + t2 =~= t);
        }
    }
}

/// Reading a quoted string undoes `enc_str`.
pub proof fn lemma_parse_string_enc(t: Seq<char>, rest: Seq<char>)
    ensures
        parse_string(enc_str(t) + rest) == Some((t, rest)),
        enc_str(t).len() >= 2,
{
    let s = enc_str(t) + rest;
    assert(s[0] == '"');
    assert(s.drop_first() =~= esc(t) + seq!['"'] + rest);
    lemma_parse_str_body_esc(t, rest);
}

/// Appends the characters of `s` to `out` in escaped form.
pub fn push_escaped(s: &str, out: &mut String)
    ensures
        final(out)@ == old(out)@ + esc(s@),
{
    let n = s.unicode_len();
    let mut i: usize = 0;
    proof {
        assert(s@.subrange(0, 0) =~= Seq::<char>::empty());
        assert(out@ + esc(s@.subrange(0, 0)) =~= out@);
    }
    while i < n
        invariant
            n == s@.len(),
            i <= n,
            out@ == old(out)@ + esc(s@.subrange(0, i as int)),
        decreases n - i,
    {
        let c = s.get_char(i);
        if c == '"' || c == '\\' {
            push_char(out, '\\');
            push_char(out, c);
        } else {
            push_char(out, c);
        }
        proof {
            let pre = s@.subrange(0, i as int);
            assert(s@.subrange(0, i + 1 as int) =~= pre + seq![s@[i as int]]);
            lemma_esc_append(pre, seq![s@[i as int]]);
            assert(seq![s@[i as int]].drop_first() =~= Seq::<char>::empty());
            assert(esc(Seq::<char>::empty()) =~= Seq::<char>::empty());
            assert(esc(seq![s@[i as int]]) =~= esc_char(s@[i as int]) + Seq::<char>::empty());
            assert(esc(seq![s@[i as int]]) =~= esc_char(s@[i as int]));
            assert(out@ =~= old(out)@ + esc(s@.subrange(0, i + 1 as int)));
        }
        i += 1;
    }
    assert(s@.subrange(0, n as int) =~= s@);
}

/// Appends the quoted, escaped encoding of `s` to `out`.
pub fn push_quoted(s: &str, out: &mut String)
    ensures
        final(out)@ == old(out)@ + enc_str(s@),
{
    push_char(out, '"');
    push_escaped(s, out);
    push_char(out, '"');
    assert(out@ =~= old(out)@ + enc_str(s@));
}

/// Parses a quoted string starting at position `i` of `v`.
pub fn parse_string_at(v: &Vec<char>, i: usize) -> (r: Option<(String, usize)>)
    requires
        i <= v@.len(),
    ensures
        match r {
            Some(p) => i <= p.1 <= v@.len() && parse_string(v@.skip(i as int)) == Some(
                (p.0@, v@.skip(p.1 as int)),
            ),
            None => parse_string(v@.skip(i as int)) is None,
        },
{
    if i >= v.len() {
        return None;
    }
    proof {
        assert(v@.skip(i as int)[0] == v@[i as int]);
    }
    if v[i] != '"' {
        return None;
    }
    let mut acc = String::new();
    let mut j = i + 1;
    proof {
        assert(v@.skip(i as int).drop_first() =~= v@.skip(i as int + 1));
        if parse_str_body(v@.skip(j as int)) is Some {
            let p = parse_str_body(v@.skip(j as int))->Some_0;
            assert(acc@ + p.0 =~= p.0);
        }
    }
    loop
        invariant
            i + 1 <= j <= v@.len(),
            parse_string(v@.skip(i as int)) == parse_str_body(v@.skip(i as int + 1)),
            parse_str_body(v@.skip(i as int + 1)) == (match parse_str_body(v@.skip(j as int)) {
                Some(p) => Some((acc@ + p.0, p.1)),
                None => None::<(Seq<char>, Seq<char>)>,
            }),
        decreases v@.len() - j,
    {
        if j >= v.len() {
            assert(v@.skip(j as int).len() == 0);
            return None;
        }
        proof {
            assert(v@.skip(j as int)[0] == v@[j as int]);
        }
        let c = v[j];
        if c == '"' {
            proof {
                assert(v@.skip(j as int).drop_first() =~= v@.skip(j as int + 1));
                assert(acc@ + Seq::<char>::empty() =~= acc@);
            }
            return Some((acc, j + 1));
        } else if c == '\\' {
            if j + 1 >= v.len() {
                assert(v@.skip(j as int).len() == 1);
                return None;
            }
            let c2 = v[j + 1];
            let ghost acc0 = acc@;
            push_char(&mut acc, c2);
            proof {
                assert(v@.skip(j as int)[1] == v@[j as int + 1]);
                assert(v@.skip(j as int).skip(2) =~= v@.skip(j as int + 2));
                if parse_str_body(v@.skip(j as int + 2)) is Some {
                    let p = parse_str_body(v@.skip(j as int + 2))->Some_0;
                    assert(acc0 + (seq![c2] + p.0) =~= acc@ + p.0);
                }
            }
            j += 2;
        } else {
            let ghost acc0 = acc@;
            push_char(&mut acc, c);
            proof {
                assert(v@.skip(j as int).drop_first() =~= v@.skip(j as int + 1));
                if parse_str_body(v@.skip(j as int + 1)) is Some {
                    let p = parse_str_body(v@.skip(j as int + 1))->Some_0;
                    assert(acc0 + (seq![c] + p.0) =~= acc@ + p.0);
                }
            }
            j += 1;
        }
    }
}

/// The comma-separated encoding of a name list's items.
pub open spec fn enc_items(l: Seq<Seq<char>>) -> Seq<char>
    decreases l.len(),
{
    if l.len() == 0 {
        Seq::<char>::empty()
    } else if l.len() == 1 {
        enc_str(l[0])
    } else {
        enc_str(l[0]) + seq![','] + enc_items(l.drop_first())
    }
}

/// The bracketed encoding of a name list.
pub open spec fn enc_list(l: Seq<Seq<char>>) -> Seq<char> {
    seq!['['] + enc_items(l) + seq![']']
}

/// Parses the items of a non-empty name list up to and including the closing
/// bracket.
pub open spec fn parse_list_items(s: Seq<char>) -> Option<(Seq<Seq<char>>, Seq<char>)>
    decreases s.len(),
{
    match parse_string(s) {
        None => None,
        Some(p) => {
            if p.1.len() < s.len() {
                if p.1.len() > 0 && p.1[0] == ',' {
                    match parse_list_items(p.1.drop_first()) {
                        Some(q) => Some((seq![p.0] + q.0, q.1)),
                        None => None,
                    }
                } else if p.1.len() > 0 && p.1[0] == ']' {
                    Some((seq![p.0], p.1.drop_first()))
                } else {
                    None
                }
            } else {
                None
            }
        },
    }
}

/// Parses a bracketed name list from the front of `s`.
pub open spec fn parse_list(s: Seq<char>) -> Option<(Seq<Seq<char>>, Seq<char>)> {
    if s.len() >= 2 && s[0] == '[' {
        if s[1] == ']' {
            Some((Seq::<Seq<char>>::empty(), s.skip(2)))
        } else {
            parse_list_items(s.drop_first())
        }
    } else {
        None
    }
}

/// A successfully parsed string consumes at least one character.
pub proof fn lemma_parse_str_body_consumes(s: Seq<char>)
    ensures
        parse_str_body(s) matches Some(p) ==> p.1.len() < s.len(),
    decreases s.len(),
{
    if s.len() > 0 {
        if s[0] == '"' {
        } else if s[0] == '\\' {
            if s.len() >= 2 {
                lemma_parse_str_body_consumes(s.skip(2));
            }
        } else {
            lemma_parse_str_body_consumes(s.drop_first());
        }
    }
}

/// A successfully parsed quoted string consumes at least one character.
pub proof fn lemma_parse_string_consumes(s: Seq<char>)
    ensures
        parse_string(s) matches Some(p) ==> p.1.len() < s.len(),
{
    if s.len() > 0 && s[0] == '"' {
        lemma_parse_str_body_consumes(s.drop_first());
    }
}

/// Reading list items undoes `enc_items` for a non-empty list.
pub proof fn lemma_parse_list_items_enc(l: Seq<Seq<char>>, rest: Seq<char>)
    requires
        l.len() >= 1,
    ensures
        parse_list_items(enc_items(l) + seq![']'] + rest) == Some((l, rest)),
    decreases l.len(),
{
    let s = enc_items(l) + seq![']'] + rest;
    if l.len() == 1 {
        let r1 = seq![']'] + rest;
        assert(s =~= enc_str(l[0]) + r1);
        lemma_parse_string_enc(l[0], r1);
        assert(r1[0] == ']');
        assert(r1.drop_first() =~= rest);
        assert(seq![l[0]] =~= l);
    } else {
        let tail = enc_items(l.drop_first()) + seq![']'] + rest;
        let r1 = seq![','] + tail;
        assert(s =~= enc_str(l[0]) + r1);
        lemma_parse_string_enc(l[0], r1);
        assert(r1[0] == ',');
        assert(r1.drop_first() =~= tail);
        lemma_parse_list_items_enc(l.drop_first(), rest);
        assert(seq![l[0]] + l.drop_first() =~= l);
    }
}

/// Reading a name list undoes `enc_list`.
pub proof fn lemma_parse_list_enc(l: Seq<Seq<char>>, rest: Seq<char>)
    ensures
        parse_list(enc_list(l) + rest) == Some((l, rest)),
        enc_list(l).len() >= 2,
{
    let s = enc_list(l) + rest;
    assert(s[0] == '[');
    if l.len() == 0 {
        assert(s =~= seq!['[', ']'] + rest);
        assert(s[1] == ']');
        assert(s.skip(2) =~= rest);
    } else {
        assert(enc_str(l[0])[0] == '"');
        assert(enc_items(l)[0] == '"');
        assert(s[1] == '"');
        assert(s.drop_first() =~= enc_items(l) + seq![']'] + rest);
        lemma_parse_list_items_enc(l, rest);
    }
}

/// Parses a decimal integer, within the signed 32-bit range, from the front
/// of `s`.
pub open spec fn parse_int(s: Seq<char>) -> Option<(int, Seq<char>)> {
    if s.len() > 0 && s[0] == '-' {
        let t = s.drop_first();
        if t.len() > 0 && is_dec_digit(t[0]) {
            let q = parse_digits(t, 0);
            if -(q.0 as int) >= i32::MIN as int {
                Some((-(q.0 as int), q.1))
            } else {
                None
            }
        } else {
            None
        }
    } else if s.len() > 0 && is_dec_digit(s[0]) {
        let q = parse_digits(s, 0);
        if q.0 as int <= i32::MAX as int {
            Some((q.0 as int, q.1))
        } else {
            None
        }
    } else {
        None
    }
}

/// Reading a decimal integer undoes `int_chars`, provided no digit follows.
pub proof fn lemma_parse_int_enc(i: int, rest: Seq<char>)
    requires
        i32::MIN as int <= i <= i32::MAX as int,
        rest.len() == 0 || !is_dec_digit(rest[0]),
    ensures
        parse_int(int_chars(i) + rest) == Some((i, rest)),
{
    let s = int_chars(i) + rest;
    if i < 0 {
        let n = (-i) as nat;
        assert(s[0] == '-');
        lemma_dec_rep_shape(n);
        assert(s.drop_first() =~= dec_rep(n) + rest);
        assert((dec_rep(n) + rest)[0] == dec_rep(n)[0]);
        lemma_parse_digits_dec_rep(n, rest, 0);
        assert(0 * pow10(dec_rep(n).len()) + n == n);
        assert(parse_digits(rest, n) == (n, rest));
        assert(parse_digits(dec_rep(n) + rest, 0) == (n, rest));
    } else {
        let n = i as nat;
        lemma_dec_rep_shape(n);
        assert(s =~= dec_rep(n) + rest);
        assert(s[0] == dec_rep(n)[0]);
        assert(is_dec_digit(s[0]));
        assert(s[0] != '-');
        lemma_parse_digits_dec_rep(n, rest, 0);
        assert(0 * pow10(dec_rep(n).len()) + n == n);
        assert(parse_digits(rest, n) == (n, rest));
        assert(parse_digits(s, 0) == (n, rest));
    }
}

/// Appends the comma-separated encodings of the names of `l` from index `k`
/// on, as `enc_items` lays them out.
fn push_items(l: &Vec<String>, k: usize, out: &mut String)
    requires
        k < l@.len(),
    ensures
        final(out)@ == old(out)@ + enc_items(l.deep_view().skip(k as int)),
    decreases l@.len() - k,
{
    let ghost dv = l.deep_view();
    let n = l.len();
    let item: &String = &l[k];
    proof {
        assert(dv[k as int] == l@[k as int]@);
        assert(dv.skip(k as int)[0] == dv[k as int]);
    }
    push_quoted(item.as_str(), out);
    if k + 1 < n {
        push_char(out, ',');
        let ghost mid = out@;
        push_items(l, k + 1, out);
        proof {
            assert(dv.skip(k as int).drop_first() =~= dv.skip(k as int + 1));
            assert(dv.skip(k as int).len() >= 2);
            assert(enc_items(dv.skip(k as int)) == enc_str(dv[k as int]) + seq![','] + enc_items(
                dv.skip(k as int + 1),
            ));
            assert(out@ =~= old(out)@ + enc_items(dv.skip(k as int)));
        }
    } else {
        proof {
            assert(dv.skip(k as int).len() == 1);
            assert(enc_items(dv.skip(k as int)) == enc_str(dv[k as int]));
        }
    }
}

/// Appends the encoding of the name list `l` to `out`.
pub fn push_list(l: &Vec<String>, out: &mut String)
    ensures
        final(out)@ == old(out)@ + enc_list(l.deep_view()),
{
    push_char(out, '[');
    if l.len() > 0 {
        push_items(l, 0, out);
        proof {
            assert(l.deep_view().skip(0) =~= l.deep_view());
        }
    } else {
        proof {
            assert(l.deep_view().len() == 0);
        }
    }
    push_char(out, ']');
    assert(out@ =~= old(out)@ + enc_list(l.deep_view()));
}

/// Parses a bracketed name list starting at position `i` of `v`.
pub fn parse_list_at(v: &Vec<char>, i: usize) -> (r: Option<(Vec<String>, usize)>)
    requires
        i <= v@.len(),
    ensures
        match r {
            Some(p) => i <= p.1 <= v@.len() && parse_list(v@.skip(i as int)) == Some(
                (p.0.deep_view(), v@.skip(p.1 as int)),
            ),
            None => parse_list(v@.skip(i as int)) is None,
        },
{
    if i >= v.len() || i + 1 >= v.len() {
        assert(v@.skip(i as int).len() < 2);
        return None;
    }
    proof {
        assert(v@.skip(i as int)[0] == v@[i as int]);
        assert(v@.skip(i as int)[1] == v@[i as int + 1]);
    }
    if v[i] != '[' {
        return None;
    }
    if v[i + 1] == ']' {
        let out: Vec<String> = Vec::new();
        proof {
            assert(v@.skip(i as int).skip(2) =~= v@.skip(i as int + 2));
            assert(out.deep_view() =~= Seq::<Seq<char>>::empty());
        }
        return Some((out, i + 2));
    }
    let mut out: Vec<String> = Vec::new();
    let mut j = i + 1;
    proof {
        assert(v@.skip(i as int).drop_first() =~= v@.skip(i as int + 1));
        if parse_list_items(v@.skip(j as int)) is Some {
            let q = parse_list_items(v@.skip(j as int))->Some_0;
            assert(out.deep_view() + q.0 =~= q.0);
        }
    }
    loop
        invariant
            i + 1 <= j <= v@.len(),
            parse_list(v@.skip(i as int)) == (match parse_list_items(v@.skip(j as int)) {
                Some(q) => Some((out.deep_view() + q.0, q.1)),
                None => None::<(Seq<Seq<char>>, Seq<char>)>,
            }),
        decreases v@.len() - j,
    {
        let parsed = parse_string_at(v, j);
        proof {
            lemma_parse_string_consumes(v@.skip(j as int));
        }
        let (t, j2) = match parsed {
            Some(p) => p,
            None => {
                return None;
            },
        };
        assert(v@.skip(j2 as int).len() < v@.skip(j as int).len());
        let ghost out0 = out.deep_view();
        out.push(t);
        proof {
            assert(out.deep_view() =~= out0.push(t@));
        }
        if j2 >= v.len() {
            assert(v@.skip(j2 as int).len() == 0);
            return None;
        }
        proof {
            assert(v@.skip(j2 as int)[0] == v@[j2 as int]);
            assert(v@.skip(j2 as int).drop_first() =~= v@.skip(j2 as int + 1));
        }
        let c = v[j2];
        if c == ',' {
            proof {
                if parse_list_items(v@.skip(j2 as int + 1)) is Some {
                    let q = parse_list_items(v@.skip(j2 as int + 1))->Some_0;
                    assert(out0 + (seq![t@] + q.0) =~= out.deep_view() + q.0);
                }
            }
            j = j2 + 1;
        } else if c == ']' {
            proof {
                assert(out0 + seq![t@] =~= out.deep_view());
            }
            return Some((out, j2 + 1));
        } else {
            return None;
        }
    }
}

/// Parses a decimal integer starting at position `i` of `v`.
pub fn parse_int_at(v: &Vec<char>, i: usize) -> (r: Option<(i32, usize)>)
    requires
        i <= v@.len(),
    ensures
        match r {
            Some(p) => i <= p.1 <= v@.len() && parse_int(v@.skip(i as int)) == Some(
                (p.0 as int, v@.skip(p.1 as int)),
            ),
            None => parse_int(v@.skip(i as int)) is None,
        },
{
    if i >= v.len() {
        return None;
    }
    proof {
        assert(v@.skip(i as int)[0] == v@[i as int]);
    }
    let neg = v[i] == '-';
    let j = if neg {
        i + 1
    } else {
        i
    };
    proof {
        assert(v@.skip(i as int).drop_first() =~= v@.skip(i as int + 1));
    }
    if j >= v.len() {
        return None;
    }
    proof {
        assert(v@.skip(j as int)[0] == v@[j as int]);
    }
    let c0 = v[j];
    if c0 < '0' || c0 > '9' {
        assert(!is_dec_digit(c0));
        return None;
    }
    assert(is_dec_digit(c0));
    let mut j2 = j;
    let mut acc: u64 = 0;
    let ghost mut g: nat = 0nat;
    loop
        invariant
            j <= j2 <= v@.len(),
            parse_digits(v@.skip(j as int), 0) == parse_digits(v@.skip(j2 as int), g),
            g <= u32::MAX ==> acc == g,
            g > u32::MAX ==> acc > u32::MAX as u64,
        ensures
            j <= j2 <= v@.len(),
            parse_digits(v@.skip(j as int), 0) == (g, v@.skip(j2 as int)),
            g <= u32::MAX ==> acc == g,
            g > u32::MAX ==> acc > u32::MAX as u64,
        decreases v@.len() - j2,
    {
        if j2 >= v.len() {
            assert(v@.skip(j2 as int).len() == 0);
            break;
        }
        proof {
            assert(v@.skip(j2 as int)[0] == v@[j2 as int]);
        }
        let c = v[j2];
        if c < '0' || c > '9' {
            assert(!is_dec_digit(c));
            break;
        }
        assert(is_dec_digit(c));
        proof {
            assert(v@.skip(j2 as int).drop_first() =~= v@.skip(j2 as int + 1));
        }
        if acc <= u32::MAX as u64 {
            acc = acc * 10 + digit_val_char(c) as u64;
        }
        proof {
            g = g * 10 + digit_val(c);
        }
        j2 += 1;
    }
    if neg {
        if acc > 2147483648u64 {
            return None;
        }
        let x = -(acc as i64);
        return Some((x as i32, j2));
    } else {
        if acc > 2147483647u64 {
            return None;
        }
        return Some((acc as i32, j2));
    }
}


/// One if the slot is still unfilled; object-field parsing recurses only
/// after filling a slot, so the sum of these bounds it.
pub open spec fn slot_weight<T>(o: Option<T>) -> int {
    if o is None {
        1
    } else {
        0
    }
}

/// Parses the fields of an AVR platform object, in any order, each at most
/// once. `f` and `m` hold the fields parsed so far.
pub open spec fn parse_avr_fields(s: Seq<char>, f: Option<int>, m: Option<Seq<char>>) -> Option<
    (AvrModel, Seq<char>),
>
    decreases slot_weight(f) + slot_weight(m), 0int,
{
    match parse_string(s) {
        None => None,
        Some(k) => {
            if k.1.len() == 0 || k.1[0] != ':' {
                None
            } else {
                let r2 = k.1.drop_first();
                if k.0 == "f_cpu"@ && f is None {
                    match parse_int(r2) {
                        Some(q) => parse_avr_fields_rest(q.1, Some(q.0), m),
                        None => None,
                    }
                } else if k.0 == "mcu"@ && m is None {
                    match parse_string(r2) {
                        Some(q) => parse_avr_fields_rest(q.1, f, Some(q.0)),
                        None => None,
                    }
                } else {
                    None
                }
            }
        },
    }
}

/// After a field of an AVR platform object: a comma continues with the next
/// field, a closing brace requires every field to have appeared.
pub open spec fn parse_avr_fields_rest(s: Seq<char>, f: Option<int>, m: Option<Seq<char>>) -> Option<
    (AvrModel, Seq<char>),
>
    decreases slot_weight(f) + slot_weight(m), 1int,
{
    if s.len() > 0 && s[0] == ',' {
        parse_avr_fields(s.drop_first(), f, m)
    } else if s.len() > 0 && s[0] == '}' {
        if f is Some && m is Some {
            Some((AvrModel { f_cpu: f->0 as i32, mcu: m->0 }, s.drop_first()))
        } else {
            None
        }
    } else {
        None
    }
}

/// Parses an AVR platform object from the front of `s`.
pub open spec fn parse_avr_obj(s: Seq<char>) -> Option<(AvrModel, Seq<char>)> {
    if s.len() > 0 && s[0] == '{' {
        parse_avr_fields(s.drop_first(), None, None)
    } else {
        None
    }
}

/// Parses a platform object: one variant tag naming the platform, with its
/// parameter object as the value.
pub open spec fn parse_platform(s: Seq<char>) -> Option<(PlatformModel, Seq<char>)> {
    if s.len() > 0 && s[0] == '{' {
        match parse_string(s.drop_first()) {
            None => None,
            Some(k) => {
                if k.0 == "AVR"@ && k.1.len() > 0 && k.1[0] == ':' {
                    match parse_avr_obj(k.1.drop_first()) {
                        Some(q) => {
                            if q.1.len() > 0 && q.1[0] == '}' {
                                Some((PlatformModel::AVR(q.0), q.1.drop_first()))
                            } else {
                                None
                            }
                        },
                        None => None,
                    }
                } else {
                    None
                }
            },
        }
    } else {
        None
    }
}

/// The encoding of an AVR platform object.
pub open spec fn enc_avr(m: AvrModel) -> Seq<char> {
    seq!['{'] + enc_str("f_cpu"@) + seq![':'] + int_chars(m.f_cpu as int) + seq![','] + enc_str(
        "mcu"@,
    ) + seq![':'] + enc_str(m.mcu) + seq!['}']
}

/// The encoding of a platform object.
pub open spec fn enc_platform(p: PlatformModel) -> Seq<char> {
    match p {
        PlatformModel::AVR(a) => seq!['{'] + enc_str("AVR"@) + seq![':'] + enc_avr(a) + seq!['}'],
    }
}

/// Reading an AVR platform object undoes `enc_avr`.
pub proof fn lemma_parse_avr_enc(m: AvrModel, rest: Seq<char>)
    ensures
        parse_avr_obj(enc_avr(m) + rest) == Some((m, rest)),
{
    let s = enc_avr(m) + rest;
    let vi = int_chars(m.f_cpu as int);
    let r2 = seq![':'] + vi + (seq![','] + enc_str("mcu"@) + seq![':'] + enc_str(m.mcu) + seq!['}']
        + rest);
    assert(s[0] == '{');
    assert(s.drop_first() =~= enc_str("f_cpu"@) + r2);
    lemma_parse_string_enc("f_cpu"@, r2);
    assert(r2[0] == ':');
    let r3 = seq![','] + enc_str("mcu"@) + seq![':'] + enc_str(m.mcu) + seq!['}'] + rest;
    assert(r2.drop_first() =~= vi + r3);
    assert(r3[0] == ',');
    assert(!is_dec_digit(','));
    lemma_parse_int_enc(m.f_cpu as int, r3);
    let r4 = seq![':'] + enc_str(m.mcu) + (seq!['}'] + rest);
    assert(r3.drop_first() =~= enc_str("mcu"@) + r4);
    lemma_parse_string_enc("mcu"@, r4);
    assert(r4[0] == ':');
    let r5 = seq!['}'] + rest;
    assert(r4.drop_first() =~= enc_str(m.mcu) + r5);
    lemma_parse_string_enc(m.mcu, r5);
    assert(r5[0] == '}');
    assert(r5.drop_first() =~= rest);
    assert((m.f_cpu as int) as i32 == m.f_cpu);
    let fi = Some(m.f_cpu as int);
    assert(parse_avr_fields_rest(r5, fi, Some(m.mcu)) == Some((m, rest)));
    assert(parse_avr_fields(r3.drop_first(), fi, None) == parse_avr_fields_rest(
        r5,
        fi,
        Some(m.mcu),
    ));
    assert(parse_avr_fields_rest(r3, fi, None) == parse_avr_fields(r3.drop_first(), fi, None));
    assert(parse_avr_fields(s.drop_first(), None, None) == parse_avr_fields_rest(r3, fi, None));
    assert(parse_avr_obj(s) == parse_avr_fields(s.drop_first(), None, None));
}

/// Reading a platform object undoes `enc_platform`.
pub proof fn lemma_parse_platform_enc(p: PlatformModel, rest: Seq<char>)
    ensures
        parse_platform(enc_platform(p) + rest) == Some((p, rest)),
{
    match p {
        PlatformModel::AVR(a) => {
            let s = enc_platform(p) + rest;
            assert(s[0] == '{');
            let r2 = seq![':'] + enc_avr(a) + (seq!['}'] + rest);
            assert(s.drop_first() =~= enc_str("AVR"@) + r2);
            lemma_parse_string_enc("AVR"@, r2);
            assert(r2[0] == ':');
            let r3 = seq!['}'] + rest;
            assert(r2.drop_first() =~= enc_avr(a) + r3);
            lemma_parse_avr_enc(a, r3);
            assert(r3[0] == '}');
            assert(r3.drop_first() =~= rest);
        },
    }
}

/// Appends the encoding of an AVR platform configuration to `out`.
pub fn push_avr(c: &AVRPlatformSpecificConfig, out: &mut String)
    ensures
        final(out)@ == old(out)@ + enc_avr(c@),
{
    out.append("{");
    push_quoted("f_cpu", out);
    out.append(":");
    push_int(c.f_cpu, out);
    out.append(",");
    push_quoted("mcu", out);
    out.append(":");
    push_quoted(c.mcu.as_str(), out);
    out.append("}");
    proof {
        reveal_strlit("{");
        reveal_strlit(":");
        reveal_strlit(",");
        reveal_strlit("}");
        assert("{"@ =~= seq!['{']);
        assert(":"@ =~= seq![':']);
        assert(","@ =~= seq![',']);
        assert("}"@ =~= seq!['}']);
        assert(out@ =~= old(out)@ + enc_avr(c@));
    }
}

/// Appends the encoding of the platform configuration to `out`.
pub fn push_platform(p: &PlatformSpecific, out: &mut String)
    ensures
        final(out)@ == old(out)@ + enc_platform(p@),
{
    match p {
        PlatformSpecific::AVR(c) => {
            out.append("{");
            push_quoted("AVR", out);
            out.append(":");
            push_avr(c, out);
            out.append("}");
            proof {
                reveal_strlit("{");
                reveal_strlit(":");
                reveal_strlit("}");
                assert("{"@ =~= seq!['{']);
                assert(":"@ =~= seq![':']);
                assert("}"@ =~= seq!['}']);
                assert(out@ =~= old(out)@ + enc_platform(p@));
            }
        },
    }
}

/// Parses an AVR platform object starting at position `i` of `v`.
pub fn parse_avr_at(v: &Vec<char>, i: usize) -> (r: Option<(AVRPlatformSpecificConfig, usize)>)
    requires
        i <= v@.len(),
    ensures
        match r {
            Some(p) => i <= p.1 <= v@.len() && parse_avr_obj(v@.skip(i as int)) == Some(
                (p.0@, v@.skip(p.1 as int)),
            ),
            None => parse_avr_obj(v@.skip(i as int)) is None,
        },
{
    if i >= v.len() {
        return None;
    }
    proof {
        assert(v@.skip(i as int)[0] == v@[i as int]);
    }
    if v[i] != '{' {
        return None;
    }
    let mut j = i + 1;
    let mut f: Option<i32> = None;
    let mut m: Option<String> = None;
    proof {
        assert(v@.skip(i as int).drop_first() =~= v@.skip(i as int + 1));
    }
    loop
        invariant
            i + 1 <= j <= v@.len(),
            parse_avr_obj(v@.skip(i as int)) == parse_avr_fields(
                v@.skip(j as int),
                (match f {
                    Some(x) => Some(x as int),
                    None => None,
                }),
                m.deep_view(),
            ),
        decreases v@.len() - j,
    {
        let ghost fg: Option<int> = match f {
            Some(x) => Some(x as int),
            None => None,
        };
        let ghost mg: Option<Seq<char>> = m.deep_view();
        let parsed = parse_string_at(v, j);
        proof {
            lemma_parse_string_consumes(v@.skip(j as int));
        }
        let (key, j2) = match parsed {
            Some(p) => p,
            None => {
                return None;
            },
        };
        if j2 >= v.len() {
            assert(v@.skip(j2 as int).len() == 0);
            return None;
        }
        proof {
            assert(v@.skip(j2 as int)[0] == v@[j2 as int]);
            assert(v@.skip(j2 as int).drop_first() =~= v@.skip(j2 as int + 1));
        }
        if v[j2] != ':' {
            return None;
        }
        let j3 = j2 + 1;
        if str_eq(key.as_str(), "f_cpu") && f.is_none() {
            let (x, j4) = match parse_int_at(v, j3) {
                Some(p) => p,
                None => {
                    return None;
                },
            };
            f = Some(x);
            if j4 >= v.len() {
                assert(v@.skip(j4 as int).len() == 0);
                return None;
            }
            proof {
                assert(v@.skip(j4 as int)[0] == v@[j4 as int]);
                assert(v@.skip(j4 as int).drop_first() =~= v@.skip(j4 as int + 1));
            }
            let c = v[j4];
            if c == ',' {
                j = j4 + 1;
            } else if c == '}' {
                match (f, m) {
                    (Some(fc), Some(mc)) => {
                        let out = AVRPlatformSpecificConfig { f_cpu: fc, mcu: mc };
                        return Some((out, j4 + 1));
                    },
                    _ => {
                        return None;
                    },
                }
            } else {
                return None;
            }
        } else if str_eq(key.as_str(), "mcu") && m.is_none() {
            let (t, j4) = match parse_string_at(v, j3) {
                Some(p) => p,
                None => {
                    return None;
                },
            };
            m = Some(t);
            if j4 >= v.len() {
                assert(v@.skip(j4 as int).len() == 0);
                return None;
            }
            proof {
                assert(v@.skip(j4 as int)[0] == v@[j4 as int]);
                assert(v@.skip(j4 as int).drop_first() =~= v@.skip(j4 as int + 1));
            }
            let c = v[j4];
            if c == ',' {
                j = j4 + 1;
            } else if c == '}' {
                match (f, m) {
                    (Some(fc), Some(mc)) => {
                        let out = AVRPlatformSpecificConfig { f_cpu: fc, mcu: mc };
                        return Some((out, j4 + 1));
                    },
                    _ => {
                        return None;
                    },
                }
            } else {
                return None;
            }
        } else {
            return None;
        }
    }
}

/// Parses a platform object starting at position `i` of `v`.
pub fn parse_platform_at(v: &Vec<char>, i: usize) -> (r: Option<(PlatformSpecific, usize)>)
    requires
        i <= v@.len(),
    ensures
        match r {
            Some(p) => i <= p.1 <= v@.len() && parse_platform(v@.skip(i as int)) == Some(
                (p.0@, v@.skip(p.1 as int)),
            ),
            None => parse_platform(v@.skip(i as int)) is None,
        },
{
    if i >= v.len() {
        return None;
    }
    proof {
        assert(v@.skip(i as int)[0] == v@[i as int]);
    }
    if v[i] != '{' {
        return None;
    }
    proof {
        assert(v@.skip(i as int).drop_first() =~= v@.skip(i as int + 1));
    }
    let (key, j2) = match parse_string_at(v, i + 1) {
        Some(p) => p,
        None => {
            return None;
        },
    };
    let tag_ok = str_eq(key.as_str(), "AVR");
    if !tag_ok {
        return None;
    }
    if j2 >= v.len() {
        assert(v@.skip(j2 as int).len() == 0);
        return None;
    }
    proof {
        assert(v@.skip(j2 as int)[0] == v@[j2 as int]);
        assert(v@.skip(j2 as int).drop_first() =~= v@.skip(j2 as int + 1));
    }
    if v[j2] != ':' {
        return None;
    }
    let (avr, j3) = match parse_avr_at(v, j2 + 1) {
        Some(p) => p,
        None => {
            return None;
        },
    };
    if j3 >= v.len() {
        assert(v@.skip(j3 as int).len() == 0);
        return None;
    }
    proof {
        assert(v@.skip(j3 as int)[0] == v@[j3 as int]);
        assert(v@.skip(j3 as int).drop_first() =~= v@.skip(j3 as int + 1));
    }
    if v[j3] != '}' {
        return None;
    }
    Some((PlatformSpecific::AVR(avr), j3 + 1))
}

/// The encoding of an OS manifest.
pub open spec fn enc_os(m: OSModel) -> Seq<char> {
    seq!['{'] + enc_str("drivers"@) + seq![':'] + enc_list(m.drivers) + seq![','] + enc_str(
        "apps"@,
    ) + seq![':'] + enc_list(m.apps) + seq![','] + enc_str("platform_spec"@) + seq![':']
        + enc_platform(m.platform_spec) + seq!['}']
}

/// Parses the fields of an OS manifest object, in any order, each at most
/// once.
pub open spec fn parse_os_fields(
    s: Seq<char>,
    d: Option<Seq<Seq<char>>>,
    a: Option<Seq<Seq<char>>>,
    p: Option<PlatformModel>,
) -> Option<(OSModel, Seq<char>)>
    decreases slot_weight(d) + slot_weight(a) + slot_weight(p), 0int,
{
    match parse_string(s) {
        None => None,
        Some(k) => {
            if k.1.len() == 0 || k.1[0] != ':' {
                None
            } else {
                let r2 = k.1.drop_first();
                if k.0 == "drivers"@ && d is None {
                    match parse_list(r2) {
                        Some(q) => parse_os_fields_rest(q.1, Some(q.0), a, p),
                        None => None,
                    }
                } else if k.0 == "apps"@ && a is None {
                    match parse_list(r2) {
                        Some(q) => parse_os_fields_rest(q.1, d, Some(q.0), p),
                        None => None,
                    }
                } else if k.0 == "platform_spec"@ && p is None {
                    match parse_platform(r2) {
                        Some(q) => parse_os_fields_rest(q.1, d, a, Some(q.0)),
                        None => None,
                    }
                } else {
                    None
                }
            }
        },
    }
}

/// After a field of an OS manifest object.
pub open spec fn parse_os_fields_rest(
    s: Seq<char>,
    d: Option<Seq<Seq<char>>>,
    a: Option<Seq<Seq<char>>>,
    p: Option<PlatformModel>,
) -> Option<(OSModel, Seq<char>)>
    decreases slot_weight(d) + slot_weight(a) + slot_weight(p), 1int,
{
    if s.len() > 0 && s[0] == ',' {
        parse_os_fields(s.drop_first(), d, a, p)
    } else if s.len() > 0 && s[0] == '}' {
        if d is Some && a is Some && p is Some {
            Some((OSModel { drivers: d->0, apps: a->0, platform_spec: p->0 }, s.drop_first()))
        } else {
            None
        }
    } else {
        None
    }
}

/// Parses an OS manifest object from the front of `s`.
pub open spec fn parse_os_obj(s: Seq<char>) -> Option<(OSModel, Seq<char>)> {
    if s.len() > 0 && s[0] == '{' {
        parse_os_fields(s.drop_first(), None, None, None)
    } else {
        None
    }
}

/// Parses a whole OS manifest document: the object with nothing after it.
pub open spec fn parse_os(s: Seq<char>) -> Option<OSModel> {
    match parse_os_obj(s) {
        Some(q) => {
            if q.1.len() == 0 {
                Some(q.0)
            } else {
                None
            }
        },
        None => None,
    }
}

/// Reading an OS manifest object undoes `enc_os`.
#[verifier::rlimit(60)]
pub proof fn lemma_parse_os_enc(m: OSModel, rest: Seq<char>)
    ensures
        parse_os_obj(enc_os(m) + rest) == Some((m, rest)),
{
    let s = enc_os(m) + rest;
    let t3 = seq!['}'] + rest;
    let v3 = enc_platform(m.platform_spec);
    let k3 = enc_str("platform_spec"@);
    let t2 = seq![','] + k3 + (seq![':'] + v3 + t3);
    let v2 = enc_list(m.apps);
    let k2 = enc_str("apps"@);
    let t1 = seq![','] + k2 + (seq![':'] + v2 + t2);
    let v1 = enc_list(m.drivers);
    let k1 = enc_str("drivers"@);
    assert(s[0] == '{');
    assert(s.drop_first() =~= k1 + (seq![':'] + v1 + t1));
    lemma_parse_string_enc("drivers"@, seq![':'] + v1 + t1);
    let r1 = seq![':'] + v1 + t1;
    assert(r1[0] == ':');
    assert(r1.drop_first() =~= v1 + t1);
    lemma_parse_list_enc(m.drivers, t1);
    assert(t1[0] == ',');
    assert(t1.drop_first() =~= k2 + (seq![':'] + v2 + t2));
    lemma_parse_string_enc("apps"@, seq![':'] + v2 + t2);
    let r2 = seq![':'] + v2 + t2;
    assert(r2[0] == ':');
    assert(r2.drop_first() =~= v2 + t2);
    lemma_parse_list_enc(m.apps, t2);
    assert(t2[0] == ',');
    assert(t2.drop_first() =~= k3 + (seq![':'] + v3 + t3));
    lemma_parse_string_enc("platform_spec"@, seq![':'] + v3 + t3);
    let r3 = seq![':'] + v3 + t3;
    assert(r3[0] == ':');
    assert(r3.drop_first() =~= v3 + t3);
    lemma_parse_platform_enc(m.platform_spec, t3);
    assert(t3[0] == '}');
    assert(t3.drop_first() =~= rest);
    let d = Some(m.drivers);
    let a = Some(m.apps);
    let pm = Some(m.platform_spec);
    assert(parse_os_fields_rest(t3, d, a, pm) == Some((m, rest)));
    assert(parse_os_fields(t2.drop_first(), d, a, None) == parse_os_fields_rest(t3, d, a, pm));
    assert(parse_os_fields_rest(t2, d, a, None) == parse_os_fields(t2.drop_first(), d, a, None));
    assert(parse_os_fields(t1.drop_first(), d, None, None) == parse_os_fields_rest(t2, d, a, None));
    assert(parse_os_fields_rest(t1, d, None, None) == parse_os_fields(
        t1.drop_first(),
        d,
        None,
        None,
    ));
    assert(parse_os_fields(s.drop_first(), None, None, None) == parse_os_fields_rest(
        t1,
        d,
        None,
        None,
    ));
    assert(parse_os_obj(s) == Some((m, rest)));
}

/// Saving an OS manifest and loading it back yields it unchanged.
pub proof fn lemma_os_round_trip(m: OSModel)
    ensures
        parse_os(enc_os(m)) == Some(m),
{
    lemma_parse_os_enc(m, Seq::<char>::empty());
    assert(enc_os(m) + Seq::<char>::empty() =~= enc_os(m));
}

/// Parses an OS manifest object starting at position `i` of `v`.
pub fn parse_os_at(v: &Vec<char>, i: usize) -> (r: Option<(OSConfig, usize)>)
    requires
        i <= v@.len(),
    ensures
        match r {
            Some(p) => i <= p.1 <= v@.len() && parse_os_obj(v@.skip(i as int)) == Some(
                (p.0@, v@.skip(p.1 as int)),
            ),
            None => parse_os_obj(v@.skip(i as int)) is None,
        },
{
    if i >= v.len() {
        return None;
    }
    proof {
        assert(v@.skip(i as int)[0] == v@[i as int]);
    }
    if v[i] != '{' {
        return None;
    }
    let mut j = i + 1;
    let mut d: Option<Vec<String>> = None;
    let mut a: Option<Vec<String>> = None;
    let mut p: Option<PlatformSpecific> = None;
    proof {
        assert(v@.skip(i as int).drop_first() =~= v@.skip(i as int + 1));
    }
    loop
        invariant
            i + 1 <= j <= v@.len(),
            parse_os_obj(v@.skip(i as int)) == parse_os_fields(
                v@.skip(j as int),
                d.deep_view(),
                a.deep_view(),
                (match p {
                    Some(x) => Some(x@),
                    None => None,
                }),
            ),
        decreases v@.len() - j,
    {
        let parsed = parse_string_at(v, j);
        proof {
            lemma_parse_string_consumes(v@.skip(j as int));
        }
        let (key, j2) = match parsed {
            Some(q) => q,
            None => {
                return None;
            },
        };
        if j2 >= v.len() {
            assert(v@.skip(j2 as int).len() == 0);
            return None;
        }
        proof {
            assert(v@.skip(j2 as int)[0] == v@[j2 as int]);
            assert(v@.skip(j2 as int).drop_first() =~= v@.skip(j2 as int + 1));
        }
        if v[j2] != ':' {
            return None;
        }
        let j3 = j2 + 1;
        let j4: usize;
        if str_eq(key.as_str(), "drivers") && d.is_none() {
            let (x, jx) = match parse_list_at(v, j3) {
                Some(q) => q,
                None => {
                    return None;
                },
            };
            d = Some(x);
            j4 = jx;
        } else if str_eq(key.as_str(), "apps") && a.is_none() {
            let (x, jx) = match parse_list_at(v, j3) {
                Some(q) => q,
                None => {
                    return None;
                },
            };
            a = Some(x);
            j4 = jx;
        } else if str_eq(key.as_str(), "platform_spec") && p.is_none() {
            let (x, jx) = match parse_platform_at(v, j3) {
                Some(q) => q,
                None => {
                    return None;
                },
            };
            p = Some(x);
            j4 = jx;
        } else {
            return None;
        }
        if j4 >= v.len() {
            assert(v@.skip(j4 as int).len() == 0);
            return None;
        }
        proof {
            assert(v@.skip(j4 as int)[0] == v@[j4 as int]);
            assert(v@.skip(j4 as int).drop_first() =~= v@.skip(j4 as int + 1));
        }
        let c = v[j4];
        if c == ',' {
            j = j4 + 1;
        } else if c == '}' {
            match (d, a, p) {
                (Some(dd), Some(aa), Some(pp)) => {
                    let out = OSConfig { drivers: dd, apps: aa, platform_spec: pp };
                    return Some((out, j4 + 1));
                },
                _ => {
                    return None;
                },
            }
        } else {
            return None;
        }
    }
}

impl OSConfig {
    /// The manifest store's text form of this OS manifest.
    pub fn to_text(&self) -> (r: String)
        ensures
            r@ == enc_os(self@),
    {
        let mut out = String::new();
        out.append("{");
        push_quoted("drivers", &mut out);
        out.append(":");
        push_list(&self.drivers, &mut out);
        out.append(",");
        push_quoted("apps", &mut out);
        out.append(":");
        push_list(&self.apps, &mut out);
        out.append(",");
        push_quoted("platform_spec", &mut out);
        out.append(":");
        push_platform(&self.platform_spec, &mut out);
        out.append("}");
        proof {
            reveal_strlit("{");
            reveal_strlit(":");
            reveal_strlit(",");
            reveal_strlit("}");
            assert("{"@ =~= seq!['{']);
            assert(":"@ =~= seq![':']);
            assert(","@ =~= seq![',']);
            assert("}"@ =~= seq!['}']);
            assert(out@ =~= enc_os(self@));
        }
        out
    }

    /// Reads an OS manifest from its text form; text that is not exactly one
    /// well-formed OS manifest object is rejected as malformed.
    pub fn from_text(s: &str) -> (r: Result<OSConfig, ConfigError>)
        ensures
            match r {
                Ok(c) => parse_os(s@) == Some(c@),
                Err(e) => e == ConfigError::Malformed && parse_os(s@) is None,
            },
    {
        let v = chars_of(s);
        proof {
            assert(v@.skip(0) =~= s@);
        }
        match parse_os_at(&v, 0) {
            Some((c, j)) => {
                if j == v.len() {
                    proof {
                        assert(v@.skip(j as int).len() == 0);
                    }
                    Ok(c)
                } else {
                    proof {
                        assert(v@.skip(j as int).len() > 0);
                    }
                    Err(ConfigError::Malformed)
                }
            },
            None => Err(ConfigError::Malformed),
        }
    }
}

/// The encoding of an app manifest.
pub open spec fn enc_app(m: AppModel) -> Seq<char> {
    seq!['{'] + enc_str("name"@) + seq![':'] + enc_str(m.name) + seq![','] + enc_str("provides"@)
        + seq![':'] + enc_str(m.provides) + seq![','] + enc_str("requires_apps"@) + seq![':']
        + enc_list(m.requires_apps) + seq![','] + enc_str("requires_drivers"@) + seq![':']
        + enc_list(m.requires_drivers) + seq!['}']
}

/// Parses the fields of an app manifest object, in any order, each at most
/// once.
pub open spec fn parse_app_fields(
    s: Seq<char>,
    n: Option<Seq<char>>,
    pv: Option<Seq<char>>,
    ra: Option<Seq<Seq<char>>>,
    rd: Option<Seq<Seq<char>>>,
) -> Option<(AppModel, Seq<char>)>
    decreases slot_weight(n) + slot_weight(pv) + slot_weight(ra) + slot_weight(rd), 0int,
{
    match parse_string(s) {
        None => None,
        Some(k) => {
            if k.1.len() == 0 || k.1[0] != ':' {
                None
            } else {
                let r2 = k.1.drop_first();
                if k.0 == "name"@ && n is None {
                    match parse_string(r2) {
                        Some(q) => parse_app_fields_rest(q.1, Some(q.0), pv, ra, rd),
                        None => None,
                    }
                } else if k.0 == "provides"@ && pv is None {
                    match parse_string(r2) {
                        Some(q) => parse_app_fields_rest(q.1, n, Some(q.0), ra, rd),
                        None => None,
                    }
                } else if k.0 == "requires_apps"@ && ra is None {
                    match parse_list(r2) {
                        Some(q) => parse_app_fields_rest(q.1, n, pv, Some(q.0), rd),
                        None => None,
                    }
                } else if k.0 == "requires_drivers"@ && rd is None {
                    match parse_list(r2) {
                        Some(q) => parse_app_fields_rest(q.1, n, pv, ra, Some(q.0)),
                        None => None,
                    }
                } else {
                    None
                }
            }
        },
    }
}

/// After a field of an app manifest object.
pub open spec fn parse_app_fields_rest(
    s: Seq<char>,
    n: Option<Seq<char>>,
    pv: Option<Seq<char>>,
    ra: Option<Seq<Seq<char>>>,
    rd: Option<Seq<Seq<char>>>,
) -> Option<(AppModel, Seq<char>)>
    decreases slot_weight(n) + slot_weight(pv) + slot_weight(ra) + slot_weight(rd), 1int,
{
    if s.len() > 0 && s[0] == ',' {
        parse_app_fields(s.drop_first(), n, pv, ra, rd)
    } else if s.len() > 0 && s[0] == '}' {
        if n is Some && pv is Some && ra is Some && rd is Some {
            Some(
                (
                    AppModel {
                        name: n->0,
                        provides: pv->0,
                        requires_apps: ra->0,
                        requires_drivers: rd->0,
                    },
                    s.drop_first(),
                ),
            )
        } else {
            None
        }
    } else {
        None
    }
}

/// Parses an app manifest object from the front of `s`.
pub open spec fn parse_app_obj(s: Seq<char>) -> Option<(AppModel, Seq<char>)> {
    if s.len() > 0 && s[0] == '{' {
        parse_app_fields(s.drop_first(), None, None, None, None)
    } else {
        None
    }
}

/// Parses a whole app manifest document.
pub open spec fn parse_app(s: Seq<char>) -> Option<AppModel> {
    match parse_app_obj(s) {
        Some(q) => {
            if q.1.len() == 0 {
                Some(q.0)
            } else {
                None
            }
        },
        None => None,
    }
}

/// Reading an app manifest object undoes `enc_app`.
#[verifier::rlimit(100)]
pub proof fn lemma_parse_app_enc(m: AppModel, rest: Seq<char>)
    ensures
        parse_app_obj(enc_app(m) + rest) == Some((m, rest)),
{
    let s = enc_app(m) + rest;
    let t4 = seq!['}'] + rest;
    let v4 = enc_list(m.requires_drivers);
    let k4 = enc_str("requires_drivers"@);
    let t3 = seq![','] + k4 + (seq![':'] + v4 + t4);
    let v3 = enc_list(m.requires_apps);
    let k3 = enc_str("requires_apps"@);
    let t2 = seq![','] + k3 + (seq![':'] + v3 + t3);
    let v2 = enc_str(m.provides);
    let k2 = enc_str("provides"@);
    let t1 = seq![','] + k2 + (seq![':'] + v2 + t2);
    let v1 = enc_str(m.name);
    let k1 = enc_str("name"@);
    assert(s[0] == '{');
    assert(s.drop_first() =~= k1 + (seq![':'] + v1 + t1));
    lemma_parse_string_enc("name"@, seq![':'] + v1 + t1);
    let r1 = seq![':'] + v1 + t1;
    assert(r1[0] == ':');
    assert(r1.drop_first() =~= v1 + t1);
    lemma_parse_string_enc(m.name, t1);
    assert(t1[0] == ',');
    assert(t1.drop_first() =~= k2 + (seq![':'] + v2 + t2));
    lemma_parse_string_enc("provides"@, seq![':'] + v2 + t2);
    let r2 = seq![':'] + v2 + t2;
    assert(r2[0] == ':');
    assert(r2.drop_first() =~= v2 + t2);
    lemma_parse_string_enc(m.provides, t2);
    assert(t2[0] == ',');
    assert(t2.drop_first() =~= k3 + (seq![':'] + v3 + t3));
    lemma_parse_string_enc("requires_apps"@, seq![':'] + v3 + t3);
    let r3 = seq![':'] + v3 + t3;
    assert(r3[0] == ':');
    assert(r3.drop_first() =~= v3 + t3);
    lemma_parse_list_enc(m.requires_apps, t3);
    assert(t3[0] == ',');
    assert(t3.drop_first() =~= k4 + (seq![':'] + v4 + t4));
    lemma_parse_string_enc("requires_drivers"@, seq![':'] + v4 + t4);
    let r4 = seq![':'] + v4 + t4;
    assert(r4[0] == ':');
    assert(r4.drop_first() =~= v4 + t4);
    lemma_parse_list_enc(m.requires_drivers, t4);
    assert(t4[0] == '}');
    assert(t4.drop_first() =~= rest);
    let n = Some(m.name);
    let pv = Some(m.provides);
    let ra = Some(m.requires_apps);
    let rd = Some(m.requires_drivers);
    assert(parse_app_fields_rest(t4, n, pv, ra, rd) == Some((m, rest)));
    assert(parse_app_fields(t3.drop_first(), n, pv, ra, None) == parse_app_fields_rest(
        t4,
        n,
        pv,
        ra,
        rd,
    ));
    assert(parse_app_fields_rest(t3, n, pv, ra, None) == parse_app_fields(
        t3.drop_first(),
        n,
        pv,
        ra,
        None,
    ));
    assert(parse_app_fields(t2.drop_first(), n, pv, None, None) == parse_app_fields_rest(
        t3,
        n,
        pv,
        ra,
        None,
    ));
    assert(parse_app_fields_rest(t2, n, pv, None, None) == parse_app_fields(
        t2.drop_first(),
        n,
        pv,
        None,
        None,
    ));
    assert(parse_app_fields(t1.drop_first(), n, None, None, None) == parse_app_fields_rest(
        t2,
        n,
        pv,
        None,
        None,
    ));
    assert(parse_app_fields_rest(t1, n, None, None, None) == parse_app_fields(
        t1.drop_first(),
        n,
        None,
        None,
        None,
    ));
    assert(parse_app_fields(s.drop_first(), None, None, None, None) == parse_app_fields_rest(
        t1,
        n,
        None,
        None,
        None,
    ));
    assert(parse_app_obj(s) == Some((m, rest)));
}

/// Saving an app manifest and loading it back yields it unchanged.
pub proof fn lemma_app_round_trip(m: AppModel)
    ensures
        parse_app(enc_app(m)) == Some(m),
{
    lemma_parse_app_enc(m, Seq::<char>::empty());
    assert(enc_app(m) + Seq::<char>::empty() =~= enc_app(m));
}

/// Parses an app manifest object starting at position `i` of `v`.
pub fn parse_app_at(v: &Vec<char>, i: usize) -> (r: Option<(AppConfig, usize)>)
    requires
        i <= v@.len(),
    ensures
        match r {
            Some(p) => i <= p.1 <= v@.len() && parse_app_obj(v@.skip(i as int)) == Some(
                (p.0@, v@.skip(p.1 as int)),
            ),
            None => parse_app_obj(v@.skip(i as int)) is None,
        },
{
    if i >= v.len() {
        return None;
    }
    proof {
        assert(v@.skip(i as int)[0] == v@[i as int]);
    }
    if v[i] != '{' {
        return None;
    }
    let mut j = i + 1;
    let mut n: Option<String> = None;
    let mut pv: Option<String> = None;
    let mut ra: Option<Vec<String>> = None;
    let mut rd: Option<Vec<String>> = None;
    proof {
        assert(v@.skip(i as int).drop_first() =~= v@.skip(i as int + 1));
    }
    loop
        invariant
            i + 1 <= j <= v@.len(),
            parse_app_obj(v@.skip(i as int)) == parse_app_fields(
                v@.skip(j as int),
                n.deep_view(),
                pv.deep_view(),
                ra.deep_view(),
                rd.deep_view(),
            ),
        decreases v@.len() - j,
    {
        let parsed = parse_string_at(v, j);
        proof {
            lemma_parse_string_consumes(v@.skip(j as int));
        }
        let (key, j2) = match parsed {
            Some(q) => q,
            None => {
                return None;
            },
        };
        if j2 >= v.len() {
            assert(v@.skip(j2 as int).len() == 0);
            return None;
        }
        proof {
            assert(v@.skip(j2 as int)[0] == v@[j2 as int]);
            assert(v@.skip(j2 as int).drop_first() =~= v@.skip(j2 as int + 1));
        }
        if v[j2] != ':' {
            return None;
        }
        let j3 = j2 + 1;
        let j4: usize;
        if str_eq(key.as_str(), "name") && n.is_none() {
            let (x, jx) = match parse_string_at(v, j3) {
                Some(q) => q,
                None => {
                    return None;
                },
            };
            n = Some(x);
            j4 = jx;
        } else if str_eq(key.as_str(), "provides") && pv.is_none() {
            let (x, jx) = match parse_string_at(v, j3) {
                Some(q) => q,
                None => {
                    return None;
                },
            };
            pv = Some(x);
            j4 = jx;
        } else if str_eq(key.as_str(), "requires_apps") && ra.is_none() {
            let (x, jx) = match parse_list_at(v, j3) {
                Some(q) => q,
                None => {
                    return None;
                },
            };
            ra = Some(x);
            j4 = jx;
        } else if str_eq(key.as_str(), "requires_drivers") && rd.is_none() {
            let (x, jx) = match parse_list_at(v, j3) {
                Some(q) => q,
                None => {
                    return None;
                },
            };
            rd = Some(x);
            j4 = jx;
        } else {
            return None;
        }
        if j4 >= v.len() {
            assert(v@.skip(j4 as int).len() == 0);
            return None;
        }
        proof {
            assert(v@.skip(j4 as int)[0] == v@[j4 as int]);
            assert(v@.skip(j4 as int).drop_first() =~= v@.skip(j4 as int + 1));
        }
        let c = v[j4];
        if c == ',' {
            j = j4 + 1;
        } else if c == '}' {
            match (n, pv, ra, rd) {
                (Some(a1), Some(a2), Some(a3), Some(a4)) => {
                    let out = AppConfig {
                        name: a1,
                        provides: a2,
                        requires_apps: a3,
                        requires_drivers: a4,
                    };
                    return Some((out, j4 + 1));
                },
                _ => {
                    return None;
                },
            }
        } else {
            return None;
        }
    }
}

impl AppConfig {
    /// The manifest store's text form of this app manifest.
    pub fn to_text(&self) -> (r: String)
        ensures
            r@ == enc_app(self@),
    {
        let mut out = String::new();
        out.append("{");
        push_quoted("name", &mut out);
        out.append(":");
        push_quoted(self.name.as_str(), &mut out);
        out.append(",");
        push_quoted("provides", &mut out);
        out.append(":");
        push_quoted(self.provides.as_str(), &mut out);
        out.append(",");
        push_quoted("requires_apps", &mut out);
        out.append(":");
        push_list(&self.requires_apps, &mut out);
        out.append(",");
        push_quoted("requires_drivers", &mut out);
        out.append(":");
        push_list(&self.requires_drivers, &mut out);
        out.append("}");
        proof {
            reveal_strlit("{");
            reveal_strlit(":");
            reveal_strlit(",");
            reveal_strlit("}");
            assert("{"@ =~= seq!['{']);
            assert(":"@ =~= seq![':']);
            assert(","@ =~= seq![',']);
            assert("}"@ =~= seq!['}']);
            assert(out@ =~= enc_app(self@));
        }
        out
    }

    /// Reads an app manifest from its text form.
    pub fn from_text(s: &str) -> (r: Result<AppConfig, ConfigError>)
        ensures
            match r {
                Ok(c) => parse_app(s@) == Some(c@),
                Err(e) => e == ConfigError::Malformed && parse_app(s@) is None,
            },
    {
        let v = chars_of(s);
        proof {
            assert(v@.skip(0) =~= s@);
        }
        match parse_app_at(&v, 0) {
            Some((c, j)) => {
                if j == v.len() {
                    proof {
                        assert(v@.skip(j as int).len() == 0);
                    }
                    Ok(c)
                } else {
                    proof {
                        assert(v@.skip(j as int).len() > 0);
                    }
                    Err(ConfigError::Malformed)
                }
            },
            None => Err(ConfigError::Malformed),
        }
    }
}

/// The encoding of a driver manifest.
pub open spec fn enc_driver(m: DriverModel) -> Seq<char> {
    seq!['{'] + enc_str("name"@) + seq![':'] + enc_str(m.name) + seq![','] + enc_str("provides"@)
        + seq![':'] + enc_str(m.provides) + seq![','] + enc_str("requires"@) + seq![':'] + enc_list(
        m.requires,
    ) + seq!['}']
}

/// Parses the fields of a driver manifest object, in any order, each at most
/// once.
pub open spec fn parse_driver_fields(
    s: Seq<char>,
    n: Option<Seq<char>>,
    pv: Option<Seq<char>>,
    rq: Option<Seq<Seq<char>>>,
) -> Option<(DriverModel, Seq<char>)>
    decreases slot_weight(n) + slot_weight(pv) + slot_weight(rq), 0int,
{
    match parse_string(s) {
        None => None,
        Some(k) => {
            if k.1.len() == 0 || k.1[0] != ':' {
                None
            } else {
                let r2 = k.1.drop_first();
                if k.0 == "name"@ && n is None {
                    match parse_string(r2) {
                        Some(q) => parse_driver_fields_rest(q.1, Some(q.0), pv, rq),
                        None => None,
                    }
                } else if k.0 == "provides"@ && pv is None {
                    match parse_string(r2) {
                        Some(q) => parse_driver_fields_rest(q.1, n, Some(q.0), rq),
                        None => None,
                    }
                } else if k.0 == "requires"@ && rq is None {
                    match parse_list(r2) {
                        Some(q) => parse_driver_fields_rest(q.1, n, pv, Some(q.0)),
                        None => None,
                    }
                } else {
                    None
                }
            }
        },
    }
}

/// After a field of a driver manifest object.
pub open spec fn parse_driver_fields_rest(
    s: Seq<char>,
    n: Option<Seq<char>>,
    pv: Option<Seq<char>>,
    rq: Option<Seq<Seq<char>>>,
) -> Option<(DriverModel, Seq<char>)>
    decreases slot_weight(n) + slot_weight(pv) + slot_weight(rq), 1int,
{
    if s.len() > 0 && s[0] == ',' {
        parse_driver_fields(s.drop_first(), n, pv, rq)
    } else if s.len() > 0 && s[0] == '}' {
        if n is Some && pv is Some && rq is Some {
            Some((DriverModel { name: n->0, provides: pv->0, requires: rq->0 }, s.drop_first()))
        } else {
            None
        }
    } else {
        None
    }
}

/// Parses a driver manifest object from the front of `s`.
pub open spec fn parse_driver_obj(s: Seq<char>) -> Option<(DriverModel, Seq<char>)> {
    if s.len() > 0 && s[0] == '{' {
        parse_driver_fields(s.drop_first(), None, None, None)
    } else {
        None
    }
}

/// Parses a whole driver manifest document.
pub open spec fn parse_driver(s: Seq<char>) -> Option<DriverModel> {
    match parse_driver_obj(s) {
        Some(q) => {
            if q.1.len() == 0 {
                Some(q.0)
            } else {
                None
            }
        },
        None => None,
    }
}

/// Reading a driver manifest object undoes `enc_driver`.
#[verifier::rlimit(60)]
pub proof fn lemma_parse_driver_enc(m: DriverModel, rest: Seq<char>)
    ensures
        parse_driver_obj(enc_driver(m) + rest) == Some((m, rest)),
{
    let s = enc_driver(m) + rest;
    let t3 = seq!['}'] + rest;
    let v3 = enc_list(m.requires);
    let k3 = enc_str("requires"@);
    let t2 = seq![','] + k3 + (seq![':'] + v3 + t3);
    let v2 = enc_str(m.provides);
    let k2 = enc_str("provides"@);
    let t1 = seq![','] + k2 + (seq![':'] + v2 + t2);
    let v1 = enc_str(m.name);
    let k1 = enc_str("name"@);
    assert(s[0] == '{');
    assert(s.drop_first() =~= k1 + (seq![':'] + v1 + t1));
    lemma_parse_string_enc("name"@, seq![':'] + v1 + t1);
    let r1 = seq![':'] + v1 + t1;
    assert(r1[0] == ':');
    assert(r1.drop_first() =~= v1 + t1);
    lemma_parse_string_enc(m.name, t1);
    assert(t1[0] == ',');
    assert(t1.drop_first() =~= k2 + (seq![':'] + v2 + t2));
    lemma_parse_string_enc("provides"@, seq![':'] + v2 + t2);
    let r2 = seq![':'] + v2 + t2;
    assert(r2[0] == ':');
    assert(r2.drop_first() =~= v2 + t2);
    lemma_parse_string_enc(m.provides, t2);
    assert(t2[0] == ',');
    assert(t2.drop_first() =~= k3 + (seq![':'] + v3 + t3));
    lemma_parse_string_enc("requires"@, seq![':'] + v3 + t3);
    let r3 = seq![':'] + v3 + t3;
    assert(r3[0] == ':');
    assert(r3.drop_first() =~= v3 + t3);
    lemma_parse_list_enc(m.requires, t3);
    assert(t3[0] == '}');
    assert(t3.drop_first() =~= rest);
    let n = Some(m.name);
    let pv = Some(m.provides);
    let rq = Some(m.requires);
    assert(parse_driver_fields_rest(t3, n, pv, rq) == Some((m, rest)));
    assert(parse_driver_fields(t2.drop_first(), n, pv, None) == parse_driver_fields_rest(
        t3,
        n,
        pv,
        rq,
    ));
    assert(parse_driver_fields_rest(t2, n, pv, None) == parse_driver_fields(
        t2.drop_first(),
        n,
        pv,
        None,
    ));
    assert(parse_driver_fields(t1.drop_first(), n, None, None) == parse_driver_fields_rest(
        t2,
        n,
        pv,
        None,
    ));
    assert(parse_driver_fields_rest(t1, n, None, None) == parse_driver_fields(
        t1.drop_first(),
        n,
        None,
        None,
    ));
    assert(parse_driver_fields(s.drop_first(), None, None, None) == parse_driver_fields_rest(
        t1,
        n,
        None,
        None,
    ));
    assert(parse_driver_obj(s) == Some((m, rest)));
}

/// Saving a driver manifest and loading it back yields it unchanged.
pub proof fn lemma_driver_round_trip(m: DriverModel)
    ensures
        parse_driver(enc_driver(m)) == Some(m),
{
    lemma_parse_driver_enc(m, Seq::<char>::empty());
    assert(enc_driver(m) + Seq::<char>::empty() =~= enc_driver(m));
}

/// Parses a driver manifest object starting at position `i` of `v`.
pub fn parse_driver_at(v: &Vec<char>, i: usize) -> (r: Option<(DriverConfig, usize)>)
    requires
        i <= v@.len(),
    ensures
        match r {
            Some(p) => i <= p.1 <= v@.len() && parse_driver_obj(v@.skip(i as int)) == Some(
                (p.0@, v@.skip(p.1 as int)),
            ),
            None => parse_driver_obj(v@.skip(i as int)) is None,
        },
{
    if i >= v.len() {
        return None;
    }
    proof {
        assert(v@.skip(i as int)[0] == v@[i as int]);
    }
    if v[i] != '{' {
        return None;
    }
    let mut j = i + 1;
    let mut n: Option<String> = None;
    let mut pv: Option<String> = None;
    let mut rq: Option<Vec<String>> = None;
    proof {
        assert(v@.skip(i as int).drop_first() =~= v@.skip(i as int + 1));
    }
    loop
        invariant
            i + 1 <= j <= v@.len(),
            parse_driver_obj(v@.skip(i as int)) == parse_driver_fields(
                v@.skip(j as int),
                n.deep_view(),
                pv.deep_view(),
                rq.deep_view(),
            ),
        decreases v@.len() - j,
    {
        let parsed = parse_string_at(v, j);
        proof {
            lemma_parse_string_consumes(v@.skip(j as int));
        }
        let (key, j2) = match parsed {
            Some(q) => q,
            None => {
                return None;
            },
        };
        if j2 >= v.len() {
            assert(v@.skip(j2 as int).len() == 0);
            return None;
        }
        proof {
            assert(v@.skip(j2 as int)[0] == v@[j2 as int]);
            assert(v@.skip(j2 as int).drop_first() =~= v@.skip(j2 as int + 1));
        }
        if v[j2] != ':' {
            return None;
        }
        let j3 = j2 + 1;
        let j4: usize;
        if str_eq(key.as_str(), "name") && n.is_none() {
            let (x, jx) = match parse_string_at(v, j3) {
                Some(q) => q,
                None => {
                    return None;
                },
            };
            n = Some(x);
            j4 = jx;
        } else if str_eq(key.as_str(), "provides") && pv.is_none() {
            let (x, jx) = match parse_string_at(v, j3) {
                Some(q) => q,
                None => {
                    return None;
                },
            };
            pv = Some(x);
            j4 = jx;
        } else if str_eq(key.as_str(), "requires") && rq.is_none() {
            let (x, jx) = match parse_list_at(v, j3) {
                Some(q) => q,
                None => {
                    return None;
                },
            };
            rq = Some(x);
            j4 = jx;
        } else {
            return None;
        }
        if j4 >= v.len() {
            assert(v@.skip(j4 as int).len() == 0);
            return None;
        }
        proof {
            assert(v@.skip(j4 as int)[0] == v@[j4 as int]);
            assert(v@.skip(j4 as int).drop_first() =~= v@.skip(j4 as int + 1));
        }
        let c = v[j4];
        if c == ',' {
            j = j4 + 1;
        } else if c == '}' {
            match (n, pv, rq) {
                (Some(a1), Some(a2), Some(a3)) => {
                    let out = DriverConfig { name: a1, provides: a2, requires: a3 };
                    return Some((out, j4 + 1));
                },
                _ => {
                    return None;
                },
            }
        } else {
            return None;
        }
    }
}

impl DriverConfig {
    /// The manifest store's text form of this driver manifest.
    pub fn to_text(&self) -> (r: String)
        ensures
            r@ == enc_driver(self@),
    {
        let mut out = String::new();
        out.append("{");
        push_quoted("name", &mut out);
        out.append(":");
        push_quoted(self.name.as_str(), &mut out);
        out.append(",");
        push_quoted("provides", &mut out);
        out.append(":");
        push_quoted(self.provides.as_str(), &mut out);
        out.append(",");
        push_quoted("requires", &mut out);
        out.append(":");
        push_list(&self.requires, &mut out);
        out.append("}");
        proof {
            reveal_strlit("{");
            reveal_strlit(":");
            reveal_strlit(",");
            reveal_strlit("}");
            assert("{"@ =~= seq!['{']);
            assert(":"@ =~= seq![':']);
            assert(","@ =~= seq![',']);
            assert("}"@ =~= seq!['}']);
            assert(out@ =~= enc_driver(self@));
        }
        out
    }

    /// Reads a driver manifest from its text form.
    pub fn from_text(s: &str) -> (r: Result<DriverConfig, ConfigError>)
        ensures
            match r {
                Ok(c) => parse_driver(s@) == Some(c@),
                Err(e) => e == ConfigError::Malformed && parse_driver(s@) is None,
            },
    {
        let v = chars_of(s);
        proof {
            assert(v@.skip(0) =~= s@);
        }
        match parse_driver_at(&v, 0) {
            Some((c, j)) => {
                if j == v.len() {
                    proof {
                        assert(v@.skip(j as int).len() == 0);
                    }
                    Ok(c)
                } else {
                    proof {
                        assert(v@.skip(j as int).len() > 0);
                    }
                    Err(ConfigError::Malformed)
                }
            },
            None => Err(ConfigError::Malformed),
        }
    }
}

} // verus!
