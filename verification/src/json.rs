//! JSON text primitives for the catalog file.
//!
//! The catalog is persisted as JSON. These are the pieces both directions
//! share: whitespace skipping, literal tokens, strings with their escapes
//! and unsigned numbers. Each parsing function consumes from the front of a
//! character sequence and hands the rest back; each encoding function is
//! proved to parse back to what it came from, whatever follows it.

use vstd::prelude::*;

use crate::decimal::{all_digits, dec_chars, dec_val, digit_char, digit_val, is_digit,
    lemma_dec_chars_val, lemma_dec_val_push};
use crate::text::is_ws;

verus! {

/// `s` without its leading whitespace.
pub open spec fn skip_ws(s: Seq<char>) -> Seq<char>
    decreases s.len(),
{
    if s.len() > 0 && is_ws(s[0]) {
        skip_ws(s.skip(1))
    } else {
        s
    }
}

/// Skipping whitespace drops an all-whitespace prefix.
pub proof fn lemma_skip_ws_concat(p: Seq<char>, t: Seq<char>)
    requires
        forall|i: int| 0 <= i < p.len() ==> is_ws(p[i]),
    ensures
        skip_ws(p + t) == skip_ws(t),
    decreases p.len(),
{
    if p.len() == 0 {
        assert(p + t =~= t);
    } else {
        assert((p + t)[0] == p[0]);
        assert((p + t).skip(1) =~= p.skip(1) + t);
        assert(forall|i: int| 0 <= i < p.skip(1).len() ==> is_ws(p.skip(1)[i]));
        lemma_skip_ws_concat(p.skip(1), t);
    }
}

/// Skipping whitespace leaves a sequence alone when none leads it.
pub proof fn lemma_skip_ws_noop(t: Seq<char>)
    requires
        t.len() == 0 || !is_ws(t[0]),
    ensures
        skip_ws(t) == t,
{
}

/// Skipping whitespace never grows the sequence.
pub proof fn lemma_skip_ws_len(s: Seq<char>)
    ensures
        skip_ws(s).len() <= s.len(),
    decreases s.len(),
{
    if s.len() > 0 && is_ws(s[0]) {
        lemma_skip_ws_len(s.skip(1));
    }
}

/// The rest after an expected token: leading whitespace is skipped, then
/// the token itself must follow.
pub open spec fn expect(s: Seq<char>, tok: Seq<char>) -> Option<Seq<char>> {
    let t = skip_ws(s);
    if tok.is_prefix_of(t) {
        Some(t.skip(tok.len() as int))
    } else {
        None
    }
}

/// A token preceded by whitespace is consumed exactly.
pub proof fn lemma_expect(p: Seq<char>, tok: Seq<char>, rest: Seq<char>)
    requires
        forall|i: int| 0 <= i < p.len() ==> is_ws(p[i]),
        tok.len() > 0,
        !is_ws(tok[0]),
    ensures
        expect(p + (tok + rest), tok) == Some(rest),
{
    lemma_skip_ws_concat(p, tok + rest);
    assert((tok + rest)[0] == tok[0]);
    lemma_skip_ws_noop(tok + rest);
    assert((tok + rest).subrange(0, tok.len() as int) =~= tok);
    assert(tok.is_prefix_of(tok + rest));
    assert((tok + rest).skip(tok.len() as int) =~= rest);
}

/// An expected token consumes at least its own length.
pub proof fn lemma_expect_len(s: Seq<char>, tok: Seq<char>)
    ensures
        expect(s, tok) matches Some(r) ==> r.len() + tok.len() <= s.len(),
{
    lemma_skip_ws_len(s);
}

/// The escape of one character inside a JSON string: quote and backslash
/// get a backslash, control characters a four-digit escape, anything else
/// stands for itself.
pub open spec fn esc(c: char) -> Seq<char> {
    if c == '"' {
        seq!['\\', '"']
    } else if c == '\\' {
        seq!['\\', '\\']
    } else if (c as u32) < 0x20 {
        seq!['\\', 'u', '0', '0', hex_char((c as u32 / 16) as nat), hex_char((c as u32 % 16) as nat)]
    } else {
        seq![c]
    }
}

/// The encoded body of a JSON string.
pub open spec fn enc_str_body(t: Seq<char>) -> Seq<char>
    decreases t.len(),
{
    if t.len() == 0 {
        Seq::<char>::empty()
    } else {
        esc(t[0]) + enc_str_body(t.skip(1))
    }
}

/// A whole encoded JSON string, quotes included.
pub open spec fn enc_string(t: Seq<char>) -> Seq<char> {
    seq!['"'] + enc_str_body(t) + seq!['"']
}

/// The character for one hexadecimal digit value, lower case.
pub open spec fn hex_char(n: nat) -> char {
    if n < 10 {
        digit_char(n)
    } else {
        ((0x57 + n) as u32) as char
    }
}

/// True for the characters that count as hexadecimal digits.
pub open spec fn is_hex(c: char) -> bool {
    is_digit(c) || (0x61 <= c as u32 <= 0x66) || (0x41 <= c as u32 <= 0x46)
}

/// The value of one hexadecimal digit character.
pub open spec fn hex_val(c: char) -> nat {
    if is_digit(c) {
        digit_val(c)
    } else if 0x61 <= c as u32 <= 0x66 {
        (c as u32 - 0x57) as nat
    } else {
        (c as u32 - 0x37) as nat
    }
}

/// A hexadecimal digit character round-trips through its value.
pub proof fn lemma_hex_char_val(n: nat)
    requires
        n < 16,
    ensures
        is_hex(hex_char(n)),
        hex_val(hex_char(n)) == n,
{
}

/// True when a `u32` is a Unicode scalar value, the values `char` can hold.
pub open spec fn is_scalar_u32(v: u32) -> bool {
    v < 0xD800 || (0xE000 <= v <= 0x10FFFF)
}

/// The decoded body of a JSON string, together with what follows the
/// closing quote. Escapes cover the two mandatory ones, the common
/// shorthands and four-digit scalar escapes; an unterminated or malformed
/// body decodes to nothing.
pub open spec fn parse_str_body(s: Seq<char>) -> Option<(Seq<char>, Seq<char>)>
    decreases s.len(),
{
    if s.len() == 0 {
        None
    } else if s[0] == '"' {
        Some((Seq::<char>::empty(), s.skip(1)))
    } else if s[0] == '\\' {
        if s.len() < 2 {
            None
        } else if s[1] == '"' || s[1] == '\\' || s[1] == '/' {
            prepend(s[1], parse_str_body(s.skip(2)))
        } else if s[1] == 'n' {
            prepend('\n', parse_str_body(s.skip(2)))
        } else if s[1] == 't' {
            prepend('\t', parse_str_body(s.skip(2)))
        } else if s[1] == 'r' {
            prepend('\r', parse_str_body(s.skip(2)))
        } else if s[1] == 'b' {
            prepend('\u{8}', parse_str_body(s.skip(2)))
        } else if s[1] == 'f' {
            prepend('\u{c}', parse_str_body(s.skip(2)))
        } else if s[1] == 'u' {
            if s.len() < 6 || !(is_hex(s[2]) && is_hex(s[3]) && is_hex(s[4]) && is_hex(s[5])) {
                None
            } else {
                let v = hex_val(s[2]) * 4096 + hex_val(s[3]) * 256 + hex_val(s[4]) * 16 + hex_val(
                    s[5],
                );
                if is_scalar_u32(v as u32) {
                    prepend((v as u32) as char, parse_str_body(s.skip(6)))
                } else {
                    None
                }
            }
        } else {
            None
        }
    } else {
        prepend(s[0], parse_str_body(s.skip(1)))
    }
}

/// A decoded character put back in front of a decoded tail.
pub open spec fn prepend(c: char, r: Option<(Seq<char>, Seq<char>)>) -> Option<
    (Seq<char>, Seq<char>),
> {
    match r {
        Some((content, rest)) => Some((seq![c] + content, rest)),
        None => None,
    }
}

/// A whole decoded JSON string: leading whitespace, an opening quote, then
/// the body.
pub open spec fn parse_string(s: Seq<char>) -> Option<(Seq<char>, Seq<char>)> {
    let t = skip_ws(s);
    if t.len() > 0 && t[0] == '"' {
        parse_str_body(t.skip(1))
    } else {
        None
    }
}

/// A decoded string body leaves strictly less than it was given.
pub proof fn lemma_parse_str_body_len(s: Seq<char>)
    ensures
        parse_str_body(s) matches Some(r) ==> r.1.len() < s.len(),
    decreases s.len(),
{
    if s.len() == 0 {
    } else if s[0] == '"' {
    } else if s[0] == '\\' {
        if s.len() >= 2 {
            lemma_parse_str_body_len(s.skip(2));
            if s.len() >= 6 {
                lemma_parse_str_body_len(s.skip(6));
            }
        }
    } else {
        lemma_parse_str_body_len(s.skip(1));
    }
}

/// A decoded string leaves strictly less than it was given.
pub proof fn lemma_parse_string_len(s: Seq<char>)
    ensures
        parse_string(s) matches Some(r) ==> r.1.len() < s.len(),
{
    lemma_skip_ws_len(s);
    let t = skip_ws(s);
    if t.len() > 0 && t[0] == '"' {
        lemma_parse_str_body_len(t.skip(1));
    }
}

/// Decoding inverts encoding for one string body: whatever follows the
/// closing quote comes back untouched.
pub proof fn lemma_parse_enc_body(t: Seq<char>, rest: Seq<char>)
    ensures
        parse_str_body(enc_str_body(t) + seq!['"'] + rest) == Some((t, rest)),
    decreases t.len(),
{
    if t.len() == 0 {
        let s = enc_str_body(t) + seq!['"'] + rest;
        assert(s =~= seq!['"'] + rest);
        assert(s[0] == '"');
        assert(s.skip(1) =~= rest);
        assert(t =~= Seq::<char>::empty());
    } else {
        let c = t[0];
        let tail = enc_str_body(t.skip(1)) + seq!['"'] + rest;
        let s = enc_str_body(t) + seq!['"'] + rest;
        assert(enc_str_body(t) == esc(c) + enc_str_body(t.skip(1)));
        assert(s =~= esc(c) + tail);
        lemma_parse_enc_body(t.skip(1), rest);
        if c == '"' {
            assert(s[0] == '\\' && s[1] == '"');
            assert(s.skip(2) =~= tail);
            assert(seq![c] + t.skip(1) =~= t);
        } else if c == '\\' {
            assert(s[0] == '\\' && s[1] == '\\');
            assert(s.skip(2) =~= tail);
            assert(seq![c] + t.skip(1) =~= t);
        } else if (c as u32) < 0x20 {
            let u = c as u32;
            assert(s[0] == '\\' && s[1] == 'u' && s[2] == '0' && s[3] == '0');
            assert(s[4] == hex_char((u / 16) as nat));
            assert(s[5] == hex_char((u % 16) as nat));
            assert(s.len() >= 6);
            lemma_hex_char_val((u / 16) as nat);
            lemma_hex_char_val((u % 16) as nat);
            assert(is_digit('0') && digit_val('0') == 0);
            let v = hex_val(s[2]) * 4096 + hex_val(s[3]) * 256 + hex_val(s[4]) * 16 + hex_val(
                s[5],
            );
            assert(v == (u / 16) * 16 + u % 16);
            assert(u == (u / 16) * 16 + u % 16) by (nonlinear_arith);
            assert(v == u);
            assert(is_scalar_u32(v as u32));
            vstd::utf8::char_u32_cast(c, u);
            assert((v as u32) as char == c);
            assert(s.skip(6) =~= tail);
            assert(seq![c] + t.skip(1) =~= t);
        } else {
            assert(s[0] == c);
            assert(c != '"' && c != '\\');
            assert(s.skip(1) =~= tail);
            assert(seq![c] + t.skip(1) =~= t);
        }
    }
}

/// Decoding inverts encoding for a whole string, under any leading
/// whitespace.
pub proof fn lemma_parse_enc_string(t: Seq<char>, p: Seq<char>, rest: Seq<char>)
    requires
        forall|i: int| 0 <= i < p.len() ==> is_ws(p[i]),
    ensures
        parse_string(p + enc_string(t) + rest) == Some((t, rest)),
{
    let body = enc_string(t) + rest;
    assert(p + enc_string(t) + rest =~= p + body);
    lemma_skip_ws_concat(p, body);
    assert(body[0] == '"');
    lemma_skip_ws_noop(body);
    assert(body.skip(1) =~= enc_str_body(t) + seq!['"'] + rest);
    lemma_parse_enc_body(t, rest);
}

/// The position of the first non-digit, or the length when all are digits.
pub open spec fn first_nondigit(s: Seq<char>) -> int
    decreases s.len(),
{
    if s.len() == 0 {
        0
    } else if !is_digit(s[0]) {
        0
    } else {
        1 + first_nondigit(s.skip(1))
    }
}

/// Position and meaning of the first non-digit.
pub proof fn lemma_first_nondigit(s: Seq<char>)
    ensures
        0 <= first_nondigit(s) <= s.len(),
        forall|i: int| 0 <= i < first_nondigit(s) ==> is_digit(s[i]),
        first_nondigit(s) < s.len() ==> !is_digit(s[first_nondigit(s)]),
    decreases s.len(),
{
    if s.len() > 0 && is_digit(s[0]) {
        lemma_first_nondigit(s.skip(1));
        assert forall|i: int| 0 <= i < first_nondigit(s) implies is_digit(s[i]) by {
            if i > 0 {
                assert(is_digit(s.skip(1)[i - 1]));
            }
        }
    }
}

/// The first non-digit is where one stands with only digits before it.
pub proof fn lemma_first_nondigit_is(s: Seq<char>, j: int)
    requires
        0 <= j <= s.len(),
        forall|i: int| 0 <= i < j ==> is_digit(s[i]),
        j == s.len() || !is_digit(s[j]),
    ensures
        first_nondigit(s) == j,
    decreases j,
{
    if j > 0 {
        assert(is_digit(s[0]));
        assert forall|i: int| 0 <= i < j - 1 implies is_digit(s.skip(1)[i]) by {
            assert(is_digit(s[i + 1]));
        }
        if j < s.len() {
            assert(!is_digit(s.skip(1)[j - 1]));
        }
        lemma_first_nondigit_is(s.skip(1), j - 1);
    }
}

/// A decoded unsigned number and what follows it: leading whitespace, then
/// a nonempty run of digits whose value fits the port type.
pub open spec fn parse_u32(s: Seq<char>) -> Option<(u32, Seq<char>)> {
    let t = skip_ws(s);
    let d = first_nondigit(t);
    if d == 0 {
        None
    } else {
        let v = dec_val(t.take(d));
        if v > u32::MAX {
            None
        } else {
            Some((v as u32, t.skip(d)))
        }
    }
}

/// A decoded number leaves strictly less than it was given.
pub proof fn lemma_parse_u32_len(s: Seq<char>)
    ensures
        parse_u32(s) matches Some(r) ==> r.1.len() < s.len(),
{
    lemma_skip_ws_len(s);
    lemma_first_nondigit(skip_ws(s));
}

/// Decoding inverts encoding for a number, under any leading whitespace,
/// provided no digit follows it directly.
pub proof fn lemma_parse_enc_u32(n: u32, p: Seq<char>, rest: Seq<char>)
    requires
        forall|i: int| 0 <= i < p.len() ==> is_ws(p[i]),
        rest.len() > 0,
        !is_digit(rest[0]),
        !is_ws(dec_chars(n as nat)[0]),
    ensures
        parse_u32(p + dec_chars(n as nat) + rest) == Some((n, rest)),
{
    let d = dec_chars(n as nat);
    lemma_dec_chars_val(n as nat);
    let body = d + rest;
    assert(p + d + rest =~= p + body);
    lemma_skip_ws_concat(p, body);
    assert(body[0] == d[0]);
    assert(is_digit(body[0]));
    lemma_skip_ws_noop(body);
    assert forall|i: int| 0 <= i < d.len() implies is_digit(body[i]) by {
        assert(body[i] == d[i]);
    }
    assert(body[d.len() as int] == rest[0]);
    lemma_first_nondigit_is(body, d.len() as int);
    assert(body.take(d.len() as int) =~= d);
    assert(body.skip(d.len() as int) =~= rest);
}

/// Encoding one more character appends its escape.
pub proof fn lemma_enc_str_body_push(t: Seq<char>, c: char)
    ensures
        enc_str_body(t.push(c)) == enc_str_body(t) + esc(c),
    decreases t.len(),
{
    if t.len() == 0 {
        assert(t.push(c)[0] == c);
        assert(t.push(c).skip(1) =~= Seq::<char>::empty());
        assert(enc_str_body(Seq::<char>::empty()) == Seq::<char>::empty());
        assert(enc_str_body(t.push(c)) =~= enc_str_body(t) + esc(c));
    } else {
        assert(t.push(c)[0] == t[0]);
        assert(t.push(c).skip(1) =~= t.skip(1).push(c));
        lemma_enc_str_body_push(t.skip(1), c);
        assert(enc_str_body(t.push(c)) =~= enc_str_body(t) + esc(c));
    }
}

/// The character for one hexadecimal digit value, lower case.
pub fn hex_str(d: u32) -> (r: &'static str)
    requires
        d < 16,
    ensures
        r@ =~= seq![hex_char(d as nat)],
{
    if d < 10 {
        crate::decimal::digit_str(d)
    } else {
        proof {
            reveal_strlit("a");
            reveal_strlit("b");
            reveal_strlit("c");
            reveal_strlit("d");
            reveal_strlit("e");
            reveal_strlit("f");
        }
        match d {
            10 => "a",
            11 => "b",
            12 => "c",
            13 => "d",
            14 => "e",
            _ => "f",
        }
    }
}

/// Relies on std's char::from_u32: a character comes back exactly for
/// Unicode scalar values, and holds the value it was made from.
#[verifier::external_body]
pub(crate) fn char_from_u32(v: u32) -> (r: Option<char>)
    ensures
        match r {
            Some(c) => is_scalar_u32(v) && c == v as char,
            None => !is_scalar_u32(v),
        },
{
    char::from_u32(v)
}

/// Append the encoded form of `s`, quotes included, to `out`.
pub fn append_json_string(out: &mut String, s: &str)
    ensures
        final(out)@ == old(out)@ + enc_string(s@),
{
    proof {
        reveal_strlit("\"");
    }
    out.append("\"");
    let n = s.unicode_len();
    let mut i: usize = 0;
    proof {
        assert(s@.take(0) =~= Seq::<char>::empty());
        assert(enc_str_body(Seq::<char>::empty()) == Seq::<char>::empty());
        assert(out@ =~= old(out)@ + seq!['"'] + enc_str_body(s@.take(0)));
    }
    while i < n
        invariant
            0 <= i <= n,
            n == s@.len(),
            out@ == old(out)@ + seq!['"'] + enc_str_body(s@.take(i as int)),
        decreases n - i,
    {
        let c = s.get_char(i);
        let u = c as u32;
        proof {
            assert(s@.take(i + 1) =~= s@.take(i as int).push(c));
            lemma_enc_str_body_push(s@.take(i as int), c);
        }
        if c == '"' {
            proof {
                reveal_strlit("\\\"");
            }
            out.append("\\\"");
            proof {
                assert("\\\""@ =~= esc(c));
            }
        } else if c == '\\' {
            proof {
                reveal_strlit("\\\\");
            }
            out.append("\\\\");
            proof {
                assert("\\\\"@ =~= esc(c));
            }
        } else if u < 0x20 {
            proof {
                reveal_strlit("\\u00");
            }
            out.append("\\u00");
            out.append(hex_str(u / 16));
            out.append(hex_str(u % 16));
            proof {
                assert("\\u00"@ + seq![hex_char((u / 16) as nat)] + seq![
                    hex_char((u % 16) as nat),
                ] =~= esc(c));
            }
        } else {
            out.append(s.substring_char(i, i + 1));
            proof {
                assert(s@.subrange(i as int, i + 1) =~= seq![c]);
                assert(seq![c] =~= esc(c));
            }
        }
        proof {
            assert(out@ =~= old(out)@ + seq!['"'] + enc_str_body(s@.take(i + 1)));
        }
        i += 1;
    }
    out.append("\"");
    proof {
        assert(s@.take(n as int) =~= s@);
        assert(out@ =~= old(out)@ + enc_string(s@));
    }
}

/// The position after the leading whitespace at `i`.
pub fn scan_ws(s: &str, i: usize) -> (j: usize)
    requires
        i <= s@.len(),
    ensures
        i <= j <= s@.len(),
        skip_ws(s@.skip(i as int)) == s@.skip(j as int),
{
    let n = s.unicode_len();
    let mut j = i;
    while j < n && crate::text::ws_char(s.get_char(j))
        invariant
            i <= j <= n,
            n == s@.len(),
            skip_ws(s@.skip(i as int)) == skip_ws(s@.skip(j as int)),
        decreases n - j,
    {
        proof {
            assert(s@.skip(j as int)[0] == s@[j as int]);
            assert(s@.skip(j as int).skip(1) =~= s@.skip(j + 1));
        }
        j += 1;
    }
    proof {
        if j < n {
            assert(s@.skip(j as int)[0] == s@[j as int]);
            assert(!is_ws(s@.skip(j as int)[0]));
        } else {
            assert(s@.skip(j as int).len() == 0);
        }
        lemma_skip_ws_noop(s@.skip(j as int));
    }
    j
}

/// The position after an expected token at `i`, skipping leading
/// whitespace, or nothing when the token does not follow.
pub fn expect_at(s: &str, i: usize, tok: &str) -> (r: Option<usize>)
    requires
        i <= s@.len(),
    ensures
        match r {
            Some(j) => i <= j <= s@.len() && expect(s@.skip(i as int), tok@) == Some(
                s@.skip(j as int),
            ),
            None => expect(s@.skip(i as int), tok@) is None,
        },
{
    let j = scan_ws(s, i);
    let n = s.unicode_len();
    let m = tok.unicode_len();
    let ghost t = skip_ws(s@.skip(i as int));
    proof {
        assert(t =~= s@.skip(j as int));
        assert(t.len() == n - j);
    }
    if m > n - j {
        proof {
            if tok@.is_prefix_of(t) {
                assert(tok@.len() <= t.len());
            }
        }
        return None;
    }
    let mut k: usize = 0;
    while k < m && s.get_char(j + k) == tok.get_char(k)
        invariant
            0 <= k <= m,
            j + m <= n,
            j <= n,
            n == s@.len(),
            m == tok@.len(),
            forall|q: int| 0 <= q < k ==> s@[j + q] == tok@[q],
        decreases m - k,
    {
        k += 1;
    }
    if k == m {
        proof {
            assert(t.subrange(0, m as int) =~= tok@);
            assert(tok@.is_prefix_of(t));
            assert(t.skip(m as int) =~= s@.skip(j + m));
        }
        Some(j + m)
    } else {
        proof {
            assert(s@[j + k] != tok@[k as int]);
            if tok@.is_prefix_of(t) {
                assert(tok@ =~= t.subrange(0, m as int));
                assert(tok@[k as int] == t.subrange(0, m as int)[k as int]);
                assert(t[k as int] == s@[j + k]);
            }
        }
        None
    }
}

/// The number at `i` and the position after it, skipping leading
/// whitespace, or nothing when no digit follows or the value overflows the
/// port type.
pub fn parse_u32_at(s: &str, i: usize) -> (r: Option<(u32, usize)>)
    requires
        i <= s@.len(),
    ensures
        match r {
            Some(v) => v.1 <= s@.len() && parse_u32(s@.skip(i as int)) == Some(
                (v.0, s@.skip(v.1 as int)),
            ),
            None => parse_u32(s@.skip(i as int)) is None,
        },
{
    let j = scan_ws(s, i);
    let n = s.unicode_len();
    let ghost t = skip_ws(s@.skip(i as int));
    proof {
        assert(t =~= s@.skip(j as int));
    }
    let mut k = j;
    let mut acc: u32 = 0;
    let mut overflow = false;
    while k < n && crate::decimal::digit_char_test(s.get_char(k))
        invariant
            j <= k <= n,
            n == s@.len(),
            t == s@.skip(j as int),
            forall|q: int| 0 <= q < k - j ==> is_digit(t[q]),
            !overflow ==> acc as nat == dec_val(t.take(k - j)),
            overflow ==> dec_val(t.take(k - j)) > u32::MAX,
        decreases n - k,
    {
        let u = s.get_char(k) as u32;
        let d = u - 0x30;
        proof {
            assert(t[k - j] == s@[k as int]);
            assert(is_digit(t[k - j]));
            assert(t.take(k - j + 1).drop_last() =~= t.take(k - j));
            assert(t.take(k - j + 1).last() == t[k - j]);
            lemma_dec_val_push(t.take(k - j), t[k - j]);
        }
        if !overflow {
            let next = match acc.checked_mul(10) {
                Some(x) => x.checked_add(d),
                None => None,
            };
            match next {
                Some(v) => {
                    acc = v;
                },
                None => {
                    overflow = true;
                },
            }
        } else {
            proof {
                crate::decimal::lemma_dec_val_prefix(t.take(k - j + 1), k - j);
                assert(t.take(k - j + 1).take(k - j) =~= t.take(k - j));
            }
        }
        k += 1;
    }
    proof {
        if k < n {
            assert(t[k - j] == s@[k as int]);
            assert(!is_digit(t[k - j]));
        }
        lemma_first_nondigit_is(t, k - j);
    }
    if k == j {
        return None;
    }
    if overflow {
        return None;
    }
    proof {
        assert(t.skip(k - j) =~= s@.skip(k as int));
    }
    Some((acc, k))
}

/// The string at `i` and the position after its closing quote, skipping
/// leading whitespace, or nothing when no well-formed string follows.
pub fn parse_string_at(s: &str, i: usize) -> (r: Option<(String, usize)>)
    requires
        i <= s@.len(),
    ensures
        match r {
            Some(v) => v.1 <= s@.len() && parse_string(s@.skip(i as int)) == Some(
                (v.0@, s@.skip(v.1 as int)),
            ),
            None => parse_string(s@.skip(i as int)) is None,
        },
{
    let j = scan_ws(s, i);
    let n = s.unicode_len();
    let ghost t = skip_ws(s@.skip(i as int));
    proof {
        assert(t =~= s@.skip(j as int));
    }
    if j == n || s.get_char(j) != '"' {
        proof {
            if t.len() > 0 {
                assert(t[0] == s@[j as int]);
            }
        }
        return None;
    }
    proof {
        assert(t[0] == s@[j as int]);
        assert(t.skip(1) =~= s@.skip(j + 1));
    }
    let mut out = String::new();
    let mut k = j + 1;
    while k < n
        invariant
            j + 1 <= k <= n,
            n == s@.len(),
            parse_string(s@.skip(i as int)) == parse_str_body(s@.skip(j + 1)),
            parse_str_body(s@.skip(j + 1)) == (match parse_str_body(s@.skip(k as int)) {
                Some((c2, rest)) => Some((out@ + c2, rest)),
                None => None,
            }),
        decreases n - k,
    {
        let ghost cur = s@.skip(k as int);
        let c = s.get_char(k);
        proof {
            assert(cur[0] == s@[k as int]);
        }
        if c == '"' {
            proof {
                assert(cur.skip(1) =~= s@.skip(k + 1));
                assert(parse_str_body(cur) == Some((Seq::<char>::empty(), s@.skip(k + 1))));
                assert(out@ + Seq::<char>::empty() =~= out@);
            }
            return Some((out, k + 1));
        } else if c == '\\' {
            if n - k < 2 {
                proof {
                    assert(cur.len() < 2);
                    assert(parse_str_body(cur) is None);
                }
                return None;
            }
            let e = s.get_char(k + 1);
            proof {
                assert(cur[1] == s@[k + 1]);
                assert(cur.skip(2) =~= s@.skip(k + 2));
            }
            if e == '"' || e == '\\' || e == '/' {
                proof {
                    lemma_prepend_shift(out@, e, parse_str_body(s@.skip(k + 2)));
                }
                crate::text::push_char(&mut out, e);
                k += 2;
            } else if e == 'n' {
                proof {
                    lemma_prepend_shift(out@, '\n', parse_str_body(s@.skip(k + 2)));
                }
                crate::text::push_char(&mut out, '\n');
                k += 2;
            } else if e == 't' {
                proof {
                    lemma_prepend_shift(out@, '\t', parse_str_body(s@.skip(k + 2)));
                }
                crate::text::push_char(&mut out, '\t');
                k += 2;
            } else if e == 'r' {
                proof {
                    lemma_prepend_shift(out@, '\r', parse_str_body(s@.skip(k + 2)));
                }
                crate::text::push_char(&mut out, '\r');
                k += 2;
            } else if e == 'b' {
                proof {
                    lemma_prepend_shift(out@, '\u{8}', parse_str_body(s@.skip(k + 2)));
                }
                crate::text::push_char(&mut out, '\u{8}');
                k += 2;
            } else if e == 'f' {
                proof {
                    lemma_prepend_shift(out@, '\u{c}', parse_str_body(s@.skip(k + 2)));
                }
                crate::text::push_char(&mut out, '\u{c}');
                k += 2;
            } else if e == 'u' {
                if n - k < 6 {
                    proof {
                        assert(cur.len() < 6);
                        assert(parse_str_body(cur) is None);
                    }
                    return None;
                }
                let h2 = hex_digit_val(s.get_char(k + 2));
                let h3 = hex_digit_val(s.get_char(k + 3));
                let h4 = hex_digit_val(s.get_char(k + 4));
                let h5 = hex_digit_val(s.get_char(k + 5));
                proof {
                    assert(cur[2] == s@[k + 2]);
                    assert(cur[3] == s@[k + 3]);
                    assert(cur[4] == s@[k + 4]);
                    assert(cur[5] == s@[k + 5]);
                    assert(cur.skip(6) =~= s@.skip(k + 6));
                }
                let (v, ok) = match (h2, h3, h4, h5) {
                    (Some(a), Some(b), Some(cc), Some(d)) => (
                        a * 4096 + b * 256 + cc * 16 + d,
                        true,
                    ),
                    _ => (0, false),
                };
                if !ok {
                    proof {
                        assert(parse_str_body(cur) is None);
                    }
                    return None;
                }
                match char_from_u32(v) {
                    Some(ch) => {
                        proof {
                            lemma_prepend_shift(out@, ch, parse_str_body(s@.skip(k + 6)));
                        }
                        crate::text::push_char(&mut out, ch);
                        k += 6;
                    },
                    None => {
                        proof {
                            assert(parse_str_body(cur) is None);
                        }
                        return None;
                    },
                }
            } else {
                proof {
                    assert(parse_str_body(cur) is None);
                }
                return None;
            }
        } else {
            proof {
                assert(cur.skip(1) =~= s@.skip(k + 1));
                lemma_prepend_shift(out@, c, parse_str_body(s@.skip(k + 1)));
            }
            crate::text::push_char(&mut out, c);
            k += 1;
        }
    }
    proof {
        assert(s@.skip(n as int).len() == 0);
        assert(parse_str_body(s@.skip(n as int)) is None);
    }
    None
}

/// Rebracketing a decoded character from the tail onto the collected
/// front.
proof fn lemma_prepend_shift(prevout: Seq<char>, c: char, r: Option<(Seq<char>, Seq<char>)>)
    ensures
        (match prepend(c, r) {
            Some((c2, rest)) => Some((prevout + c2, rest)),
            None => None::<(Seq<char>, Seq<char>)>,
        }) == (match r {
            Some((c2, rest)) => Some((prevout.push(c) + c2, rest)),
            None => None::<(Seq<char>, Seq<char>)>,
        }),
{
    match r {
        Some((c2, rest)) => {
            assert(prevout + (seq![c] + c2) =~= prevout.push(c) + c2);
        },
        None => {},
    }
}

/// The value of one hexadecimal digit character, if it is one.
pub fn hex_digit_val(c: char) -> (r: Option<u32>)
    ensures
        match r {
            Some(v) => is_hex(c) && v == hex_val(c) && v < 16,
            None => !is_hex(c),
        },
{
    let u = c as u32;
    if 0x30 <= u && u <= 0x39 {
        Some(u - 0x30)
    } else if 0x61 <= u && u <= 0x66 {
        Some(u - 0x57)
    } else if 0x41 <= u && u <= 0x46 {
        Some(u - 0x37)
    } else {
        None
    }
}

} // verus!

