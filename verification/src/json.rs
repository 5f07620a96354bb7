//! Token-level codec for the configuration document: whitespace, quoted
//! strings with escapes, bounded decimal numbers and the literal words.
//!
//! Each construct has a spec-level serializer `ser_*`, a spec-level parser
//! `parse_*` over `(Seq<char>, position)`, executable mirrors proved against
//! them, and a round-trip lemma stating that the parser inverts the
//! serializer.

use vstd::prelude::*;

use crate::text::is_digit;
use crate::text::is_ws;

verus! {

// ---------------------------------------------------------------------------
// whitespace
// ---------------------------------------------------------------------------
/// First position at or after `i` that does not hold whitespace.
pub open spec fn skip_ws(s: Seq<char>, i: int) -> int
    decreases s.len() - i,
{
    if 0 <= i && i < s.len() && is_ws(s[i]) {
        skip_ws(s, i + 1)
    } else {
        i
    }
}

pub proof fn lemma_skip_ws_bounds(s: Seq<char>, i: int)
    requires
        0 <= i <= s.len(),
    ensures
        i <= skip_ws(s, i) <= s.len(),
    decreases s.len() - i,
{
    if i < s.len() && is_ws(s[i]) {
        lemma_skip_ws_bounds(s, i + 1);
    }
}

/// Advances past whitespace.
pub fn ws_to(s: &Vec<char>, i: usize) -> (j: usize)
    requires
        i <= s@.len(),
    ensures
        j == skip_ws(s@, i as int),
        i <= j <= s@.len(),
{
    let mut k: usize = i;
    while k < s.len() && crate::text::ws_char(s[k])
        invariant
            i <= k <= s@.len(),
            skip_ws(s@, i as int) == skip_ws(s@, k as int),
        decreases s@.len() - k,
    {
        k = k + 1;
    }
    k
}

// ---------------------------------------------------------------------------
// strings
// ---------------------------------------------------------------------------
pub open spec fn is_hex(c: char) -> bool {
    is_digit(c) || ('a' <= c && c <= 'f') || ('A' <= c && c <= 'F')
}

pub open spec fn hex_val(c: char) -> nat {
    if is_digit(c) {
        (c as u32 - 48) as nat
    } else if 'a' <= c && c <= 'f' {
        (c as u32 - 87) as nat
    } else if 'A' <= c && c <= 'F' {
        (c as u32 - 55) as nat
    } else {
        0
    }
}

pub open spec fn hex_digit(n: nat) -> char {
    if n == 0 {
        '0'
    } else if n == 1 {
        '1'
    } else if n == 2 {
        '2'
    } else if n == 3 {
        '3'
    } else if n == 4 {
        '4'
    } else if n == 5 {
        '5'
    } else if n == 6 {
        '6'
    } else if n == 7 {
        '7'
    } else if n == 8 {
        '8'
    } else if n == 9 {
        '9'
    } else if n == 10 {
        'a'
    } else if n == 11 {
        'b'
    } else if n == 12 {
        'c'
    } else if n == 13 {
        'd'
    } else if n == 14 {
        'e'
    } else {
        'f'
    }
}

/// How one character of string content is written in the document.
pub open spec fn esc_char(c: char) -> Seq<char> {
    if c == '"' {
        seq!['\\', '"']
    } else if c == '\\' {
        seq!['\\', '\\']
    } else if c == '\n' {
        seq!['\\', 'n']
    } else if c == '\r' {
        seq!['\\', 'r']
    } else if c == '\t' {
        seq!['\\', 't']
    } else if c == '\u{8}' {
        seq!['\\', 'b']
    } else if c == '\u{c}' {
        seq!['\\', 'f']
    } else if (c as u32) < 32 {
        seq!['\\', 'u', '0', '0', hex_digit((c as u32) as nat / 16), hex_digit(
            (c as u32) as nat % 16,
        )]
    } else {
        seq![c]
    }
}

pub open spec fn ser_string_body(s: Seq<char>) -> Seq<char>
    decreases s.len(),
{
    if s.len() == 0 {
        Seq::empty()
    } else {
        esc_char(s[0]) + ser_string_body(s.drop_first())
    }
}

/// A string value as it is written in the document, quotes included.
pub open spec fn ser_string(s: Seq<char>) -> Seq<char> {
    seq!['"'] + ser_string_body(s) + seq!['"']
}

/// Content of a quoted string from position `i` up to the closing quote,
/// unescaped and appended to `acc`; the returned position is just past the
/// closing quote.
pub open spec fn parse_string_body(s: Seq<char>, i: int, acc: Seq<char>) -> Option<
    (Seq<char>, int),
>
    decreases s.len() - i,
{
    if i < 0 || i >= s.len() {
        None
    } else {
        let c = s[i];
        if c == '"' {
            Some((acc, i + 1))
        } else if c == '\\' {
            if i + 1 < s.len() {
                let e = s[i + 1];
                if e == '"' || e == '\\' || e == '/' {
                    parse_string_body(s, i + 2, acc.push(e))
                } else if e == 'n' {
                    parse_string_body(s, i + 2, acc.push('\n'))
                } else if e == 'r' {
                    parse_string_body(s, i + 2, acc.push('\r'))
                } else if e == 't' {
                    parse_string_body(s, i + 2, acc.push('\t'))
                } else if e == 'b' {
                    parse_string_body(s, i + 2, acc.push('\u{8}'))
                } else if e == 'f' {
                    parse_string_body(s, i + 2, acc.push('\u{c}'))
                } else if e == 'u' {
                    if i + 6 <= s.len() && is_hex(s[i + 2]) && is_hex(s[i + 3]) && is_hex(s[i + 4])
                        && is_hex(s[i + 5]) {
                        let v = hex_val(s[i + 2]) * 4096 + hex_val(s[i + 3]) * 256 + hex_val(
                            s[i + 4],
                        ) * 16 + hex_val(s[i + 5]);
                        if v < 128 {
                            parse_string_body(s, i + 6, acc.push(((v as u8) as char)))
                        } else {
                            None
                        }
                    } else {
                        None
                    }
                } else {
                    None
                }
            } else {
                None
            }
        } else if (c as u32) >= 32 {
            parse_string_body(s, i + 1, acc.push(c))
        } else {
            None
        }
    }
}

/// A quoted string starting exactly at `i`.
pub open spec fn parse_jstring(s: Seq<char>, i: int) -> Option<(Seq<char>, int)> {
    if 0 <= i && i < s.len() && s[i] == '"' {
        parse_string_body(s, i + 1, Seq::empty())
    } else {
        None
    }
}

pub proof fn lemma_string_body_progress(s: Seq<char>, i: int, acc: Seq<char>)
    requires
        parse_string_body(s, i, acc) is Some,
    ensures
        i < parse_string_body(s, i, acc)->Some_0.1 <= s.len(),
    decreases s.len() - i,
{
    let c = s[i];
    if c == '"' {
    } else if c == '\\' {
        let e = s[i + 1];
        if e == 'u' {
            let v = hex_val(s[i + 2]) * 4096 + hex_val(s[i + 3]) * 256 + hex_val(s[i + 4]) * 16
                + hex_val(s[i + 5]);
            lemma_string_body_progress(s, i + 6, acc.push(((v as u8) as char)));
        } else if e == '"' || e == '\\' || e == '/' {
            lemma_string_body_progress(s, i + 2, acc.push(e));
        } else if e == 'n' {
            lemma_string_body_progress(s, i + 2, acc.push('\n'));
        } else if e == 'r' {
            lemma_string_body_progress(s, i + 2, acc.push('\r'));
        } else if e == 't' {
            lemma_string_body_progress(s, i + 2, acc.push('\t'));
        } else if e == 'b' {
            lemma_string_body_progress(s, i + 2, acc.push('\u{8}'));
        } else {
            lemma_string_body_progress(s, i + 2, acc.push('\u{c}'));
        }
    } else {
        lemma_string_body_progress(s, i + 1, acc.push(c));
    }
}

pub proof fn lemma_jstring_progress(s: Seq<char>, i: int)
    requires
        parse_jstring(s, i) is Some,
    ensures
        i < parse_jstring(s, i)->Some_0.1 <= s.len(),
{
    lemma_string_body_progress(s, i + 1, Seq::empty());
}

} // verus!

verus! {

/// Splits knowledge of a concatenation found inside `s` into its two parts.
pub proof fn lemma_concat_subrange(s: Seq<char>, i: int, a: Seq<char>, b: Seq<char>)
    requires
        0 <= i,
        i + a.len() + b.len() <= s.len(),
        s.subrange(i, i + a.len() + b.len()) == a + b,
    ensures
        s.subrange(i, i + a.len()) == a,
        s.subrange(i + a.len(), i + a.len() + b.len()) == b,
{
    let whole = s.subrange(i, i + a.len() + b.len());
    assert forall|k: int| 0 <= k < a.len() implies s[i + k] == a[k] by {
        assert(whole[k] == (a + b)[k]);
    }
    assert forall|k: int| 0 <= k < b.len() implies s[i + a.len() + k] == b[k] by {
        assert(whole[a.len() + k] == (a + b)[a.len() + k]);
    }
    assert(s.subrange(i, i + a.len()) =~= a);
    assert(s.subrange(i + a.len(), i + a.len() + b.len()) =~= b);
}

/// The string-body parser inverts the string-body serializer: at a position
/// holding the serialized content followed by the closing quote, it returns
/// exactly that content.
pub proof fn lemma_parse_ser_body(s: Seq<char>, i: int, acc: Seq<char>, content: Seq<char>)
    requires
        0 <= i,
        i + ser_string_body(content).len() + 1 <= s.len(),
        s.subrange(i, i + ser_string_body(content).len() + 1) == ser_string_body(content)
            + seq!['"'],
    ensures
        parse_string_body(s, i, acc) == Some(
            (acc + content, i + ser_string_body(content).len() + 1),
        ),
    decreases content.len(),
{
    let body = ser_string_body(content);
    let whole = body + seq!['"'];
    if content.len() == 0 {
        assert(s[i] == whole[0]);
        assert(acc + content =~= acc);
    } else {
        let c = content[0];
        let tail = content.drop_first();
        let e = esc_char(c);
        assert(body == e + ser_string_body(tail));
        let rest = ser_string_body(tail) + seq!['"'];
        assert(whole =~= e + rest);
        lemma_concat_subrange(s, i, e, rest);
        assert forall|k: int| 0 <= k < e.len() implies s[i + k] == e[k] by {
            assert(s.subrange(i, i + e.len())[k] == e[k]);
        }
        lemma_parse_ser_body(s, i + e.len(), acc.push(c), tail);
        assert(acc.push(c) + tail =~= acc + content);
        if c == '"' || c == '\\' {
            assert(s[i] == '\\');
        } else if c == '\n' || c == '\r' || c == '\t' || c == '\u{8}' || c == '\u{c}' {
            assert(s[i] == '\\');
        } else if (c as u32) < 32 {
            let u = (c as u32) as nat;
            assert(s[i] == '\\' && s[i + 1] == 'u' && s[i + 2] == '0' && s[i + 3] == '0');
            assert(s[i + 4] == hex_digit(u / 16) && s[i + 5] == hex_digit(u % 16));
            assert(is_hex(s[i + 2]) && is_hex(s[i + 3]) && is_hex(s[i + 4]) && is_hex(s[i + 5]));
            let v = hex_val(s[i + 2]) * 4096 + hex_val(s[i + 3]) * 256 + hex_val(s[i + 4]) * 16
                + hex_val(s[i + 5]);
            assert(hex_val('0') == 0);
            assert(hex_val(hex_digit(u / 16)) == u / 16);
            assert(hex_val(hex_digit(u % 16)) == u % 16);
            assert(v == (u / 16) * 16 + u % 16);
            assert(v == u);
            vstd::utf8::char_u32_cast(c, c as u32);
            assert((v as u8) as u32 == c as u32);
            assert(((v as u8) as char) == c);
        } else {
            assert(e =~= seq![c]);
            assert(s[i + 0] == e[0]);
            assert(s[i] == c);
            assert(s[i] != '"' && s[i] != '\\');
        }
    }
}

/// The string parser inverts the string serializer.
pub proof fn lemma_parse_ser_string(s: Seq<char>, i: int, content: Seq<char>)
    requires
        0 <= i,
        i + ser_string(content).len() <= s.len(),
        s.subrange(i, i + ser_string(content).len()) == ser_string(content),
    ensures
        parse_jstring(s, i) == Some((content, i + ser_string(content).len())),
{
    let body = ser_string_body(content);
    assert(ser_string(content) =~= seq!['"'] + (body + seq!['"']));
    lemma_concat_subrange(s, i, seq!['"'], body + seq!['"']);
    assert(s[i] == s.subrange(i, i + 1)[0]);
    lemma_parse_ser_body(s, i + 1, Seq::empty(), content);
    assert(Seq::empty() + content =~= content);
}

} // verus!

verus! {

// ---------------------------------------------------------------------------
// numbers (decimal, bounded by the largest status/port value)
// ---------------------------------------------------------------------------
pub open spec fn dec_val(c: char) -> nat {
    ((c as u32) - 48) as nat
}

pub open spec fn dec_digit(n: nat) -> char {
    if n == 0 {
        '0'
    } else if n == 1 {
        '1'
    } else if n == 2 {
        '2'
    } else if n == 3 {
        '3'
    } else if n == 4 {
        '4'
    } else if n == 5 {
        '5'
    } else if n == 6 {
        '6'
    } else if n == 7 {
        '7'
    } else if n == 8 {
        '8'
    } else {
        '9'
    }
}

/// Decimal form of a number, most significant digit first.
pub open spec fn ser_nat(n: nat) -> Seq<char>
    decreases n,
{
    if n < 10 {
        seq![dec_digit(n)]
    } else {
        ser_nat(n / 10) + seq![dec_digit(n % 10)]
    }
}

/// Digits consumed left to right into an accumulator, rejecting values
/// above the 16-bit bound used by ports and status codes.
pub open spec fn parse_num_body(s: Seq<char>, i: int, acc: nat) -> Option<(nat, int)>
    decreases s.len() - i,
{
    if 0 <= i && i < s.len() && is_digit(s[i]) {
        if acc * 10 + dec_val(s[i]) > 0xFFFF {
            None
        } else {
            parse_num_body(s, i + 1, acc * 10 + dec_val(s[i]))
        }
    } else {
        Some((acc, i))
    }
}

/// A number starting exactly at `i`: at least one digit, no leading zero.
pub open spec fn parse_num(s: Seq<char>, i: int) -> Option<(nat, int)> {
    if 0 <= i && i < s.len() && is_digit(s[i]) {
        if s[i] == '0' && i + 1 < s.len() && is_digit(s[i + 1]) {
            None
        } else {
            parse_num_body(s, i, 0)
        }
    } else {
        None
    }
}

pub proof fn lemma_num_progress(s: Seq<char>, i: int)
    requires
        parse_num(s, i) is Some,
    ensures
        i < parse_num(s, i)->Some_0.1 <= s.len(),
{
    lemma_num_body_bounds(s, i, 0);
}

pub proof fn lemma_num_body_bounds(s: Seq<char>, i: int, acc: nat)
    requires
        0 <= i <= s.len(),
        parse_num_body(s, i, acc) is Some,
    ensures
        i <= parse_num_body(s, i, acc)->Some_0.1 <= s.len(),
        i < s.len() && is_digit(s[i]) ==> i < parse_num_body(s, i, acc)->Some_0.1,
    decreases s.len() - i,
{
    if i < s.len() && is_digit(s[i]) {
        lemma_num_body_bounds(s, i + 1, acc * 10 + dec_val(s[i]));
    }
}

/// The accumulator after consuming all of `d` on top of `acc`.
pub open spec fn fold_digits(acc: nat, d: Seq<char>) -> nat
    decreases d.len(),
{
    if d.len() == 0 {
        acc
    } else {
        fold_digits(acc * 10 + dec_val(d[0]), d.drop_first())
    }
}

pub open spec fn all_digits(d: Seq<char>) -> bool {
    forall|k: int| 0 <= k < d.len() ==> is_digit(#[trigger] d[k])
}

pub proof fn lemma_fold_digits_grows(acc: nat, d: Seq<char>)
    ensures
        fold_digits(acc, d) >= acc,
    decreases d.len(),
{
    if d.len() > 0 {
        lemma_fold_digits_grows(acc * 10 + dec_val(d[0]), d.drop_first());
    }
}

pub proof fn lemma_parse_num_body_digits(s: Seq<char>, i: int, acc: nat, d: Seq<char>)
    requires
        0 <= i,
        i + d.len() <= s.len(),
        s.subrange(i, i + d.len()) == d,
        all_digits(d),
        i + d.len() == s.len() || !is_digit(s[i + d.len()]),
        fold_digits(acc, d) <= 0xFFFF,
    ensures
        parse_num_body(s, i, acc) == Some((fold_digits(acc, d), i + d.len())),
    decreases d.len(),
{
    if d.len() == 0 {
    } else {
        assert(s[i] == s.subrange(i, i + d.len())[0]);
        assert(s[i] == d[0]);
        let a2 = acc * 10 + dec_val(d[0]);
        lemma_fold_digits_grows(a2, d.drop_first());
        assert(s.subrange(i + 1, i + d.len()) =~= d.drop_first()) by {
            assert forall|k: int| 0 <= k < d.len() - 1 implies s.subrange(i + 1, i + d.len())[k]
                == d.drop_first()[k] by {
                assert(s.subrange(i, i + d.len())[k + 1] == d[k + 1]);
            }
        }
        lemma_parse_num_body_digits(s, i + 1, a2, d.drop_first());
    }
}

pub proof fn lemma_ser_nat_digits(n: nat)
    ensures
        all_digits(ser_nat(n)),
        ser_nat(n).len() >= 1,
        ser_nat(n)[0] == '0' <==> n == 0,
    decreases n,
{
    if n < 10 {
    } else {
        lemma_ser_nat_digits(n / 10);
        let d = ser_nat(n);
        let h = ser_nat(n / 10);
        assert forall|k: int| 0 <= k < d.len() implies is_digit(#[trigger] d[k]) by {
            if k < h.len() {
                assert(d[k] == h[k]);
            }
        }
        assert(d[0] == h[0]);
    }
}

pub proof fn lemma_fold_digits_concat(acc: nat, d1: Seq<char>, d2: Seq<char>)
    ensures
        fold_digits(acc, d1 + d2) == fold_digits(fold_digits(acc, d1), d2),
    decreases d1.len(),
{
    if d1.len() == 0 {
        assert(d1 + d2 =~= d2);
    } else {
        assert((d1 + d2)[0] == d1[0]);
        assert((d1 + d2).drop_first() =~= d1.drop_first() + d2);
        lemma_fold_digits_concat(acc * 10 + dec_val(d1[0]), d1.drop_first(), d2);
    }
}

pub proof fn lemma_fold_ser_nat(acc: nat, n: nat)
    ensures
        exists|p: nat| #[trigger] (acc * p) == acc * p && p >= 1 && fold_digits(acc, ser_nat(n))
            == acc * p + n,
    decreases n,
{
    if n < 10 {
        assert(dec_val(dec_digit(n)) == n);
        let d = seq![dec_digit(n)];
        assert(d.drop_first() =~= Seq::<char>::empty());
        assert(fold_digits(acc * 10 + n, Seq::<char>::empty()) == acc * 10 + n);
        assert(fold_digits(acc, d) == fold_digits(acc * 10 + n, d.drop_first()));
        assert(fold_digits(acc, ser_nat(n)) == acc * 10 + n);
    } else {
        lemma_fold_digits_concat(acc, ser_nat(n / 10), seq![dec_digit(n % 10)]);
        lemma_fold_ser_nat(acc, n / 10);
        let p0 = choose|p0: nat| #[trigger] (acc * p0) == acc * p0 && p0 >= 1 && fold_digits(
            acc,
            ser_nat(n / 10),
        ) == acc * p0 + n / 10;
        let mid = fold_digits(acc, ser_nat(n / 10));
        let tail = seq![dec_digit(n % 10)];
        assert(dec_val(dec_digit(n % 10)) == n % 10);
        assert(tail.drop_first() =~= Seq::<char>::empty());
        assert(fold_digits(mid * 10 + n % 10, Seq::<char>::empty()) == mid * 10 + n % 10);
        assert(fold_digits(mid, tail) == fold_digits(mid * 10 + n % 10, tail.drop_first()));
        assert(fold_digits(mid, tail) == mid * 10 + n % 10);
        assert((acc * p0 + n / 10) * 10 + n % 10 == acc * (p0 * 10) + ((n / 10) * 10 + n % 10))
            by (nonlinear_arith);
        assert((n / 10) * 10 + n % 10 == n) by (nonlinear_arith);
        assert(acc * (p0 * 10) == acc * (p0 * 10));
        assert(p0 * 10 >= 1);
        assert(fold_digits(acc, ser_nat(n)) == acc * (p0 * 10) + n);
    }
}

/// The number parser inverts the decimal serializer wherever the digits are
/// not followed by a further digit.
pub proof fn lemma_parse_ser_num(s: Seq<char>, i: int, n: nat)
    requires
        0 <= i,
        n <= 0xFFFF,
        i + ser_nat(n).len() <= s.len(),
        s.subrange(i, i + ser_nat(n).len()) == ser_nat(n),
        i + ser_nat(n).len() == s.len() || !is_digit(s[i + ser_nat(n).len()]),
    ensures
        parse_num(s, i) == Some((n, i + ser_nat(n).len())),
{
    let d = ser_nat(n);
    lemma_ser_nat_digits(n);
    assert(s[i] == s.subrange(i, i + d.len())[0]);
    assert(s[i] == d[0]);
    lemma_fold_ser_nat(0, n);
    let p0 = choose|p0: nat| #[trigger] (0 * p0) == 0 * p0 && p0 >= 1 && fold_digits(
        0,
        ser_nat(n),
    ) == 0 * p0 + n;
    assert(fold_digits(0, d) == n);
    lemma_parse_num_body_digits(s, i, 0, d);
    if s[i] == '0' {
        assert(n == 0);
        assert(d.len() == 1);
    } else {
        assert(!(s[i] == '0' && i + 1 < s.len() && is_digit(s[i + 1])));
    }
}

// ---------------------------------------------------------------------------
// literal words
// ---------------------------------------------------------------------------
pub open spec fn parse_lit(s: Seq<char>, i: int, t: Seq<char>) -> Option<int> {
    if 0 <= i && i + t.len() <= s.len() && s.subrange(i, i + t.len()) == t {
        Some(i + t.len())
    } else {
        None
    }
}

pub open spec fn tok_true() -> Seq<char> {
    seq!['t', 'r', 'u', 'e']
}

pub open spec fn tok_false() -> Seq<char> {
    seq!['f', 'a', 'l', 's', 'e']
}

pub open spec fn tok_null() -> Seq<char> {
    seq!['n', 'u', 'l', 'l']
}

pub open spec fn ser_bool(b: bool) -> Seq<char> {
    if b {
        tok_true()
    } else {
        tok_false()
    }
}

/// `true` or `false` starting exactly at `i`.
pub open spec fn parse_bool(s: Seq<char>, i: int) -> Option<(bool, int)> {
    if parse_lit(s, i, tok_true()) is Some {
        Some((true, i + 4))
    } else if parse_lit(s, i, tok_false()) is Some {
        Some((false, i + 5))
    } else {
        None
    }
}

} // verus!

verus! {

// ---------------------------------------------------------------------------
// executable token parsers
// ---------------------------------------------------------------------------
pub fn hex_char(c: char) -> (b: bool)
    ensures
        b == is_hex(c),
{
    ('0' <= c && c <= '9') || ('a' <= c && c <= 'f') || ('A' <= c && c <= 'F')
}

pub fn hex_value(c: char) -> (v: u32)
    requires
        is_hex(c),
    ensures
        v as nat == hex_val(c),
        v < 16,
{
    let u = c as u32;
    if u >= 97 {
        u - 87
    } else if u >= 65 {
        u - 55
    } else {
        u - 48
    }
}

/// Reads a quoted string starting exactly at `i`; on failure reports the
/// position where parsing stopped.
pub fn parse_string_exec(s: &Vec<char>, i: usize) -> (r: Result<(Vec<char>, usize), usize>)
    requires
        i <= s@.len(),
    ensures
        r matches Ok(p) ==> parse_jstring(s@, i as int) == Some((p.0@, p.1 as int)) && i < p.1
            <= s@.len(),
        r is Err ==> parse_jstring(s@, i as int) is None,
{
    if i == s.len() || s[i] != '"' {
        return Err(i);
    }
    let mut acc: Vec<char> = Vec::new();
    let mut k: usize = i + 1;
    loop
        invariant
            i + 1 <= k <= s@.len(),
            parse_jstring(s@, i as int) == parse_string_body(s@, k as int, acc@),
        decreases s@.len() - k,
    {
        if k == s.len() {
            return Err(k);
        }
        let c = s[k];
        if c == '"' {
            let j = k + 1;
            proof {
                assert(parse_string_body(s@, k as int, acc@) == Some((acc@, j as int)));
            }
            return Ok((acc, j));
        }
        if c == '\\' {
            if k + 1 == s.len() {
                return Err(k);
            }
            let e = s[k + 1];
            if e == '"' || e == '\\' || e == '/' {
                acc.push(e);
                k = k + 2;
            } else if e == 'n' {
                acc.push('\n');
                k = k + 2;
            } else if e == 'r' {
                acc.push('\r');
                k = k + 2;
            } else if e == 't' {
                acc.push('\t');
                k = k + 2;
            } else if e == 'b' {
                acc.push('\u{8}');
                k = k + 2;
            } else if e == 'f' {
                acc.push('\u{c}');
                k = k + 2;
            } else if e == 'u' {
                if s.len() - k < 6 {
                    return Err(k);
                }
                if !(hex_char(s[k + 2]) && hex_char(s[k + 3]) && hex_char(s[k + 4]) && hex_char(
                    s[k + 5],
                )) {
                    return Err(k);
                }
                let v: u32 = hex_value(s[k + 2]) * 4096 + hex_value(s[k + 3]) * 256 + hex_value(
                    s[k + 4],
                ) * 16 + hex_value(s[k + 5]);
                if v >= 128 {
                    return Err(k);
                }
                acc.push((v as u8) as char);
                k = k + 6;
            } else {
                return Err(k);
            }
        } else if (c as u32) >= 32 {
            acc.push(c);
            k = k + 1;
        } else {
            return Err(k);
        }
    }
}

/// Reads a bounded decimal number starting exactly at `i`.
pub fn parse_u16_exec(s: &Vec<char>, i: usize) -> (r: Result<(u16, usize), usize>)
    requires
        i <= s@.len(),
    ensures
        r matches Ok(p) ==> parse_num(s@, i as int) == Some((p.0 as nat, p.1 as int)) && i < p.1
            <= s@.len(),
        r is Err ==> parse_num(s@, i as int) is None,
{
    if i == s.len() || !crate::text::digit_char(s[i]) {
        return Err(i);
    }
    if s[i] == '0' && i + 1 < s.len() && crate::text::digit_char(s[i + 1]) {
        return Err(i);
    }
    let mut acc: u32 = 0;
    let mut k: usize = i;
    loop
        invariant
            i <= k <= s@.len(),
            acc <= 0xFFFF,
            is_digit(s@[i as int]),
            i < s@.len(),
            parse_num(s@, i as int) == parse_num_body(s@, k as int, acc as nat),
        decreases s@.len() - k,
    {
        if k == s.len() || !crate::text::digit_char(s[k]) {
            proof {
                if k == i {
                    assert(is_digit(s@[k as int]));
                }
            }
            return Ok((acc as u16, k));
        }
        let d: u32 = (s[k] as u32) - 48;
        let a2: u32 = acc * 10 + d;
        if a2 > 0xFFFF {
            return Err(k);
        }
        acc = a2;
        k = k + 1;
    }
}

/// Matches the word `true` starting exactly at `i`.
pub fn parse_true_exec(s: &Vec<char>, i: usize) -> (r: Option<usize>)
    requires
        i <= s@.len(),
    ensures
        r matches Some(j) ==> parse_lit(s@, i as int, tok_true()) == Some(j as int) && j == i + 4,
        r is None ==> parse_lit(s@, i as int, tok_true()) is None,
{
    if s.len() - i >= 4 && s[i] == 't' && s[i + 1] == 'r' && s[i + 2] == 'u' && s[i + 3] == 'e' {
        proof {
            assert(s@.subrange(i as int, i as int + 4) =~= tok_true());
        }
        Some(i + 4)
    } else {
        proof {
            if i + 4 <= s@.len() && s@.subrange(i as int, i as int + 4) == tok_true() {
                assert(s@[i as int] == s@.subrange(i as int, i as int + 4)[0]);
                assert(s@[i as int + 1] == s@.subrange(i as int, i as int + 4)[1]);
                assert(s@[i as int + 2] == s@.subrange(i as int, i as int + 4)[2]);
                assert(s@[i as int + 3] == s@.subrange(i as int, i as int + 4)[3]);
            }
        }
        None
    }
}

/// Matches the word `false` starting exactly at `i`.
pub fn parse_false_exec(s: &Vec<char>, i: usize) -> (r: Option<usize>)
    requires
        i <= s@.len(),
    ensures
        r matches Some(j) ==> parse_lit(s@, i as int, tok_false()) == Some(j as int) && j == i + 5,
        r is None ==> parse_lit(s@, i as int, tok_false()) is None,
{
    if s.len() - i >= 5 && s[i] == 'f' && s[i + 1] == 'a' && s[i + 2] == 'l' && s[i + 3] == 's'
        && s[i + 4] == 'e' {
        proof {
            assert(s@.subrange(i as int, i as int + 5) =~= tok_false());
        }
        Some(i + 5)
    } else {
        proof {
            if i + 5 <= s@.len() && s@.subrange(i as int, i as int + 5) == tok_false() {
                assert(s@[i as int] == s@.subrange(i as int, i as int + 5)[0]);
                assert(s@[i as int + 1] == s@.subrange(i as int, i as int + 5)[1]);
                assert(s@[i as int + 2] == s@.subrange(i as int, i as int + 5)[2]);
                assert(s@[i as int + 3] == s@.subrange(i as int, i as int + 5)[3]);
                assert(s@[i as int + 4] == s@.subrange(i as int, i as int + 5)[4]);
            }
        }
        None
    }
}

/// Matches the word `null` starting exactly at `i`.
pub fn parse_null_exec(s: &Vec<char>, i: usize) -> (r: Option<usize>)
    requires
        i <= s@.len(),
    ensures
        r matches Some(j) ==> parse_lit(s@, i as int, tok_null()) == Some(j as int) && j == i + 4,
        r is None ==> parse_lit(s@, i as int, tok_null()) is None,
{
    if s.len() - i >= 4 && s[i] == 'n' && s[i + 1] == 'u' && s[i + 2] == 'l' && s[i + 3] == 'l' {
        proof {
            assert(s@.subrange(i as int, i as int + 4) =~= tok_null());
        }
        Some(i + 4)
    } else {
        proof {
            if i + 4 <= s@.len() && s@.subrange(i as int, i as int + 4) == tok_null() {
                assert(s@[i as int] == s@.subrange(i as int, i as int + 4)[0]);
                assert(s@[i as int + 1] == s@.subrange(i as int, i as int + 4)[1]);
                assert(s@[i as int + 2] == s@.subrange(i as int, i as int + 4)[2]);
                assert(s@[i as int + 3] == s@.subrange(i as int, i as int + 4)[3]);
            }
        }
        None
    }
}

/// Reads `true` or `false` starting exactly at `i`.
pub fn parse_bool_exec(s: &Vec<char>, i: usize) -> (r: Result<(bool, usize), usize>)
    requires
        i <= s@.len(),
    ensures
        r matches Ok(p) ==> parse_bool(s@, i as int) == Some((p.0, p.1 as int)) && i < p.1
            <= s@.len(),
        r is Err ==> parse_bool(s@, i as int) is None,
{
    if let Some(j) = parse_true_exec(s, i) {
        Ok((true, j))
    } else if let Some(j) = parse_false_exec(s, i) {
        Ok((false, j))
    } else {
        Err(i)
    }
}

} // verus!

verus! {

// ---------------------------------------------------------------------------
// executable emitters
// ---------------------------------------------------------------------------
pub proof fn lemma_ser_body_snoc(s: Seq<char>, c: char)
    ensures
        ser_string_body(s.push(c)) == ser_string_body(s) + esc_char(c),
    decreases s.len(),
{
    if s.len() == 0 {
        assert(s.push(c)[0] == c);
        assert(s.push(c).drop_first() =~= Seq::<char>::empty());
        assert(ser_string_body(Seq::<char>::empty()) == Seq::<char>::empty());
        assert(ser_string_body(s.push(c)) == esc_char(c) + Seq::<char>::empty());
        assert(ser_string_body(s.push(c)) =~= ser_string_body(s) + esc_char(c));
    } else {
        assert(s.push(c)[0] == s[0]);
        assert(s.push(c).drop_first() =~= s.drop_first().push(c));
        lemma_ser_body_snoc(s.drop_first(), c);
        assert(ser_string_body(s.push(c)) == esc_char(s.push(c)[0]) + ser_string_body(
            s.push(c).drop_first(),
        ));
        assert(ser_string_body(s.push(c)) == esc_char(s[0]) + (ser_string_body(s.drop_first())
            + esc_char(c)));
        assert(ser_string_body(s.push(c)) =~= ser_string_body(s) + esc_char(c));
    }
}

/// Appends the characters of `s` unchanged.
pub fn emit_raw(out: &mut Vec<char>, s: &str)
    ensures
        final(out)@ == old(out)@ + s@,
{
    let n: usize = s.unicode_len();
    let mut i: usize = 0;
    while i < n
        invariant
            n == s@.len(),
            i <= n,
            out@ == old(out)@ + s@.subrange(0, i as int),
        decreases n - i,
    {
        out.push(s.get_char(i));
        i = i + 1;
        proof {
            assert(out@ =~= old(out)@ + s@.subrange(0, i as int));
        }
    }
    proof {
        assert(s@.subrange(0, n as int) =~= s@);
    }
}

pub fn hex_digit_exec(n: u8) -> (c: char)
    requires
        n < 16,
    ensures
        c == hex_digit(n as nat),
{
    if n == 0 {
        '0'
    } else if n == 1 {
        '1'
    } else if n == 2 {
        '2'
    } else if n == 3 {
        '3'
    } else if n == 4 {
        '4'
    } else if n == 5 {
        '5'
    } else if n == 6 {
        '6'
    } else if n == 7 {
        '7'
    } else if n == 8 {
        '8'
    } else if n == 9 {
        '9'
    } else if n == 10 {
        'a'
    } else if n == 11 {
        'b'
    } else if n == 12 {
        'c'
    } else if n == 13 {
        'd'
    } else if n == 14 {
        'e'
    } else {
        'f'
    }
}

/// Appends the document form of one character of string content.
pub fn emit_esc(out: &mut Vec<char>, c: char)
    ensures
        final(out)@ == old(out)@ + esc_char(c),
{
    if c == '"' {
        out.push('\\');
        out.push('"');
    } else if c == '\\' {
        out.push('\\');
        out.push('\\');
    } else if c == '\n' {
        out.push('\\');
        out.push('n');
    } else if c == '\r' {
        out.push('\\');
        out.push('r');
    } else if c == '\t' {
        out.push('\\');
        out.push('t');
    } else if c == '\u{8}' {
        out.push('\\');
        out.push('b');
    } else if c == '\u{c}' {
        out.push('\\');
        out.push('f');
    } else {
        let u = c as u32;
        if u < 32 {
            out.push('\\');
            out.push('u');
            out.push('0');
            out.push('0');
            out.push(hex_digit_exec((u / 16) as u8));
            out.push(hex_digit_exec((u % 16) as u8));
        } else {
            out.push(c);
        }
    }
    proof {
        assert(out@ =~= old(out)@ + esc_char(c));
    }
}

/// Appends a string value in document form, quotes and escapes included.
pub fn emit_json_string(out: &mut Vec<char>, s: &str)
    ensures
        final(out)@ == old(out)@ + ser_string(s@),
{
    out.push('"');
    let n: usize = s.unicode_len();
    let mut i: usize = 0;
    while i < n
        invariant
            n == s@.len(),
            i <= n,
            out@ == old(out)@ + seq!['"'] + ser_string_body(s@.subrange(0, i as int)),
        decreases n - i,
    {
        let c = s.get_char(i);
        emit_esc(out, c);
        i = i + 1;
        proof {
            assert(s@.subrange(0, i as int) =~= s@.subrange(0, i as int - 1).push(c));
            lemma_ser_body_snoc(s@.subrange(0, i as int - 1), c);
            assert(out@ =~= old(out)@ + seq!['"'] + ser_string_body(s@.subrange(0, i as int)));
        }
    }
    out.push('"');
    proof {
        assert(s@.subrange(0, n as int) =~= s@);
        assert(out@ =~= old(out)@ + ser_string(s@));
    }
}

pub fn dec_digit_exec(n: u64) -> (c: char)
    requires
        n < 10,
    ensures
        c == dec_digit(n as nat),
{
    if n == 0 {
        '0'
    } else if n == 1 {
        '1'
    } else if n == 2 {
        '2'
    } else if n == 3 {
        '3'
    } else if n == 4 {
        '4'
    } else if n == 5 {
        '5'
    } else if n == 6 {
        '6'
    } else if n == 7 {
        '7'
    } else if n == 8 {
        '8'
    } else {
        '9'
    }
}

/// Appends a number in decimal document form.
pub fn emit_u64(out: &mut Vec<char>, n: u64)
    ensures
        final(out)@ == old(out)@ + ser_nat(n as nat),
    decreases n,
{
    if n < 10 {
        out.push(dec_digit_exec(n));
        proof {
            assert(out@ =~= old(out)@ + ser_nat(n as nat));
        }
    } else {
        emit_u64(out, n / 10);
        out.push(dec_digit_exec(n % 10));
        proof {
            assert(out@ =~= old(out)@ + ser_nat(n as nat));
        }
    }
}

/// Appends `true` or `false`.
pub fn emit_bool(out: &mut Vec<char>, b: bool)
    ensures
        final(out)@ == old(out)@ + ser_bool(b),
{
    if b {
        emit_raw(out, "true");
        proof {
            reveal_strlit("true");
            assert(out@ =~= old(out)@ + ser_bool(b));
        }
    } else {
        emit_raw(out, "false");
        proof {
            reveal_strlit("false");
            assert(out@ =~= old(out)@ + ser_bool(b));
        }
    }
}

/// Appends `null`.
pub fn emit_null(out: &mut Vec<char>)
    ensures
        final(out)@ == old(out)@ + tok_null(),
{
    emit_raw(out, "null");
    proof {
        reveal_strlit("null");
        assert(out@ =~= old(out)@ + tok_null());
    }
}

} // verus!

verus! {

// ---------------------------------------------------------------------------
// shared reasoning steps for object fields
// ---------------------------------------------------------------------------
/// A field whose value is a string: locates the key, the colon and the
/// value inside a serialized object.
pub proof fn lemma_step_str_field(s: Seq<char>, i: int, k: Seq<char>, v: Seq<char>)
    requires
        0 <= i,
        i + ser_string(k).len() + 1 + ser_string(v).len() <= s.len(),
        s.subrange(i, i + ser_string(k).len() + 1 + ser_string(v).len()) == ser_string(k)
            + seq![':'] + ser_string(v),
    ensures
        parse_jstring(s, i) == Some((k, i + ser_string(k).len())),
        s[i + ser_string(k).len()] == ':',
        skip_ws(s, i + ser_string(k).len()) == i + ser_string(k).len(),
        parse_jstring(s, i + ser_string(k).len() + 1) == Some(
            (v, i + ser_string(k).len() + 1 + ser_string(v).len()),
        ),
        skip_ws(s, i + ser_string(k).len() + 1) == i + ser_string(k).len() + 1,
{
    let a = ser_string(k);
    let b = seq![':'] + ser_string(v);
    assert(ser_string(k) + seq![':'] + ser_string(v) =~= a + b);
    lemma_concat_subrange(s, i, a, b);
    lemma_parse_ser_string(s, i, k);
    lemma_concat_subrange(s, i + a.len(), seq![':'], ser_string(v));
    assert(s[i + a.len()] == s.subrange(i + a.len(), i + a.len() + 1)[0]);
    lemma_parse_ser_string(s, i + a.len() + 1, v);
    assert(s[i + a.len() + 1] == s.subrange(
        i + a.len() + 1,
        i + a.len() + 1 + ser_string(v).len(),
    )[0]);
    assert(s[i + a.len() + 1] == '"');
}

/// A field key followed by its colon, for values that are not strings.
pub proof fn lemma_step_key(s: Seq<char>, i: int, k: Seq<char>)
    requires
        0 <= i,
        i + ser_string(k).len() + 1 <= s.len(),
        s.subrange(i, i + ser_string(k).len() + 1) == ser_string(k) + seq![':'],
    ensures
        parse_jstring(s, i) == Some((k, i + ser_string(k).len())),
        s[i + ser_string(k).len()] == ':',
        skip_ws(s, i + ser_string(k).len()) == i + ser_string(k).len(),
{
    let a = ser_string(k);
    lemma_concat_subrange(s, i, a, seq![':']);
    lemma_parse_ser_string(s, i, k);
    assert(s[i + a.len()] == s.subrange(i + a.len(), i + a.len() + 1)[0]);
}

} // verus!

verus! {

/// A field whose value is a string, as written in an object.
pub open spec fn ser_str_field(k: Seq<char>, v: Seq<char>) -> Seq<char> {
    ser_string(k) + seq![':'] + ser_string(v)
}

/// Appends a string-valued field in document form.
pub fn emit_str_field(out: &mut Vec<char>, k: &str, v: &str)
    ensures
        final(out)@ == old(out)@ + ser_str_field(k@, v@),
{
    emit_json_string(out, k);
    out.push(':');
    emit_json_string(out, v);
    proof {
        assert(final(out)@ =~= old(out)@ + ser_str_field(k@, v@));
    }
}

} // verus!

verus! {

/// An optional string value: the word `null` or a quoted string.
pub open spec fn ser_opt_str(o: Option<Seq<char>>) -> Seq<char> {
    match o {
        Option::Some(v) => ser_string(v),
        Option::None => tok_null(),
    }
}

/// `null` or a quoted string starting exactly at `i`.
pub open spec fn parse_opt_str(s: Seq<char>, i: int) -> Option<(Option<Seq<char>>, int)> {
    if 0 <= i && i < s.len() && s[i] == 'n' {
        match parse_lit(s, i, tok_null()) {
            Option::Some(j) => Some((None, j)),
            Option::None => None,
        }
    } else {
        match parse_jstring(s, i) {
            Option::Some((v, j)) => Some((Some(v), j)),
            Option::None => None,
        }
    }
}

pub proof fn lemma_opt_str_progress(s: Seq<char>, i: int)
    requires
        parse_opt_str(s, i) is Some,
    ensures
        i < parse_opt_str(s, i)->Some_0.1 <= s.len(),
{
    if 0 <= i && i < s.len() && s[i] == 'n' {
    } else {
        lemma_jstring_progress(s, i);
    }
}

/// The optional-string parser inverts its serializer.
pub proof fn lemma_parse_ser_opt_str(s: Seq<char>, i: int, o: Option<Seq<char>>)
    requires
        0 <= i,
        i + ser_opt_str(o).len() <= s.len(),
        s.subrange(i, i + ser_opt_str(o).len()) == ser_opt_str(o),
    ensures
        parse_opt_str(s, i) == Some((o, i + ser_opt_str(o).len())),
{
    match o {
        Option::Some(v) => {
            lemma_parse_ser_string(s, i, v);
            assert(s[i] == s.subrange(i, i + ser_opt_str(o).len())[0]);
        },
        Option::None => {
            assert(s[i] == s.subrange(i, i + 4)[0]);
        },
    }
}

/// Appends an optional string value in document form.
pub fn emit_opt_str(out: &mut Vec<char>, o: &Option<String>)
    ensures
        final(out)@ == old(out)@ + ser_opt_str(
            match o {
                Option::Some(v) => Some(v@),
                Option::None => None,
            },
        ),
{
    match o {
        Option::Some(v) => {
            emit_json_string(out, v.as_str());
        },
        Option::None => {
            emit_null(out);
        },
    }
}

/// Reads `null` or a quoted string starting exactly at `i`.
pub fn parse_opt_str_exec(s: &Vec<char>, i: usize) -> (r: Result<
    (Option<Vec<char>>, usize),
    usize,
>)
    requires
        i <= s@.len(),
    ensures
        r matches Ok(p) ==> parse_opt_str(s@, i as int) == Some(
            (
                match p.0 {
                    Option::Some(v) => Some(v@),
                    Option::None => None,
                },
                p.1 as int,
            ),
        ) && i < p.1 <= s@.len(),
        r is Err ==> parse_opt_str(s@, i as int) is None,
{
    if i < s.len() && s[i] == 'n' {
        match parse_null_exec(s, i) {
            Some(j) => Ok((None, j)),
            None => Err(i),
        }
    } else {
        match parse_string_exec(s, i) {
            Ok((v, j)) => Ok((Some(v), j)),
            Err(e) => Err(e),
        }
    }
}

} // verus!

verus! {

/// Everything skipped by the whitespace scan is whitespace.
pub proof fn lemma_skip_ws_chars(s: Seq<char>, i: int)
    requires
        0 <= i <= s.len(),
    ensures
        forall|m: int| i <= m < skip_ws(s, i) ==> is_ws(#[trigger] s[m]),
    decreases s.len() - i,
{
    if i < s.len() && is_ws(s[i]) {
        lemma_skip_ws_chars(s, i + 1);
        lemma_skip_ws_bounds(s, i + 1);
    }
}

} // verus!
