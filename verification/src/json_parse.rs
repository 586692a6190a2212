//! JSON text → `JsonValue`: a recursive-descent parser over the characters of the input.

use vstd::prelude::*;
use crate::json::{jview, jview_entries, jview_list, lemma_jview_entries_push, lemma_jview_list_push, JView, JsonNumber, JsonValue};
use crate::text::{chars_of, usize_text, is_ws, owned, push_char, push_str, trim, trim_str};

verus! {

/// `char::from_u32`: a character exactly for Unicode scalar values.
#[verifier::external_body]
fn char_from_u32(code: u32) -> (r: Option<char>)
    ensures
        r is Some <==> (code < 0xD800 || (0xE000 <= code && code <= 0x10FFFF)),
        r matches Some(c) ==> c as int == code as int,
{
    char::from_u32(code)
}

pub open spec fn json_ws(c: char) -> bool {
    c == ' ' || c == '\n' || c == '\r' || c == '\t'
}

/// Where the run of JSON whitespace that starts at `p` ends.
pub open spec fn ws_end(cs: Seq<char>, p: int) -> int
    decreases cs.len() - p,
{
    if 0 <= p < cs.len() && json_ws(cs[p]) {
        ws_end(cs, p + 1)
    } else {
        p
    }
}

pub proof fn lemma_ws_end(cs: Seq<char>, p: int)
    requires
        0 <= p <= cs.len(),
    ensures
        p <= ws_end(cs, p) <= cs.len(),
    decreases cs.len() - p,
{
    if p < cs.len() && json_ws(cs[p]) {
        lemma_ws_end(cs, p + 1);
    }
}

fn skip_ws(cs: &Vec<char>, pos: usize) -> (r: usize)
    requires
        pos <= cs.len(),
    ensures
        r == ws_end(cs@, pos as int),
        pos <= r <= cs.len(),
{
    let mut p = pos;
    while p < cs.len() && (cs[p] == ' ' || cs[p] == '\n' || cs[p] == '\r' || cs[p] == '\t')
        invariant
            pos <= p <= cs.len(),
            ws_end(cs@, pos as int) == ws_end(cs@, p as int),
        decreases cs.len() - p,
    {
        p = p + 1;
    }
    p
}

fn msg_at(prefix: &str, pos: usize) -> (r: String)
    ensures
        r@.len() >= prefix@.len(),
{
    let mut s = owned(prefix);
    let n = usize_text(pos);
    push_str(&mut s, n.as_str());
    s
}

fn msg_char(prefix: &str, c: char, mid: &str, pos: usize) -> (r: String)
    ensures
        r@ == prefix@ + seq![c] + mid@ + crate::text::nat_digits(pos as nat),
{
    let mut s = owned(prefix);
    push_char(&mut s, c);
    push_str(&mut s, mid);
    let n = usize_text(pos);
    push_str(&mut s, n.as_str());
    s
}

/// Skip whitespace, then consume `expected`.
fn expect(cs: &Vec<char>, pos: usize, expected: char) -> (r: Result<usize, String>)
    requires
        pos <= cs.len(),
    ensures
        match r {
            Ok(p) => pos < p <= cs.len() && cs@[p - 1] == expected && p - 1 == ws_end(cs@, pos as int),
            Err(_) => !(ws_end(cs@, pos as int) < cs@.len() && cs@[ws_end(cs@, pos as int)] == expected),
        },
{
    let p = skip_ws(cs, pos);
    if p >= cs.len() {
        let mut s = owned("Expected '");
        push_char(&mut s, expected);
        push_str(&mut s, "', got EOF");
        return Err(s);
    }
    if cs[p] == expected {
        Ok(p + 1)
    } else {
        let mut s = owned("Expected '");
        push_char(&mut s, expected);
        push_str(&mut s, "', got '");
        push_char(&mut s, cs[p]);
        push_str(&mut s, "' at pos ");
        let n = usize_text(p + 1);
        push_str(&mut s, n.as_str());
        Err(s)
    }
}

/// Value of a hexadecimal digit.
pub open spec fn hex_val_spec(c: char) -> Option<nat> {
    if '0' <= c && c <= '9' {
        Some((c as nat - 48) as nat)
    } else if 'a' <= c && c <= 'f' {
        Some((c as nat - 87) as nat)
    } else if 'A' <= c && c <= 'F' {
        Some((c as nat - 55) as nat)
    } else {
        None
    }
}

/// The value of a run of hexadecimal digits; `None` where one is not a hexadecimal digit.
pub open spec fn hex_value(s: Seq<char>) -> Option<nat>
    decreases s.len(),
{
    if s.len() == 0 {
        Some(0)
    } else {
        match (hex_value(s.drop_last()), hex_val_spec(s.last())) {
            (Some(a), Some(d)) => Some(a * 16 + d),
            _ => None,
        }
    }
}

/// The code four characters of a `\u` escape stand for, read base sixteen with an optional
/// leading `+`.
pub open spec fn hex4_spec(w: Seq<char>) -> Option<nat> {
    if w.len() > 0 && w[0] == '+' {
        hex_value(w.drop_first())
    } else {
        hex_value(w)
    }
}

/// The text a code stands for: its character where it is a Unicode scalar value, else
/// nothing.
pub open spec fn code_text(code: nat) -> Seq<char> {
    if code < 0xD800 || (0xE000 <= code && code <= 0x10FFFF) {
        seq![code as char]
    } else {
        Seq::empty()
    }
}

/// The character a one-letter escape stands for.
pub open spec fn simple_escape(e: char) -> Option<char> {
    if e == '"' {
        Some('"')
    } else if e == '\\' {
        Some('\\')
    } else if e == '/' {
        Some('/')
    } else if e == 'n' {
        Some('\n')
    } else if e == 'r' {
        Some('\r')
    } else if e == 't' {
        Some('\t')
    } else if e == 'b' {
        Some('\u{08}')
    } else if e == 'f' {
        Some('\u{0C}')
    } else {
        None
    }
}

pub open spec fn prepend(t: Seq<char>, o: Option<(Seq<char>, int)>) -> Option<(Seq<char>, int)> {
    match o {
        Some((rest, q)) => Some((t + rest, q)),
        None => None,
    }
}

/// The text of a string literal whose body starts at `p` (just after the opening quote), and
/// the position after its closing quote; `None` where the body is unterminated or holds a bad
/// escape.
pub open spec fn str_body(cs: Seq<char>, p: int) -> Option<(Seq<char>, int)>
    decreases cs.len() - p,
{
    if p < 0 || p >= cs.len() {
        None
    } else if cs[p] == '"' {
        Some((Seq::empty(), p + 1))
    } else if cs[p] == '\\' {
        if p + 1 >= cs.len() {
            None
        } else {
            let e = cs[p + 1];
            match simple_escape(e) {
                Some(c) => prepend(seq![c], str_body(cs, p + 2)),
                None => if e == 'u' {
                    if cs.len() - (p + 2) < 4 {
                        None
                    } else {
                        match hex4_spec(cs.subrange(p + 2, p + 6)) {
                            Some(code) => prepend(code_text(code), str_body(cs, p + 6)),
                            None => None,
                        }
                    }
                } else {
                    None
                },
            }
        }
    } else {
        prepend(seq![cs[p]], str_body(cs, p + 1))
    }
}

/// A string literal after optional whitespace at `pos`: its text and the position after it.
pub open spec fn string_at(cs: Seq<char>, pos: int) -> Option<(Seq<char>, int)> {
    let p = ws_end(cs, pos);
    if 0 <= p < cs.len() && cs[p] == '"' {
        str_body(cs, p + 1)
    } else {
        None
    }
}

proof fn lemma_prepend_assoc(a: Seq<char>, b: Seq<char>, o: Option<(Seq<char>, int)>)
    ensures
        prepend(a, prepend(b, o)) == prepend(a + b, o),
{
    match o {
        Some((r, q)) => {
            assert(a + (b + r) =~= (a + b) + r);
        },
        None => {},
    }
}

pub proof fn lemma_str_body_pos(cs: Seq<char>, p: int)
    ensures
        str_body(cs, p) matches Some((_, q)) ==> p < q <= cs.len(),
    decreases cs.len() - p,
{
    if 0 <= p < cs.len() && cs[p] != '"' {
        lemma_str_body_pos(cs, p + 1);
        if p + 2 <= cs.len() {
            lemma_str_body_pos(cs, p + 2);
        }
        if p + 6 <= cs.len() {
            lemma_str_body_pos(cs, p + 6);
        }
    }
}

fn hex_val(c: char) -> (r: Option<u32>)
    ensures
        r matches Some(v) ==> v < 16,
        match r {
            Some(v) => hex_val_spec(c) == Some(v as nat),
            None => hex_val_spec(c) is None,
        },
{
    if '0' <= c && c <= '9' {
        Some((c as u32) - 48)
    } else if 'a' <= c && c <= 'f' {
        Some((c as u32) - 87)
    } else if 'A' <= c && c <= 'F' {
        Some((c as u32) - 55)
    } else {
        None
    }
}

/// `u32::from_str_radix(text, 16)` for a four-character text (an optional leading `+`).
fn hex4(cs: &Vec<char>, start: usize) -> (r: Option<u32>)
    requires
        start + 4 <= cs.len(),
    ensures
        match r {
            Some(v) => hex4_spec(cs@.subrange(start as int, start + 4)) == Some(v as nat),
            None => hex4_spec(cs@.subrange(start as int, start + 4)) is None,
        },
{
    let ghost w = cs@.subrange(start as int, start + 4);
    let mut i = start;
    if cs[i] == '+' {
        i = i + 1;
    }
    let ghost s0 = i as int;
    let ghost digits = if cs@[start as int] == '+' { w.drop_first() } else { w };
    assert(digits =~= cs@.subrange(s0, start + 4));
    assert(w[0] == cs@[start as int]);
    assert(hex4_spec(w) == hex_value(cs@.subrange(s0, start + 4)));
    let mut v: u32 = 0;
    while i < start + 4
        invariant
            start <= s0 <= i <= start + 4 <= cs.len(),
            s0 <= start + 1,
            hex4_spec(w) == hex_value(cs@.subrange(s0, start + 4)),
            w == cs@.subrange(start as int, start + 4),
            hex_value(cs@.subrange(s0, i as int)) == Some(v as nat),
            i - s0 <= 1 ==> v < 16,
            i - s0 <= 2 ==> v < 256,
            i - s0 <= 3 ==> v < 4096,
            v < 0x10000,
        decreases start + 4 - i,
    {
        assert(cs@.subrange(s0, i + 1).drop_last() =~= cs@.subrange(s0, i as int));
        match hex_val(cs[i]) {
            Some(d) => {
                v = v * 16 + d;
            }
            None => {
                proof {
                    assert(cs@.subrange(s0, i + 1).last() == cs@[i as int]);
                    assert(cs@.subrange(s0, start + 4).take(i + 1 - s0) =~= cs@.subrange(s0, i + 1));
                    lemma_hex_value_none_extends(cs@.subrange(s0, i + 1), cs@.subrange(s0, start + 4));
                }
                return None;
            },
        }
        i = i + 1;
    }
    assert(cs@.subrange(s0, i as int) =~= cs@.subrange(s0, start + 4));
    Some(v)
}

/// A run with a bad digit stays bad however it goes on.
proof fn lemma_hex_value_none_extends(a: Seq<char>, b: Seq<char>)
    requires
        hex_value(a) is None,
        a.len() <= b.len(),
        b.take(a.len() as int) == a,
    ensures
        hex_value(b) is None,
    decreases b.len(),
{
    if b.len() > a.len() {
        assert(b.drop_last().take(a.len() as int) =~= a);
        lemma_hex_value_none_extends(a, b.drop_last());
    } else {
        assert(b =~= a);
    }
}

/// Parse a string literal starting at `pos` (after optional whitespace).
fn parse_string(cs: &Vec<char>, pos: usize) -> (r: Result<(String, usize), String>)
    requires
        pos <= cs.len(),
    ensures
        r matches Ok((_, p)) ==> pos < p <= cs.len(),
        match r {
            Ok((s, p)) => string_at(cs@, pos as int) == Some((s@, p as int)),
            Err(_) => string_at(cs@, pos as int) is None,
        },
{
    let mut p = match expect(cs, pos, '"') {
        Ok(p) => p,
        Err(e) => return Err(e),
    };
    let ghost p0 = p as int;
    let mut s = String::new();
    assert(s@ + Seq::<char>::empty() =~= Seq::<char>::empty());
    loop
        invariant
            pos < p0 <= p <= cs.len(),
            string_at(cs@, pos as int) == str_body(cs@, p0),
            str_body(cs@, p0) == prepend(s@, str_body(cs@, p as int)),
        decreases cs.len() - p,
    {
        if p >= cs.len() {
            return Err(owned("Unterminated string"));
        }
        let ghost here = p as int;
        let c = cs[p];
        p = p + 1;
        if c == '"' {
            assert(s@ + Seq::<char>::empty() =~= s@);
            return Ok((s, p));
        } else if c == '\\' {
            if p >= cs.len() {
                return Err(owned("Invalid escape"));
            }
            let e = cs[p];
            p = p + 1;
            proof {
                match simple_escape(e) {
                    Some(x) => lemma_prepend_assoc(s@, seq![x], str_body(cs@, here + 2)),
                    None => {},
                }
            }
            if e == '"' {
                push_char(&mut s, '"');
            } else if e == '\\' {
                push_char(&mut s, '\\');
            } else if e == '/' {
                push_char(&mut s, '/');
            } else if e == 'n' {
                push_char(&mut s, '\n');
            } else if e == 'r' {
                push_char(&mut s, '\r');
            } else if e == 't' {
                push_char(&mut s, '\t');
            } else if e == 'b' {
                push_char(&mut s, '\u{08}');
            } else if e == 'f' {
                push_char(&mut s, '\u{0C}');
            } else if e == 'u' {
                if cs.len() - p < 4 {
                    return Err(owned("Unexpected end of input"));
                }
                match hex4(cs, p) {
                    Some(code) => {
                        proof {
                            lemma_prepend_assoc(s@, code_text(code as nat), str_body(cs@, here + 6));
                        }
                        match char_from_u32(code) {
                            Some(ch) => {
                                assert(seq![ch] == code_text(code as nat));
                                push_char(&mut s, ch);
                            },
                            None => {
                                assert(s@ + code_text(code as nat) =~= s@);
                            },
                        }
                    }
                    None => {
                        let mut m = owned("Invalid unicode escape: ");
                        let mut k = p;
                        while k < p + 4
                            invariant
                                p <= k <= p + 4 <= cs.len(),
                            decreases p + 4 - k,
                        {
                            push_char(&mut m, cs[k]);
                            k = k + 1;
                        }
                        return Err(m);
                    }
                }
                p = p + 4;
            } else {
                return Err(owned("Invalid escape"));
            }
        } else {
            proof {
                lemma_prepend_assoc(s@, seq![c], str_body(cs@, here + 1));
            }
            push_char(&mut s, c);
        }
    }
}

fn is_digit(c: char) -> (r: bool)
    ensures
        r == ('0' <= c && c <= '9'),
{
    '0' <= c && c <= '9'
}

/// Scan a run of ASCII digits from `p`.
fn scan_digits(cs: &Vec<char>, p: usize) -> (r: usize)
    requires
        p <= cs.len(),
    ensures
        r == digit_end(cs@, p as int),
        p <= r <= cs.len(),
        forall|j: int| p <= j < r ==> is_dec(#[trigger] cs@[j]),
{
    let mut q = p;
    while q < cs.len() && is_digit(cs[q])
        invariant
            p <= q <= cs.len(),
            digit_end(cs@, p as int) == digit_end(cs@, q as int),
            forall|j: int| p <= j < q ==> is_dec(#[trigger] cs@[j]),
        decreases cs.len() - q,
    {
        q = q + 1;
    }
    q
}

pub open spec fn is_dec(c: char) -> bool {
    '0' <= c && c <= '9'
}

/// Where the run of decimal digits that starts at `p` ends.
pub open spec fn digit_end(cs: Seq<char>, p: int) -> int
    decreases cs.len() - p,
{
    if 0 <= p < cs.len() && is_dec(cs[p]) {
        digit_end(cs, p + 1)
    } else {
        p
    }
}

pub proof fn lemma_digit_end(cs: Seq<char>, p: int)
    requires
        0 <= p <= cs.len(),
    ensures
        p <= digit_end(cs, p) <= cs.len(),
        forall|j: int| p <= j < digit_end(cs, p) ==> is_dec(#[trigger] cs[j]),
    decreases cs.len() - p,
{
    if p < cs.len() && is_dec(cs[p]) {
        lemma_digit_end(cs, p + 1);
    }
}

/// A number with value `mantissa / 10^scale`, trailing zeros removed from the fraction.
pub open spec fn normalized(n: JsonNumber) -> bool {
    n.scale == 0 || n.mantissa % 10 != 0
}

/// The largest `i128`.
pub open spec fn i128_max() -> int {
    170141183460469231731687303715884105727
}

/// `10^n`.
pub open spec fn pow10(n: nat) -> nat
    decreases n,
{
    if n == 0 {
        1
    } else {
        10 * pow10((n - 1) as nat)
    }
}

/// A decimal `m / 10^s` with the trailing zeros of its fraction removed.
pub open spec fn norm(m: int, s: nat) -> (int, nat)
    decreases s,
{
    if s > 0 && m % 10 == 0 {
        norm(m / 10, (s - 1) as nat)
    } else {
        (m, s)
    }
}

/// Bring a decimal to its normal form (same value, no trailing fraction zeros).
pub fn normalize(mantissa: i128, scale: u32) -> (r: JsonNumber)
    ensures
        normalized(r),
        r.scale <= scale,
        (r.mantissa as int, r.scale as nat) == norm(mantissa as int, scale as nat),
{
    let mut m = mantissa;
    let mut s = scale;
    while s > 0 && m % 10 == 0
        invariant
            s <= scale,
            norm(m as int, s as nat) == norm(mantissa as int, scale as nat),
        decreases s,
    {
        m = m / 10;
        s = s - 1;
    }
    JsonNumber { mantissa: m, scale: s }
}

/// The value of a run of decimal digits.
pub open spec fn dec_value(s: Seq<char>) -> nat
    decreases s.len(),
{
    if s.len() == 0 {
        0
    } else {
        dec_value(s.drop_last()) * 10 + ((s.last() as int) - 48) as nat
    }
}

pub open spec fn all_dec(s: Seq<char>) -> bool {
    forall|j: int| 0 <= j < s.len() ==> is_dec(#[trigger] s[j])
}

/// A run of digits is worth at least any of its beginnings.
proof fn lemma_dec_value_mono(a: Seq<char>, b: Seq<char>)
    requires
        a.len() <= b.len(),
        b.take(a.len() as int) == a,
        all_dec(b),
    ensures
        dec_value(a) <= dec_value(b),
    decreases b.len(),
{
    if b.len() > a.len() {
        assert(b.drop_last().take(a.len() as int) =~= a);
        assert(all_dec(b.drop_last())) by {
            assert forall|j: int| 0 <= j < b.drop_last().len() implies is_dec(#[trigger] b.drop_last()[j]) by {
                assert(b.drop_last()[j] == b[j]);
            }
        }
        lemma_dec_value_mono(a, b.drop_last());
    } else {
        assert(b =~= a);
    }
}

proof fn lemma_pow10_pos(n: nat)
    ensures
        pow10(n) >= 1,
    decreases n,
{
    if n > 0 {
        lemma_pow10_pos((n - 1) as nat);
    }
}

proof fn lemma_pow10_mono(a: nat, b: nat)
    requires
        a <= b,
    ensures
        1 <= pow10(a) <= pow10(b),
    decreases b,
{
    lemma_pow10_pos(a);
    if b > a {
        lemma_pow10_mono(a, (b - 1) as nat);
    }
}

/// Where the parts of a number token lie: an optional minus sign, the integer digits
/// `a..b`, the fraction digits `fs..fe` (after a point), and the exponent digits `es..ee`
/// (after `e` or `E` and an optional sign); the token ends at `ee`.
pub struct NumLayout {
    pub neg: bool,
    pub a: int,
    pub b: int,
    pub fs: int,
    pub fe: int,
    pub has_exp: bool,
    pub exp_neg: bool,
    pub es: int,
    pub ee: int,
}

pub open spec fn number_layout(cs: Seq<char>, pos: int) -> NumLayout {
    let neg = cs[pos] == '-';
    let a = if neg { pos + 1 } else { pos };
    let b = digit_end(cs, a);
    let dot = b < cs.len() && cs[b] == '.';
    let fs = if dot { b + 1 } else { b };
    let fe = if dot { digit_end(cs, fs) } else { b };
    let has_exp = fe < cs.len() && (cs[fe] == 'e' || cs[fe] == 'E');
    let signed_exp = has_exp && fe + 1 < cs.len() && (cs[fe + 1] == '+' || cs[fe + 1] == '-');
    let exp_neg = signed_exp && cs[fe + 1] == '-';
    let es = if has_exp { if signed_exp { fe + 2 } else { fe + 1 } } else { fe };
    let ee = if has_exp { digit_end(cs, es) } else { fe };
    NumLayout { neg, a, b, fs, fe, has_exp, exp_neg, es, ee }
}

/// The digits of the mantissa: the integer digits, then the fraction digits.
pub open spec fn mantissa_digits(cs: Seq<char>, l: NumLayout) -> Seq<char> {
    cs.subrange(l.a, l.b) + cs.subrange(l.fs, l.fe)
}

/// The power of ten the mantissa is divided by: the fraction's length less the exponent.
pub open spec fn number_scale(cs: Seq<char>, l: NumLayout) -> int {
    let e = dec_value(cs.subrange(l.es, l.ee));
    if l.exp_neg { (l.fe - l.fs) + e } else { (l.fe - l.fs) - e }
}

/// A number token at `pos` (which holds `-` or a digit): its value and the position after it.
/// Values are exact decimals held in an `i128` mantissa; the token is refused where the digits
/// do not fit, where the fraction has more than ten thousand digits, or where the exponent
/// runs past five digits' worth.
pub open spec fn number_at(cs: Seq<char>, pos: int) -> Option<(JView, int)> {
    let l = number_layout(cs, pos);
    let d = dec_value(mantissa_digits(cs, l));
    if (l.b == l.a && l.fe == l.fs) || (l.has_exp && l.ee == l.es) {
        None
    } else if d > i128_max() {
        None
    } else if d == 0 {
        Some((JView::Number(0, 0), l.ee))
    } else if l.ee > l.es && dec_value(cs.subrange(l.es, l.ee - 1)) > 9999 {
        None
    } else if l.fe - l.fs > 10000 {
        None
    } else {
        let sc = number_scale(cs, l);
        let m: int = if sc < 0 { (d * pow10((-sc) as nat)) as int } else { d as int };
        if m > i128_max() {
            None
        } else {
            let n = norm(if l.neg { -m } else { m }, if sc < 0 { 0nat } else { sc as nat });
            Some((JView::Number(n.0, n.1), l.ee))
        }
    }
}

/// Find the parts of the number token at `pos`.
fn scan_number(cs: &Vec<char>, pos: usize) -> (r: (bool, usize, usize, usize, usize, bool, bool, usize, usize))
    requires
        pos < cs.len(),
        cs@[pos as int] == '-' || is_dec(cs@[pos as int]),
    ensures
        ({
            let l = number_layout(cs@, pos as int);
            &&& r.0 == l.neg && r.1 == l.a && r.2 == l.b && r.3 == l.fs && r.4 == l.fe
            &&& r.5 == l.has_exp && r.6 == l.exp_neg && r.7 == l.es && r.8 == l.ee
        }),
        pos <= r.1 <= r.2 <= r.3 <= r.4 <= r.7 <= r.8 <= cs.len(),
        pos < r.8,
        forall|k: int| r.1 <= k < r.2 ==> is_dec(#[trigger] cs@[k]),
        forall|k: int| r.3 <= k < r.4 ==> is_dec(#[trigger] cs@[k]),
        forall|k: int| r.7 <= k < r.8 ==> is_dec(#[trigger] cs@[k]),
{
    let mut p = pos;
    let neg = cs[p] == '-';
    if neg {
        p = p + 1;
    }
    let int_start = p;
    p = scan_digits(cs, p);
    let int_end = p;
    proof {
        if !neg {
            lemma_digit_end(cs@, pos + 1);
        }
    }
    let mut frac_start = p;
    let mut frac_end = p;
    if p < cs.len() && cs[p] == '.' {
        p = p + 1;
        frac_start = p;
        p = scan_digits(cs, p);
        frac_end = p;
    }
    let mut has_exp = false;
    let mut exp_neg = false;
    let mut exp_start = p;
    let mut exp_end = p;
    if p < cs.len() && (cs[p] == 'e' || cs[p] == 'E') {
        has_exp = true;
        p = p + 1;
        if p < cs.len() && (cs[p] == '+' || cs[p] == '-') {
            exp_neg = cs[p] == '-';
            p = p + 1;
        }
        exp_start = p;
        p = scan_digits(cs, p);
        exp_end = p;
    }
    (neg, int_start, int_end, frac_start, frac_end, has_exp, exp_neg, exp_start, exp_end)
}

fn invalid_number(cs: &Vec<char>, start: usize, end: usize) -> (r: String)
    requires
        start <= end <= cs.len(),
    ensures
        r@ == "Invalid number: "@ + cs@.subrange(start as int, end as int),
{
    let mut m = owned("Invalid number: ");
    let mut k = start;
    assert("Invalid number: "@ + cs@.subrange(start as int, start as int) =~= "Invalid number: "@);
    while k < end
        invariant
            start <= k <= end <= cs.len(),
            m@ == "Invalid number: "@ + cs@.subrange(start as int, k as int),
        decreases end - k,
    {
        push_char(&mut m, cs[k]);
        assert(cs@.subrange(start as int, k + 1) =~= cs@.subrange(start as int, k as int).push(cs@[k as int]));
        k = k + 1;
    }
    m
}

/// Fold the digits of `cs[lo..hi]` into `acc`, the value of `pre` (base ten); `true` when the
/// value of `pre` followed by them does not fit an `i128`.
fn accumulate_digits(cs: &Vec<char>, lo: usize, hi: usize, acc: i128, Ghost(pre): Ghost<Seq<char>>) -> (r: (i128, bool))
    requires
        lo <= hi <= cs.len(),
        acc >= 0,
        acc == dec_value(pre),
        all_dec(pre),
        forall|j: int| lo <= j < hi ==> is_dec(#[trigger] cs@[j]),
    ensures
        r.0 >= 0,
        r.1 <==> dec_value(pre + cs@.subrange(lo as int, hi as int)) > i128_max(),
        !r.1 ==> r.0 == dec_value(pre + cs@.subrange(lo as int, hi as int)),
{
    let ghost whole = pre + cs@.subrange(lo as int, hi as int);
    assert(all_dec(whole)) by {
        assert forall|j: int| 0 <= j < whole.len() implies is_dec(#[trigger] whole[j]) by {
            if j >= pre.len() {
                assert(whole[j] == cs@[lo + j - pre.len()]);
            }
        }
    }
    let mut m = acc;
    let mut k = lo;
    assert(pre + cs@.subrange(lo as int, lo as int) =~= pre);
    while k < hi
        invariant
            lo <= k <= hi <= cs.len(),
            m >= 0,
            whole == pre + cs@.subrange(lo as int, hi as int),
            all_dec(whole),
            forall|j: int| lo <= j < hi ==> is_dec(#[trigger] cs@[j]),
            m == dec_value(pre + cs@.subrange(lo as int, k as int)),
        decreases hi - k,
    {
        let c = cs[k];
        let d = ((c as u32) - 48) as i128;
        let ghost next = pre + cs@.subrange(lo as int, k + 1);
        assert(next.drop_last() =~= pre + cs@.subrange(lo as int, k as int));
        assert(next.last() == c);
        assert(whole.take(next.len() as int) =~= next);
        if m > (170141183460469231731687303715884105727i128 - d) / 10 {
            proof {
                lemma_dec_value_mono(next, whole);
            }
            return (m, true);
        }
        m = m * 10 + d;
        k = k + 1;
    }
    assert(pre + cs@.subrange(lo as int, k as int) =~= whole);
    (m, false)
}

/// The exponent's value, where no digit follows a beginning worth more than 9999.
fn exponent_value(cs: &Vec<char>, es: usize, ee: usize) -> (r: Option<i64>)
    requires
        es <= ee <= cs.len(),
        forall|k: int| es <= k < ee ==> is_dec(#[trigger] cs@[k]),
    ensures
        r is None <==> (ee > es && dec_value(cs@.subrange(es as int, ee - 1)) > 9999),
        r matches Some(e) ==> e == dec_value(cs@.subrange(es as int, ee as int)) && 0 <= e <= 99999,
{
    let mut e: i64 = 0;
    let mut j = es;
    assert(cs@.subrange(es as int, es as int) =~= Seq::<char>::empty());
    while j < ee
        invariant
            es <= j <= ee <= cs.len(),
            forall|k: int| es <= k < ee ==> is_dec(#[trigger] cs@[k]),
            e == dec_value(cs@.subrange(es as int, j as int)),
            0 <= e <= 99999,
            j > es ==> dec_value(cs@.subrange(es as int, j - 1)) <= 9999,
        decreases ee - j,
    {
        let c = cs[j];
        let d = ((c as u32) - 48) as i64;
        let ghost next = cs@.subrange(es as int, j + 1);
        assert(next.drop_last() =~= cs@.subrange(es as int, j as int));
        if e > 9999 {
            proof {
                let whole = cs@.subrange(es as int, ee - 1);
                assert(whole.take(j - es) =~= cs@.subrange(es as int, j as int));
                assert(all_dec(whole)) by {
                    assert forall|k: int| 0 <= k < whole.len() implies is_dec(#[trigger] whole[k]) by {
                        assert(whole[k] == cs@[es + k]);
                    }
                }
                lemma_dec_value_mono(cs@.subrange(es as int, j as int), whole);
            }
            return None;
        }
        e = e * 10 + d;
        j = j + 1;
    }
    Some(e)
}

/// `d * 10^(-sc)` where `sc` is negative (else `d`), where it fits an `i128`.
fn scale_up(d: i128, sc: i64) -> (r: Option<i128>)
    requires
        d > 0,
        -200000 <= sc <= 200000,
    ensures
        ({
            let m: int = if sc < 0 { (d * pow10((-sc) as nat)) as int } else { d as int };
            &&& r is None <==> m > i128_max()
            &&& r matches Some(x) ==> x == m
        }),
{
    let mut m = d;
    let mut scale = sc;
    proof {
        assert(pow10(0) == 1);
        assert(d * pow10(0) == d);
        lemma_pow10_pos((-sc) as nat);
    }
    while scale < 0
        invariant
            m > 0,
            d > 0,
            -200000 <= sc <= scale <= 200000,
            sc < 0 ==> scale <= 0,
            sc < 0 ==> m == d * pow10((scale - sc) as nat),
            sc >= 0 ==> m == d && scale == sc,
        decreases -scale,
    {
        let ghost k = (scale - sc) as nat;
        assert(pow10(k + 1) == 10 * pow10(k));
        assert(d * pow10(k + 1) == m * 10) by (nonlinear_arith)
            requires
                m == d * pow10(k),
                pow10(k + 1) == 10 * pow10(k),
        ;
        if m > 17014118346046923173168730371588410572i128 {
            proof {
                lemma_pow10_mono(k + 1, (-sc) as nat);
                assert(d * pow10((-sc) as nat) >= d * pow10(k + 1)) by (nonlinear_arith)
                    requires
                        d > 0,
                        pow10(k + 1) <= pow10((-sc) as nat),
                ;
            }
            return None;
        }
        m = m * 10;
        scale = scale + 1;
    }
    Some(m)
}

fn parse_number(cs: &Vec<char>, pos: usize) -> (r: Result<(JsonValue, usize), String>)
    requires
        pos < cs.len(),
        cs@[pos as int] == '-' || is_dec(cs@[pos as int]),
    ensures
        r matches Ok((v, p)) ==> pos < p <= cs.len() && (v matches JsonValue::Number(n) && normalized(n)),
        match r {
            Ok((v, p)) => number_at(cs@, pos as int) == Some((jview(v), p as int)),
            Err(_) => number_at(cs@, pos as int) is None,
        },
{
    let (neg, int_start, int_end, frac_start, frac_end, has_exp, exp_neg, exp_start, exp_end) = scan_number(cs, pos);
    let ghost l = number_layout(cs@, pos as int);
    let start = pos;
    let end = exp_end;
    if (int_end == int_start && frac_end == frac_start) || (has_exp && exp_end == exp_start) {
        return Err(invalid_number(cs, start, end));
    }
    let ghost int_digits = cs@.subrange(int_start as int, int_end as int);
    let ghost digits = int_digits + cs@.subrange(frac_start as int, frac_end as int);
    assert(digits == mantissa_digits(cs@, l));
    assert(Seq::<char>::empty() + int_digits =~= int_digits);
    assert(all_dec(int_digits));
    assert(all_dec(digits)) by {
        assert forall|j: int| 0 <= j < digits.len() implies is_dec(#[trigger] digits[j]) by {
            if j >= int_digits.len() {
                assert(digits[j] == cs@[frac_start + j - int_digits.len()]);
            } else {
                assert(digits[j] == cs@[int_start + j]);
            }
        }
    }
    // mantissa digits: integer part then fraction part
    let (m1, of1) = accumulate_digits(cs, int_start, int_end, 0, Ghost(Seq::empty()));
    let (m, overflow) = if of1 {
        proof {
            assert(digits.take(int_digits.len() as int) =~= int_digits);
            lemma_dec_value_mono(int_digits, digits);
        }
        (m1, true)
    } else {
        accumulate_digits(cs, frac_start, frac_end, m1, Ghost(int_digits))
    };
    if m == 0 && !overflow {
        return Ok((JsonValue::Number(JsonNumber { mantissa: 0, scale: 0 }), end));
    }
    if overflow {
        return Err(invalid_number(cs, start, end));
    }
    let e = match exponent_value(cs, exp_start, exp_end) {
        Some(e) => e,
        None => {
            return Err(invalid_number(cs, start, end));
        },
    };
    let frac_len: i64 = if frac_end - frac_start <= 10000 { (frac_end - frac_start) as i64 } else {
        return Err(invalid_number(cs, start, end));
    };
    let scale: i64 = if exp_neg { frac_len + e } else { frac_len - e };
    assert(scale == number_scale(cs@, l));
    let m = match scale_up(m, scale) {
        Some(x) => x,
        None => {
            return Err(invalid_number(cs, start, end));
        },
    };
    let scale: i64 = if scale < 0 { 0 } else { scale };
    let signed_m = if neg { -m } else { m };
    let n = normalize(signed_m, scale as u32);
    Ok((JsonValue::Number(n), end))
}

/// `expected` spelled out at `pos`.
fn literal_at(cs: &Vec<char>, pos: usize, expected: &str) -> (r: Option<usize>)
    requires
        pos <= cs.len(),
    ensures
        r == (if pos + expected@.len() <= cs@.len() && cs@.subrange(pos as int, pos + expected@.len()) == expected@ {
            Some((pos + expected@.len()) as usize)
        } else {
            None::<usize>
        }),
{
    let w = chars_of(expected);
    if w.len() > cs.len() - pos {
        return None;
    }
    let mut i: usize = 0;
    while i < w.len()
        invariant
            w@ == expected@,
            w.len() <= cs.len() - pos,
            0 <= i <= w.len(),
            cs@.subrange(pos as int, pos + i) == w@.take(i as int),
        decreases w.len() - i,
    {
        if cs[pos + i] != w[i] {
            assert(cs@.subrange(pos as int, pos + w@.len())[i as int] != w@[i as int]);
            return None;
        }
        assert(cs@.subrange(pos as int, pos + i + 1) =~= w@.take(i + 1));
        i = i + 1;
    }
    assert(w@.take(w@.len() as int) =~= w@);
    Some(pos + w.len())
}

/// `w` spelled out at `p` gives `v`.
pub open spec fn literal_spec(cs: Seq<char>, p: int, w: Seq<char>, v: JView) -> Option<(JView, int)> {
    if p + w.len() <= cs.len() && cs.subrange(p, p + w.len()) == w {
        Some((v, p + w.len()))
    } else {
        None
    }
}

fn parse_literal(cs: &Vec<char>, pos: usize, expected: &str, value: JsonValue) -> (r: Result<(JsonValue, usize), String>)
    requires
        pos <= cs.len(),
    ensures
        r matches Ok((_, p)) ==> pos <= p <= cs.len(),
        match r {
            Ok((v, p)) => literal_spec(cs@, pos as int, expected@, jview(value)) == Some((jview(v), p as int)),
            Err(_) => literal_spec(cs@, pos as int, expected@, jview(value)) is None,
        },
{
    match literal_at(cs, pos, expected) {
        Some(p) => Ok((value, p)),
        None => Err(msg_at("Invalid literal at pos ", pos)),
    }
}

/// A JSON value after optional whitespace at `pos`, and the position after it; nothing but
/// whitespace is `null`.
pub open spec fn value_at(cs: Seq<char>, pos: int) -> Option<(JView, int)>
    decreases cs.len() - pos, 1int,
{
    if pos < 0 || pos > cs.len() {
        None
    } else {
        proof {
            lemma_ws_end(cs, pos);
        }
        let p = ws_end(cs, pos);
        if p >= cs.len() {
            Some((JView::Null, p))
        } else {
            let c = cs[p];
            if c == '"' {
                match str_body(cs, p + 1) {
                    Some((t, q)) => Some((JView::Str(t), q)),
                    None => None,
                }
            } else if c == '{' {
                object_at(cs, p)
            } else if c == '[' {
                array_at(cs, p)
            } else if c == 't' {
                literal_spec(cs, p, "true"@, JView::Bool(true))
            } else if c == 'f' {
                literal_spec(cs, p, "false"@, JView::Bool(false))
            } else if c == 'n' {
                literal_spec(cs, p, "null"@, JView::Null)
            } else if c == '-' || is_dec(c) {
                number_at(cs, p)
            } else {
                None
            }
        }
    }
}

/// An object whose `{` is at `p`.
pub open spec fn object_at(cs: Seq<char>, p: int) -> Option<(JView, int)>
    decreases cs.len() - p, 0int,
{
    if p < 0 || p >= cs.len() {
        None
    } else {
        proof {
            lemma_ws_end(cs, p + 1);
        }
        let q = ws_end(cs, p + 1);
        if q < cs.len() && cs[q] == '}' {
            Some((JView::Object(Seq::empty()), q + 1))
        } else {
            match members_at(cs, q) {
                Some((es, e)) => Some((JView::Object(es), e)),
                None => None,
            }
        }
    }
}

/// The members of an object from `p` on (`"key": value`, separated by commas), and the
/// position after the closing `}`.
pub open spec fn members_at(cs: Seq<char>, p: int) -> Option<(Seq<(Seq<char>, JView)>, int)>
    decreases cs.len() - p, 2int,
{
    if p < 0 || p > cs.len() {
        None
    } else {
        match string_at(cs, p) {
            None => None,
            Some((k, q)) => {
                let q1 = ws_end(cs, q);
                if p < q1 && q1 < cs.len() && cs[q1] == ':' {
                    match value_at(cs, q1 + 1) {
                        None => None,
                        Some((v, q3)) => {
                            let q4 = ws_end(cs, q3);
                            if p <= q4 && q4 < cs.len() && cs[q4] == ',' {
                                match members_at(cs, q4 + 1) {
                                    Some((rest, e)) => Some((seq![(k, v)] + rest, e)),
                                    None => None,
                                }
                            } else if q4 < cs.len() && cs[q4] == '}' {
                                Some((seq![(k, v)], q4 + 1))
                            } else {
                                None
                            }
                        },
                    }
                } else {
                    None
                }
            },
        }
    }
}

/// An array whose `[` is at `p`.
pub open spec fn array_at(cs: Seq<char>, p: int) -> Option<(JView, int)>
    decreases cs.len() - p, 0int,
{
    if p < 0 || p >= cs.len() {
        None
    } else {
        proof {
            lemma_ws_end(cs, p + 1);
        }
        let q = ws_end(cs, p + 1);
        if q < cs.len() && cs[q] == ']' {
            Some((JView::Array(Seq::empty()), q + 1))
        } else {
            match elements_at(cs, q) {
                Some((vs, e)) => Some((JView::Array(vs), e)),
                None => None,
            }
        }
    }
}

/// The elements of an array from `p` on (values separated by commas), and the position after
/// the closing `]`.
pub open spec fn elements_at(cs: Seq<char>, p: int) -> Option<(Seq<JView>, int)>
    decreases cs.len() - p, 2int,
{
    if p < 0 || p > cs.len() {
        None
    } else {
        match value_at(cs, p) {
            None => None,
            Some((v, q)) => {
                let q2 = ws_end(cs, q);
                if p <= q2 && q2 < cs.len() && cs[q2] == ',' {
                    match elements_at(cs, q2 + 1) {
                        Some((rest, e)) => Some((seq![v] + rest, e)),
                        None => None,
                    }
                } else if q2 < cs.len() && cs[q2] == ']' {
                    Some((seq![v], q2 + 1))
                } else {
                    None
                }
            },
        }
    }
}

/// What JSON text reads as: `null` when blank, else the value it begins with (text after that
/// value is ignored); `None` where that value is malformed.
pub open spec fn json_read(input: Seq<char>) -> Option<JView> {
    let t = trim(input);
    if t.len() == 0 {
        Some(JView::Null)
    } else {
        match value_at(t, 0) {
            Some((v, _)) => Some(v),
            None => None,
        }
    }
}

pub proof fn lemma_ws_end_idem(cs: Seq<char>, p: int)
    requires
        0 <= p <= cs.len(),
    ensures
        ws_end(cs, ws_end(cs, p)) == ws_end(cs, p),
    decreases cs.len() - p,
{
    if p < cs.len() && json_ws(cs[p]) {
        lemma_ws_end_idem(cs, p + 1);
    }
}

pub open spec fn obj_of(pre: Seq<(Seq<char>, JView)>, o: Option<(Seq<(Seq<char>, JView)>, int)>) -> Option<(JView, int)> {
    match o {
        Some((rest, e)) => Some((JView::Object(pre + rest), e)),
        None => None,
    }
}

pub open spec fn arr_of(pre: Seq<JView>, o: Option<(Seq<JView>, int)>) -> Option<(JView, int)> {
    match o {
        Some((rest, e)) => Some((JView::Array(pre + rest), e)),
        None => None,
    }
}

/// Parse one value starting at `pos`.
fn parse_value(cs: &Vec<char>, pos: usize) -> (r: Result<(JsonValue, usize), String>)
    requires
        pos <= cs.len(),
    ensures
        r matches Ok((_, p)) ==> pos <= p <= cs.len(),
        match r {
            Ok((v, p)) => value_at(cs@, pos as int) == Some((jview(v), p as int)),
            Err(_) => value_at(cs@, pos as int) is None,
        },
    decreases cs.len() - pos, 1int,
{
    let p = skip_ws(cs, pos);
    if p >= cs.len() {
        return Ok((JsonValue::Null, p));
    }
    let c = cs[p];
    if c == '"' {
        match parse_string(cs, p) {
            Ok((s, q)) => Ok((JsonValue::Str(s), q)),
            Err(e) => Err(e),
        }
    } else if c == '{' {
        parse_object(cs, p)
    } else if c == '[' {
        parse_array(cs, p)
    } else if c == 't' {
        parse_literal(cs, p, "true", JsonValue::Bool(true))
    } else if c == 'f' {
        parse_literal(cs, p, "false", JsonValue::Bool(false))
    } else if c == 'n' {
        parse_literal(cs, p, "null", JsonValue::Null)
    } else if c == '-' || ('0' <= c && c <= '9') {
        parse_number(cs, p)
    } else {
        Err(msg_char("Unexpected char '", c, "' at pos ", p))
    }
}

#[verifier::rlimit(50)]
fn parse_object(cs: &Vec<char>, pos: usize) -> (r: Result<(JsonValue, usize), String>)
    requires
        pos < cs.len(),
        cs@[pos as int] == '{',
    ensures
        r matches Ok((_, p)) ==> pos < p <= cs.len(),
        match r {
            Ok((v, p)) => object_at(cs@, pos as int) == Some((jview(v), p as int)),
            Err(_) => object_at(cs@, pos as int) is None,
        },
    decreases cs.len() - pos, 0int,
{
    let mut p = pos + 1;
    let mut entries: Vec<(String, JsonValue)> = Vec::new();
    p = skip_ws(cs, p);
    if p < cs.len() && cs[p] == '}' {
        return Ok((JsonValue::Object(entries), p + 1));
    }
    assert(jview_entries(entries@) =~= Seq::<(Seq<char>, JView)>::empty());
    proof {
        match members_at(cs@, p as int) {
            Some((es, e)) => {
                assert(Seq::<(Seq<char>, JView)>::empty() + es =~= es);
            },
            None => {},
        }
    }
    loop
        invariant
            pos < p <= cs.len(),
            object_at(cs@, pos as int) == obj_of(jview_entries(entries@), members_at(cs@, p as int)),
        decreases cs.len() - p,
    {
        let ghost start = p as int;
        p = skip_ws(cs, p);
        proof {
            lemma_ws_end_idem(cs@, start);
        }
        let (key, q) = match parse_string(cs, p) {
            Ok(kq) => kq,
            Err(e) => return Err(e),
        };
        let q2 = match expect(cs, q, ':') {
            Ok(q2) => q2,
            Err(e) => return Err(e),
        };
        let (value, q3) = match parse_value(cs, q2) {
            Ok(vq) => vq,
            Err(e) => return Err(e),
        };
        let ghost pre = jview_entries(entries@);
        let ghost kv = (key@, jview(value));
        proof {
            lemma_jview_entries_push(entries@, (key, value));
        }
        entries.push((key, value));
        let q4 = skip_ws(cs, q3);
        if q4 < cs.len() && cs[q4] == ',' {
            proof {
                match members_at(cs@, q4 + 1) {
                    Some((rest, e)) => {
                        assert(pre + (seq![kv] + rest) =~= pre.push(kv) + rest);
                    },
                    None => {},
                }
            }
            p = q4 + 1;
        } else if q4 < cs.len() && cs[q4] == '}' {
            assert(pre + seq![kv] =~= pre.push(kv));
            return Ok((JsonValue::Object(entries), q4 + 1));
        } else {
            return Err(msg_at("Expected ',' or '}' at pos ", q4));
        }
    }
}

#[verifier::rlimit(50)]
fn parse_array(cs: &Vec<char>, pos: usize) -> (r: Result<(JsonValue, usize), String>)
    requires
        pos < cs.len(),
        cs@[pos as int] == '[',
    ensures
        r matches Ok((_, p)) ==> pos < p <= cs.len(),
        match r {
            Ok((v, p)) => array_at(cs@, pos as int) == Some((jview(v), p as int)),
            Err(_) => array_at(cs@, pos as int) is None,
        },
    decreases cs.len() - pos, 0int,
{
    let mut p = pos + 1;
    let mut items: Vec<JsonValue> = Vec::new();
    p = skip_ws(cs, p);
    if p < cs.len() && cs[p] == ']' {
        return Ok((JsonValue::Array(items), p + 1));
    }
    assert(jview_list(items@) =~= Seq::<JView>::empty());
    proof {
        match elements_at(cs@, p as int) {
            Some((vs, e)) => {
                assert(Seq::<JView>::empty() + vs =~= vs);
            },
            None => {},
        }
    }
    loop
        invariant
            pos < p <= cs.len(),
            array_at(cs@, pos as int) == arr_of(jview_list(items@), elements_at(cs@, p as int)),
        decreases cs.len() - p,
    {
        let (value, q) = match parse_value(cs, p) {
            Ok(vq) => vq,
            Err(e) => return Err(e),
        };
        let ghost pre = jview_list(items@);
        let ghost v = jview(value);
        proof {
            lemma_jview_list_push(items@, value);
        }
        items.push(value);
        let q2 = skip_ws(cs, q);
        if q2 < cs.len() && cs[q2] == ',' {
            proof {
                match elements_at(cs@, q2 + 1) {
                    Some((rest, e)) => {
                        assert(pre + (seq![v] + rest) =~= pre.push(v) + rest);
                    },
                    None => {},
                }
            }
            p = q2 + 1;
        } else if q2 < cs.len() && cs[q2] == ']' {
            assert(pre + seq![v] =~= pre.push(v));
            return Ok((JsonValue::Array(items), q2 + 1));
        } else {
            return Err(msg_at("Expected ',' or ']' at pos ", q2));
        }
    }
}

/// Parse JSON text; blank text is `null`. Text after the first complete value is ignored.
pub fn parse_json(input: &str) -> (r: Result<JsonValue, String>)
    ensures
        trim(input@).len() == 0 ==> (r matches Ok(v) && jview(v) == JView::Null),
        match r {
            Ok(v) => json_read(input@) == Some(jview(v)),
            Err(_) => json_read(input@) is None,
        },
{
    let t = trim_str(input);
    let cs = chars_of(t.as_str());
    if cs.len() == 0 {
        return Ok(JsonValue::Null);
    }
    match parse_value(&cs, 0) {
        Ok((v, _)) => Ok(v),
        Err(e) => Err(e),
    }
}

} // verus!
