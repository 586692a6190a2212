//! The built-in evaluator of edge and gate expressions: `${var}` and `#var` substitution,
//! then one comparison (`>=`, `<=`, `!=`, `==`, `>`, `<`) or a truth literal.
//!
//! Operands compare as exact decimal numbers when both read as one, as text otherwise.

use vstd::prelude::*;
use crate::json::{pow10, zeros, FlowData, JView};
use crate::text::{
    all_digits, digits_value, digit_val, is_ascii_digit, text_lt, lemma_text_lt_irrefl,
    lemma_text_lt_total, lemma_text_lt_asym, first_occ, occ_from, lemma_occ_from_bounds,
    occurs_at, chars_of, str_eq, str_lt, int_text, trim, trim_vec, find_sub_from, string_of_range,
    push_str, owned, push_char, to_lower, lower_text,
};

verus! {

/// The outcome of comparing two operands.
#[derive(Clone, Copy, PartialEq, Eq, Structural, Debug)]
pub enum ValueOrder {
    Less,
    Equal,
    Greater,
}

pub open spec fn int_order(x: int, y: int) -> ValueOrder {
    if x < y {
        ValueOrder::Less
    } else if x == y {
        ValueOrder::Equal
    } else {
        ValueOrder::Greater
    }
}

/// String order (`str::cmp`).
pub open spec fn text_order(a: Seq<char>, b: Seq<char>) -> ValueOrder {
    if text_lt(a, b) {
        ValueOrder::Less
    } else if a == b {
        ValueOrder::Equal
    } else {
        ValueOrder::Greater
    }
}

/// A decimal operand: an optional sign, then digits with at most one point and at least one
/// digit. Yields (negative, integer digits, fraction digits).
pub open spec fn dec_parts(s: Seq<char>) -> Option<(bool, Seq<char>, Seq<char>)> {
    let neg = s.len() > 0 && s[0] == '-';
    let signed = s.len() > 0 && (s[0] == '-' || s[0] == '+');
    let body = if signed { s.drop_first() } else { s };
    let d = first_occ(body, seq!['.']);
    if d < 0 {
        if body.len() > 0 && all_digits(body) {
            Some((neg, body, Seq::<char>::empty()))
        } else {
            None
        }
    } else {
        let ip = body.subrange(0, d);
        let fp = body.subrange(d + 1, body.len() as int);
        if all_digits(ip) && all_digits(fp) && (ip.len() > 0 || fp.len() > 0) {
            Some((neg, ip, fp))
        } else {
            None
        }
    }
}

/// The value of a decimal operand, as `num / 10^scale` with `scale` the fraction length.
pub open spec fn dec_num(p: (bool, Seq<char>, Seq<char>)) -> int {
    let m = digits_value(p.1 + p.2);
    if p.0 {
        -m
    } else {
        m
    }
}

pub open spec fn dec_order(a: (bool, Seq<char>, Seq<char>), b: (bool, Seq<char>, Seq<char>)) -> ValueOrder {
    int_order(dec_num(a) * pow10(b.2.len()), dec_num(b) * pow10(a.2.len()))
}

/// How two operands compare: as numbers when both are decimals, else as text.
pub open spec fn value_order(l: Seq<char>, r: Seq<char>) -> ValueOrder {
    match (dec_parts(l), dec_parts(r)) {
        (Some(a), Some(b)) => dec_order(a, b),
        _ => text_order(l, r),
    }
}

// ───────────────────────── digit arithmetic ─────────────────────────

proof fn lemma_pow10_pos(n: nat)
    ensures
        pow10(n) > 0,
    decreases n,
{
    if n > 0 {
        lemma_pow10_pos((n - 1) as nat);
    }
}

proof fn lemma_pow10_add(a: nat, b: nat)
    ensures
        pow10(a + b) == pow10(a) * pow10(b),
    decreases b,
{
    if b > 0 {
        lemma_pow10_add(a, (b - 1) as nat);
        assert(pow10(a + b) == 10 * pow10((a + b - 1) as nat));
        let x = pow10(a);
        let y = pow10((b - 1) as nat);
        assert(10 * (x * y) == x * (10 * y)) by (nonlinear_arith);
    }
}

proof fn lemma_dv_append(a: Seq<char>, b: Seq<char>)
    ensures
        digits_value(a + b) == digits_value(a) * pow10(b.len()) + digits_value(b),
    decreases b.len(),
{
    if b.len() == 0 {
        assert(a + b =~= a);
    } else {
        let b1 = b.drop_last();
        lemma_dv_append(a, b1);
        assert((a + b).drop_last() =~= a + b1);
        assert((a + b).last() == b.last());
        let x = digits_value(a);
        let p = pow10(b1.len());
        let y = digits_value(b1);
        assert((x * p + y) * 10 == x * (10 * p) + y * 10) by (nonlinear_arith);
    }
}

proof fn lemma_dv_zeros(k: nat)
    ensures
        digits_value(zeros(k)) == 0,
    decreases k,
{
    if k > 0 {
        lemma_dv_zeros((k - 1) as nat);
        assert(zeros(k).drop_last() =~= zeros((k - 1) as nat));
    }
}

proof fn lemma_dv_bound(s: Seq<char>)
    requires
        all_digits(s),
    ensures
        0 <= digits_value(s) < pow10(s.len()),
    decreases s.len(),
{
    if s.len() > 0 {
        lemma_dv_bound(s.drop_last());
        assert(is_ascii_digit(s[s.len() - 1]));
    }
}

proof fn lemma_dv_zero(s: Seq<char>)
    requires
        all_digits(s),
    ensures
        digits_value(s) == 0 <==> (forall|i: int| 0 <= i < s.len() ==> #[trigger] s[i] == '0'),
    decreases s.len(),
{
    if s.len() > 0 {
        let s1 = s.drop_last();
        lemma_dv_zero(s1);
        lemma_dv_bound(s1);
        assert(is_ascii_digit(s[s.len() - 1]));
        if digits_value(s) == 0 {
            assert forall|i: int| 0 <= i < s.len() implies #[trigger] s[i] == '0' by {
                if i < s.len() - 1 {
                    assert(s1[i] == s[i]);
                }
            }
        } else {
            if forall|i: int| 0 <= i < s.len() ==> #[trigger] s[i] == '0' {
                assert forall|i: int| 0 <= i < s1.len() implies #[trigger] s1[i] == '0' by {
                    assert(s[i] == '0');
                }
                assert(s[s.len() - 1] == '0');
            }
        }
    }
}

/// Equal-length digit runs order as their values do.
proof fn lemma_dv_order(a: Seq<char>, b: Seq<char>)
    requires
        all_digits(a),
        all_digits(b),
        a.len() == b.len(),
    ensures
        text_lt(a, b) <==> digits_value(a) < digits_value(b),
        a == b <==> digits_value(a) == digits_value(b),
    decreases a.len(),
{
    if a.len() == 0 {
        assert(a =~= b);
    } else {
        let a1 = a.drop_first();
        let b1 = b.drop_first();
        assert(a =~= seq![a[0]] + a1);
        assert(b =~= seq![b[0]] + b1);
        lemma_dv_append(seq![a[0]], a1);
        lemma_dv_append(seq![b[0]], b1);
        assert(seq![a[0]].drop_last() =~= Seq::<char>::empty());
        assert(seq![b[0]].drop_last() =~= Seq::<char>::empty());
        assert(seq![a[0]].last() == a[0]);
        assert(seq![b[0]].last() == b[0]);
        assert(digits_value(Seq::<char>::empty()) == 0);
        assert(digits_value(seq![a[0]]) == digit_val(a[0]));
        assert(digits_value(seq![b[0]]) == digit_val(b[0]));
        assert(all_digits(a1)) by {
            assert forall|i: int| 0 <= i < a1.len() implies is_ascii_digit(#[trigger] a1[i]) by {
                assert(a1[i] == a[i + 1]);
            }
        }
        assert(all_digits(b1)) by {
            assert forall|i: int| 0 <= i < b1.len() implies is_ascii_digit(#[trigger] b1[i]) by {
                assert(b1[i] == b[i + 1]);
            }
        }
        lemma_dv_bound(a1);
        lemma_dv_bound(b1);
        lemma_dv_order(a1, b1);
        assert(is_ascii_digit(a[0]));
        assert(is_ascii_digit(b[0]));
        let p = pow10(a1.len());
        let da = digit_val(a[0]);
        let db = digit_val(b[0]);
        let ra = digits_value(a1);
        let rb = digits_value(b1);
        if a[0] != b[0] {
            if da < db {
                assert(da * p + ra < db * p + rb) by (nonlinear_arith)
                    requires
                        da + 1 <= db,
                        0 <= ra < p,
                        0 <= rb,
                ;
            } else {
                assert(db * p + rb < da * p + ra) by (nonlinear_arith)
                    requires
                        db + 1 <= da,
                        0 <= rb < p,
                        0 <= ra,
                ;
            }
            assert(a != b);
        } else {
            if a1 == b1 {
                assert(a =~= b);
            } else {
                assert(a != b) by {
                    if a == b {
                        assert(a1 =~= b1);
                    }
                }
            }
        }
    }
}

// ───────────────────────── executable comparison ─────────────────────────

/// The parts of a decimal operand (see `dec_parts`).
pub fn parse_decimal(s: &Vec<char>) -> (r: Option<(bool, Vec<char>, Vec<char>)>)
    ensures
        match r {
            Some(p) => dec_parts(s@) == Some((p.0, p.1@, p.2@)),
            None => dec_parts(s@) is None,
        },
{
    let n = s.len();
    let neg = n > 0 && s[0] == '-';
    let signed = n > 0 && (s[0] == '-' || s[0] == '+');
    let start: usize = if signed { 1 } else { 0 };
    let ghost body = if signed { s@.drop_first() } else { s@ };
    assert(body =~= s@.subrange(start as int, n as int));
    let mut ip: Vec<char> = Vec::new();
    let mut fp: Vec<char> = Vec::new();
    let mut i: usize = start;
    let mut ok = true;
    // integer digits up to the first point
    while i < n && s[i] != '.'
        invariant
            start <= i <= n,
            n == s.len(),
            body == s@.subrange(start as int, n as int),
            ip@ == s@.subrange(start as int, i as int),
            ok == all_digits(ip@),
            forall|j: int| start <= j < i ==> s@[j] != '.',
        decreases n - i,
    {
        let c = s[i];
        if !('0' <= c && c <= '9') {
            ok = false;
        }
        let ghost before = ip@;
        ip.push(c);
        assert(ip@ =~= s@.subrange(start as int, i + 1));
        proof {
            if ok {
                assert forall|j: int| 0 <= j < ip@.len() implies is_ascii_digit(#[trigger] ip@[j]) by {
                    if j < before.len() {
                        assert(before[j] == ip@[j]);
                    }
                }
            } else {
                if all_digits(ip@) {
                    if is_ascii_digit(c) {
                        assert forall|j: int| 0 <= j < before.len() implies is_ascii_digit(#[trigger] before[j]) by {
                            assert(ip@[j] == before[j]);
                        }
                    }
                    assert(is_ascii_digit(ip@[before.len() as int]));
                }
            }
        }
        i = i + 1;
    }
    proof {
        reveal_with_fuel(occ_from, 2);
    }
    if i == n {
        // no point
        proof {
            assert(ip@ =~= body);
            assert forall|k: int| 0 <= k < body.len() implies !occurs_at(body, seq!['.'], k) by {
                assert(body[k] == s@[start + k]);
                if occurs_at(body, seq!['.'], k) {
                    assert(body.subrange(k, k + 1)[0] == '.');
                }
            }
            lemma_no_occ(body, seq!['.'], 0);
        }
        if ok && ip.len() > 0 {
            return Some((neg, ip, fp));
        } else {
            return None;
        }
    }
    // s[i] is the first point
    proof {
        let d = (i - start) as int;
        assert(body[d] == '.');
        assert forall|k: int| 0 <= k < d implies !occurs_at(body, seq!['.'], k) by {
            assert(body[k] == s@[start + k]);
            if occurs_at(body, seq!['.'], k) {
                assert(body.subrange(k, k + 1)[0] == '.');
            }
        }
        assert(body.subrange(d, d + 1) =~= seq!['.']);
        lemma_first_occ_at(body, seq!['.'], d);
    }
    let mid = i;
    i = i + 1;
    let mut fok = true;
    while i < n
        invariant
            mid < i <= n,
            n == s.len(),
            fp@ == s@.subrange(mid + 1, i as int),
            fok == all_digits(fp@),
        decreases n - i,
    {
        let c = s[i];
        if !('0' <= c && c <= '9') {
            fok = false;
        }
        let ghost before = fp@;
        fp.push(c);
        assert(fp@ =~= s@.subrange(mid + 1, i + 1));
        proof {
            if fok {
                assert forall|j: int| 0 <= j < fp@.len() implies is_ascii_digit(#[trigger] fp@[j]) by {
                    if j < before.len() {
                        assert(before[j] == fp@[j]);
                    }
                }
            } else {
                if all_digits(fp@) {
                    if is_ascii_digit(c) {
                        assert forall|j: int| 0 <= j < before.len() implies is_ascii_digit(#[trigger] before[j]) by {
                            assert(fp@[j] == before[j]);
                        }
                    }
                    assert(is_ascii_digit(fp@[before.len() as int]));
                }
            }
        }
        i = i + 1;
    }
    proof {
        let d = (mid - start) as int;
        assert(ip@ =~= body.subrange(0, d));
        assert(fp@ =~= body.subrange(d + 1, body.len() as int));
    }
    if ok && fok && (ip.len() > 0 || fp.len() > 0) {
        Some((neg, ip, fp))
    } else {
        None
    }
}

proof fn lemma_no_occ(s: Seq<char>, p: Seq<char>, i: int)
    requires
        0 <= i,
        p.len() > 0,
        forall|k: int| i <= k < s.len() ==> !occurs_at(s, p, k),
    ensures
        occ_from(s, p, i) == -1,
    decreases s.len() + 1 - i,
{
    if i + p.len() <= s.len() {
        lemma_no_occ(s, p, i + 1);
    }
}

proof fn lemma_first_occ_at(s: Seq<char>, p: Seq<char>, d: int)
    requires
        0 <= d,
        d + p.len() <= s.len(),
        occurs_at(s, p, d),
        forall|k: int| 0 <= k < d ==> !occurs_at(s, p, k),
    ensures
        first_occ(s, p) == d,
{
    lemma_occ_skip(s, p, 0, d);
}

proof fn lemma_occ_skip(s: Seq<char>, p: Seq<char>, i: int, d: int)
    requires
        0 <= i <= d,
        d + p.len() <= s.len(),
        occurs_at(s, p, d),
        forall|k: int| i <= k < d ==> !occurs_at(s, p, k),
    ensures
        occ_from(s, p, i) == d,
    decreases d - i,
{
    if i < d {
        lemma_occ_skip(s, p, i + 1, d);
    }
}

/// Lexicographic order of two runs of equal length.
fn run_order(a: &Vec<char>, b: &Vec<char>) -> (r: ValueOrder)
    requires
        a.len() == b.len(),
    ensures
        r == text_order(a@, b@),
{
    let mut i: usize = 0;
    while i < a.len()
        invariant
            a.len() == b.len(),
            0 <= i <= a.len(),
            a@.subrange(0, i as int) == b@.subrange(0, i as int),
        decreases a.len() - i,
    {
        if a[i] != b[i] {
            proof {
                lemma_text_lt_prefix(a@, b@, i as int);
            }
            if a[i] < b[i] {
                return ValueOrder::Less;
            } else {
                proof {
                    lemma_text_lt_prefix(b@, a@, i as int);
                    lemma_text_lt_asym(b@, a@);
                }
                return ValueOrder::Greater;
            }
        }
        assert(a@.subrange(0, i + 1) =~= a@.subrange(0, i as int).push(a@[i as int]));
        assert(b@.subrange(0, i + 1) =~= b@.subrange(0, i as int).push(b@[i as int]));
        i = i + 1;
    }
    assert(a@ =~= a@.subrange(0, a.len() as int));
    assert(b@ =~= b@.subrange(0, b.len() as int));
    proof {
        lemma_text_lt_irrefl(a@);
    }
    ValueOrder::Equal
}

/// Past a common prefix, the first differing characters decide `text_lt`.
proof fn lemma_text_lt_prefix(a: Seq<char>, b: Seq<char>, i: int)
    requires
        0 <= i < a.len(),
        i < b.len(),
        a.subrange(0, i) == b.subrange(0, i),
        a[i] != b[i],
    ensures
        text_lt(a, b) == (a[i] < b[i]),
        a != b,
    decreases i,
{
    if i == 0 {
    } else {
        assert(a[0] == a.subrange(0, i)[0]);
        assert(b[0] == b.subrange(0, i)[0]);
        assert(a.drop_first().subrange(0, i - 1) =~= a.subrange(0, i).drop_first());
        assert(b.drop_first().subrange(0, i - 1) =~= b.subrange(0, i).drop_first());
        lemma_text_lt_prefix(a.drop_first(), b.drop_first(), i - 1);
        assert(a.drop_first()[i - 1] == a[i]);
    }
    if a == b {
        assert(a[i] == b[i]);
    }
}

fn zeros_vec(k: usize) -> (r: Vec<char>)
    ensures
        r@ == zeros(k as nat),
{
    let mut v: Vec<char> = Vec::new();
    let mut i: usize = 0;
    while i < k
        invariant
            i <= k,
            v@ == zeros(i as nat),
        decreases k - i,
    {
        v.push('0');
        i = i + 1;
        assert(v@ =~= zeros(i as nat));
    }
    v
}

fn concat4(a: &Vec<char>, b: &Vec<char>, c: &Vec<char>, d: &Vec<char>) -> (r: Vec<char>)
    requires
        a.len() + b.len() + c.len() + d.len() <= usize::MAX,
    ensures
        r@ == a@ + b@ + c@ + d@,
{
    let mut v: Vec<char> = Vec::new();
    let mut i: usize = 0;
    while i < a.len()
        invariant
            i <= a.len(),
            v@ == a@.subrange(0, i as int),
        decreases a.len() - i,
    {
        v.push(a[i]);
        i = i + 1;
        assert(v@ =~= a@.subrange(0, i as int));
    }
    i = 0;
    while i < b.len()
        invariant
            i <= b.len(),
            v@ == a@ + b@.subrange(0, i as int),
        decreases b.len() - i,
    {
        v.push(b[i]);
        i = i + 1;
        assert(v@ =~= a@ + b@.subrange(0, i as int));
    }
    i = 0;
    while i < c.len()
        invariant
            i <= c.len(),
            v@ == a@ + b@ + c@.subrange(0, i as int),
        decreases c.len() - i,
    {
        v.push(c[i]);
        i = i + 1;
        assert(v@ =~= a@ + b@ + c@.subrange(0, i as int));
    }
    i = 0;
    while i < d.len()
        invariant
            i <= d.len(),
            v@ == a@ + b@ + c@ + d@.subrange(0, i as int),
        decreases d.len() - i,
    {
        v.push(d[i]);
        i = i + 1;
        assert(v@ =~= a@ + b@ + c@ + d@.subrange(0, i as int));
    }
    assert(a@.subrange(0, a.len() as int) =~= a@);
    assert(b@.subrange(0, b.len() as int) =~= b@);
    assert(c@.subrange(0, c.len() as int) =~= c@);
    assert(d@.subrange(0, d.len() as int) =~= d@);
    v
}

fn all_zero(v: &Vec<char>) -> (r: bool)
    ensures
        r == (forall|i: int| 0 <= i < v@.len() ==> #[trigger] v@[i] == '0'),
{
    let mut i: usize = 0;
    while i < v.len()
        invariant
            i <= v.len(),
            forall|j: int| 0 <= j < i ==> #[trigger] v@[j] == '0',
        decreases v.len() - i,
    {
        if v[i] != '0' {
            return false;
        }
        i = i + 1;
    }
    true
}

proof fn lemma_all_digits_concat(a: Seq<char>, b: Seq<char>)
    requires
        all_digits(a),
        all_digits(b),
    ensures
        all_digits(a + b),
{
    assert forall|i: int| 0 <= i < (a + b).len() implies is_ascii_digit(#[trigger] (a + b)[i]) by {
        if i < a.len() {
            assert((a + b)[i] == a[i]);
        } else {
            assert((a + b)[i] == b[i - a.len()]);
        }
    }
}

proof fn lemma_zeros_digits(k: nat)
    ensures
        all_digits(zeros(k)),
{
}

/// Order of `ma * 10^sb` and `mb * 10^sa` for magnitudes `ma = ia.fa`, `mb = ib.fb`.
fn magnitude_order(ia: &Vec<char>, fa: &Vec<char>, ib: &Vec<char>, fb: &Vec<char>) -> (r: ValueOrder)
    requires
        all_digits(ia@),
        all_digits(fa@),
        all_digits(ib@),
        all_digits(fb@),
        ia.len() + fa.len() + ib.len() + fb.len() <= usize::MAX,
    ensures
        r == int_order(
            digits_value(ia@ + fa@) * pow10(fb@.len()),
            digits_value(ib@ + fb@) * pow10(fa@.len()),
        ),
{
    let li: usize = if ia.len() >= ib.len() { ia.len() } else { ib.len() };
    let lf: usize = if fa.len() >= fb.len() { fa.len() } else { fb.len() };
    let za = zeros_vec(li - ia.len());
    let ta = zeros_vec(lf - fa.len());
    let zb = zeros_vec(li - ib.len());
    let tb = zeros_vec(lf - fb.len());
    let x = concat4(&za, ia, fa, &ta);
    let y = concat4(&zb, ib, fb, &tb);
    let r = run_order(&x, &y);
    proof {
        let sa = fa@.len();
        let sb = fb@.len();
        let ma = digits_value(ia@ + fa@);
        let mb = digits_value(ib@ + fb@);
        lemma_zeros_digits((li - ia.len()) as nat);
        lemma_zeros_digits((lf - fa.len()) as nat);
        lemma_zeros_digits((li - ib.len()) as nat);
        lemma_zeros_digits((lf - fb.len()) as nat);
        lemma_all_digits_concat(za@, ia@);
        lemma_all_digits_concat(za@ + ia@, fa@);
        lemma_all_digits_concat(za@ + ia@ + fa@, ta@);
        lemma_all_digits_concat(zb@, ib@);
        lemma_all_digits_concat(zb@ + ib@, fb@);
        lemma_all_digits_concat(zb@ + ib@ + fb@, tb@);
        lemma_dv_order(x@, y@);
        // value of x: ma * 10^(lf - sa)
        assert(za@ + ia@ + fa@ =~= za@ + (ia@ + fa@));
        lemma_dv_append(za@, ia@ + fa@);
        lemma_dv_zeros((li - ia.len()) as nat);
        lemma_dv_append(za@ + ia@ + fa@, ta@);
        lemma_dv_zeros((lf - fa.len()) as nat);
        assert(zb@ + ib@ + fb@ =~= zb@ + (ib@ + fb@));
        lemma_dv_append(zb@, ib@ + fb@);
        lemma_dv_zeros((li - ib.len()) as nat);
        lemma_dv_append(zb@ + ib@ + fb@, tb@);
        lemma_dv_zeros((lf - fb.len()) as nat);
        let ka = (lf - sa) as nat;
        let kb = (lf - sb) as nat;
        assert(digits_value(x@) == ma * pow10(ka));
        assert(digits_value(y@) == mb * pow10(kb));
        // rescale both by 10^(sa + sb - lf)
        let c = (sa + sb - lf) as nat;
        lemma_pow10_add(ka, c);
        lemma_pow10_add(kb, c);
        assert(ka + c == sb);
        assert(kb + c == sa);
        lemma_pow10_pos(c);
        let pc = pow10(c);
        let xa = ma * pow10(ka);
        let yb = mb * pow10(kb);
        assert(xa * pc == ma * pow10(sb)) by (nonlinear_arith)
            requires
                xa == ma * pow10(ka),
                pow10(sb) == pow10(ka) * pc,
        ;
        assert(yb * pc == mb * pow10(sa)) by (nonlinear_arith)
            requires
                yb == mb * pow10(kb),
                pow10(sa) == pow10(kb) * pc,
        ;
        assert(xa < yb <==> xa * pc < yb * pc) by (nonlinear_arith)
            requires
                pc > 0,
        ;
        assert(xa == yb <==> xa * pc == yb * pc) by (nonlinear_arith)
            requires
                pc > 0,
        ;
    }
    r
}

/// How two decimal operands compare (see `dec_order`).
fn decimal_order(
    a: &(bool, Vec<char>, Vec<char>),
    b: &(bool, Vec<char>, Vec<char>),
) -> (r: ValueOrder)
    requires
        all_digits(a.1@),
        all_digits(a.2@),
        all_digits(b.1@),
        all_digits(b.2@),
        a.1.len() + a.2.len() + b.1.len() + b.2.len() <= usize::MAX,
    ensures
        r == dec_order((a.0, a.1@, a.2@), (b.0, b.1@, b.2@)),
{
    let m = magnitude_order(&a.1, &a.2, &b.1, &b.2);
    let za = all_zero(&a.1) && all_zero(&a.2);
    let zb = all_zero(&b.1) && all_zero(&b.2);
    proof {
        let ga = a.1@ + a.2@;
        let gb = b.1@ + b.2@;
        lemma_all_digits_concat(a.1@, a.2@);
        lemma_all_digits_concat(b.1@, b.2@);
        lemma_dv_zero(ga);
        lemma_dv_zero(gb);
        lemma_dv_bound(ga);
        lemma_dv_bound(gb);
        if za {
            assert forall|i: int| 0 <= i < ga.len() implies #[trigger] ga[i] == '0' by {
                if i < a.1@.len() {
                    assert(ga[i] == a.1@[i]);
                } else {
                    assert(ga[i] == a.2@[i - a.1@.len()]);
                }
            }
        } else {
            if digits_value(ga) == 0 {
                assert forall|i: int| 0 <= i < a.1@.len() implies #[trigger] a.1@[i] == '0' by {
                    assert(ga[i] == a.1@[i]);
                }
                assert forall|i: int| 0 <= i < a.2@.len() implies #[trigger] a.2@[i] == '0' by {
                    assert(ga[a.1@.len() + i] == a.2@[i]);
                }
            }
        }
        if zb {
            assert forall|i: int| 0 <= i < gb.len() implies #[trigger] gb[i] == '0' by {
                if i < b.1@.len() {
                    assert(gb[i] == b.1@[i]);
                } else {
                    assert(gb[i] == b.2@[i - b.1@.len()]);
                }
            }
        } else {
            if digits_value(gb) == 0 {
                assert forall|i: int| 0 <= i < b.1@.len() implies #[trigger] b.1@[i] == '0' by {
                    assert(gb[i] == b.1@[i]);
                }
                assert forall|i: int| 0 <= i < b.2@.len() implies #[trigger] b.2@[i] == '0' by {
                    assert(gb[b.1@.len() + i] == b.2@[i]);
                }
            }
        }
        assert(za == (digits_value(ga) == 0));
        assert(zb == (digits_value(gb) == 0));
        let ma = digits_value(ga);
        let mb = digits_value(gb);
        lemma_pow10_pos(a.2@.len());
        lemma_pow10_pos(b.2@.len());
        let pa = pow10(a.2@.len());
        let pb = pow10(b.2@.len());
        assert(ma * pb >= 0 && mb * pa >= 0) by (nonlinear_arith)
            requires
                ma >= 0,
                mb >= 0,
                pa > 0,
                pb > 0,
        ;
        assert((ma * pb == 0) == (ma == 0)) by (nonlinear_arith)
            requires
                ma >= 0,
                pb > 0,
        ;
        assert((mb * pa == 0) == (mb == 0)) by (nonlinear_arith)
            requires
                mb >= 0,
                pa > 0,
        ;
        assert((-ma) * pb == -(ma * pb)) by (nonlinear_arith);
        assert((-mb) * pa == -(mb * pa)) by (nonlinear_arith);
    }
    if a.0 && b.0 {
        match m {
            ValueOrder::Less => ValueOrder::Greater,
            ValueOrder::Equal => ValueOrder::Equal,
            ValueOrder::Greater => ValueOrder::Less,
        }
    } else if a.0 {
        if za && zb {
            ValueOrder::Equal
        } else {
            ValueOrder::Less
        }
    } else if b.0 {
        if za && zb {
            ValueOrder::Equal
        } else {
            ValueOrder::Greater
        }
    } else {
        m
    }
}

proof fn lemma_parts_len(s: Seq<char>)
    ensures
        dec_parts(s) matches Some(p) ==> p.1.len() + p.2.len() <= s.len(),
{
    let signed = s.len() > 0 && (s[0] == '-' || s[0] == '+');
    let body = if signed { s.drop_first() } else { s };
    let d = first_occ(body, seq!['.']);
    lemma_occ_from_bounds(body, seq!['.'], 0);
}

/// How two operand texts compare (see `value_order`).
pub fn compare_values(left: &str, right: &str) -> (r: ValueOrder)
    requires
        left@.len() + right@.len() <= usize::MAX,
    ensures
        r == value_order(left@, right@),
{
    let l = chars_of(left);
    let r = chars_of(right);
    match (parse_decimal(&l), parse_decimal(&r)) {
        (Some(a), Some(b)) => {
            proof {
                assert(a.1@.len() + a.2@.len() <= l@.len()) by {
                    lemma_parts_len(l@);
                }
                assert(b.1@.len() + b.2@.len() <= r@.len()) by {
                    lemma_parts_len(r@);
                }
            }
            decimal_order(&a, &b)
        },
        _ => {
            if str_lt(left, right) {
                ValueOrder::Less
            } else if str_eq(left, right) {
                ValueOrder::Equal
            } else {
                ValueOrder::Greater
            }
        },
    }
}


// ───────────────────────── `${var}` substitution ─────────────────────────

/// At most this many `${var}` references are replaced in one expression (a value may itself
/// hold a reference, so replacement need not end on its own).
pub const SUBST_LIMIT: usize = 1000000;

/// What `${name}` is replaced with: the text variable, or `0`.
pub open spec fn dollar_value(args: FlowData, name: Seq<char>) -> Seq<char> {
    match args.lookup(name) {
        Some(JView::Str(t)) => t,
        _ => seq!['0'],
    }
}

/// Repeatedly replace the first `${name}` (up to the first `}` after it) by its value.
pub open spec fn dollar_subst(s: Seq<char>, args: FlowData, fuel: nat) -> Seq<char>
    decreases fuel,
{
    if fuel == 0 {
        s
    } else {
        let st = first_occ(s, seq!['$', '{']);
        if st < 0 {
            s
        } else {
            let e = occ_from(s, seq!['}'], st);
            if e < 0 {
                s
            } else {
                let name = s.subrange(st + 2, e);
                dollar_subst(
                    s.subrange(0, st) + dollar_value(args, name) + s.subrange(e + 1, s.len() as int),
                    args,
                    (fuel - 1) as nat,
                )
            }
        }
    }
}

fn splice(cur: &Vec<char>, st: usize, e: usize, val: &str) -> (r: Vec<char>)
    requires
        st <= e < cur.len(),
    ensures
        r@ == cur@.subrange(0, st as int) + val@ + cur@.subrange(e + 1, cur@.len() as int),
{
    let v = chars_of(val);
    let mut out: Vec<char> = Vec::new();
    let mut i: usize = 0;
    while i < st
        invariant
            i <= st <= e < cur.len(),
            out@ == cur@.subrange(0, i as int),
        decreases st - i,
    {
        out.push(cur[i]);
        i = i + 1;
        assert(out@ =~= cur@.subrange(0, i as int));
    }
    let mut j: usize = 0;
    while j < v.len()
        invariant
            j <= v.len(),
            out@ == cur@.subrange(0, st as int) + v@.subrange(0, j as int),
        decreases v.len() - j,
    {
        out.push(v[j]);
        j = j + 1;
        assert(out@ =~= cur@.subrange(0, st as int) + v@.subrange(0, j as int));
    }
    assert(v@.subrange(0, v.len() as int) =~= v@);
    let mut k: usize = e + 1;
    while k < cur.len()
        invariant
            e + 1 <= k <= cur.len(),
            out@ == cur@.subrange(0, st as int) + v@ + cur@.subrange(e + 1, k as int),
        decreases cur.len() - k,
    {
        out.push(cur[k]);
        k = k + 1;
        assert(out@ =~= cur@.subrange(0, st as int) + v@ + cur@.subrange(e + 1, k as int));
    }
    out
}

/// Replace `${name}` references (see `dollar_subst`).
pub fn substitute_dollar(expr: &str, args: &FlowData) -> (r: Vec<char>)
    ensures
        r@ == dollar_subst(expr@, *args, SUBST_LIMIT as nat),
{
    let open: Vec<char> = vec!['$', '{'];
    let close: Vec<char> = vec!['}'];
    assert(open@ =~= seq!['$', '{']);
    assert(close@ =~= seq!['}']);
    let mut cur = chars_of(expr);
    let mut n: usize = 0;
    let mut done = false;
    while n < SUBST_LIMIT && !done
        invariant
            n <= SUBST_LIMIT,
            open@ == seq!['$', '{'],
            close@ == seq!['}'],
            dollar_subst(cur@, *args, (SUBST_LIMIT - n) as nat) == dollar_subst(expr@, *args, SUBST_LIMIT as nat),
            done ==> dollar_subst(cur@, *args, (SUBST_LIMIT - n) as nat) == cur@,
        decreases SUBST_LIMIT - n + (if done { 0int } else { 1int }),
    {
        match find_sub_from(&cur, &open, 0) {
            None => {
                done = true;
            },
            Some(st) => {
                match find_sub_from(&cur, &close, st) {
                    None => {
                        done = true;
                    },
                    Some(e) => {
                        proof {
                            lemma_occ_from_bounds(cur@, open@, 0);
                            lemma_occ_from_bounds(cur@, close@, st as int);
                            assert(cur@.subrange(st as int, st + 2) == open@);
                            assert(cur@[st as int] == cur@.subrange(st as int, st + 2)[0]);
                            assert(cur@[st + 1] == cur@.subrange(st as int, st + 2)[1]);
                            assert(cur@[e as int] == cur@.subrange(e as int, e + 1)[0]);
                        }
                        let name = string_of_range(&cur, st + 2, e);
                        let val: String = match args.get_str(name.as_str()) {
                            Some(v) => owned(v),
                            None => owned("0"),
                        };
                        proof {
                            reveal_strlit("0");
                            assert("0"@ =~= seq!['0']);
                        }
                        let next = splice(&cur, st, e, val.as_str());
                        cur = next;
                        n = n + 1;
                    },
                }
            },
        }
    }
    cur
}

// ───────────────────────── `#var` substitution ─────────────────────────

pub open spec fn name_start_byte(b: u8) -> bool {
    (65 <= b && b <= 90) || (97 <= b && b <= 122) || b == 95
}

pub open spec fn name_byte(b: u8) -> bool {
    name_start_byte(b) || (48 <= b && b <= 57)
}

/// End of the run of name bytes starting at `j`.
pub open spec fn name_end(bs: Seq<u8>, j: int) -> int
    decreases bs.len() - j,
{
    if 0 <= j < bs.len() && name_byte(bs[j]) {
        name_end(bs, j + 1)
    } else {
        j
    }
}

pub proof fn lemma_name_end(bs: Seq<u8>, j: int)
    requires
        0 <= j <= bs.len(),
    ensures
        j <= name_end(bs, j) <= bs.len(),
        forall|k: int| j <= k < name_end(bs, j) ==> name_byte(#[trigger] bs[k]),
        name_end(bs, j) < bs.len() ==> !name_byte(bs[name_end(bs, j)]),
    decreases bs.len() - j,
{
    if j < bs.len() && name_byte(bs[j]) {
        lemma_name_end(bs, j + 1);
    }
}

/// Bytes read one by one as characters (`u8 as char`).
pub open spec fn byte_chars(bs: Seq<u8>) -> Seq<char> {
    bs.map_values(|b: u8| b as char)
}

/// The value of a `#name` reference: first a text gate variable, then a text argument, then
/// an integer gate variable, then an integer argument; `0` when none is there.
pub open spec fn hash_value(gate: FlowData, args: FlowData, name: Seq<char>) -> Seq<char> {
    if crate::json::jview_as_str_opt(gate.lookup(name)) is Some {
        crate::json::jview_as_str_opt(gate.lookup(name)).unwrap()
    } else if crate::json::jview_as_str_opt(args.lookup(name)) is Some {
        crate::json::jview_as_str_opt(args.lookup(name)).unwrap()
    } else if gate.lookup(name) is Some && crate::json::jview_as_i64(gate.lookup(name).unwrap()) is Some {
        int_text(crate::json::jview_as_i64(gate.lookup(name).unwrap()).unwrap() as int)
    } else if args.lookup(name) is Some && crate::json::jview_as_i64(args.lookup(name).unwrap()) is Some {
        int_text(crate::json::jview_as_i64(args.lookup(name).unwrap()).unwrap() as int)
    } else {
        seq!['0']
    }
}

/// The text from byte `i` on, with each `#name` (a letter or `_`, then letters, digits and `_`)
/// replaced by its value and every other byte read as a character.
pub open spec fn hash_from(bs: Seq<u8>, i: int, gate: FlowData, args: FlowData) -> Seq<char>
    decreases bs.len() - i,
{
    if i < 0 || i >= bs.len() {
        Seq::empty()
    } else if bs[i] == 35 && i + 1 < bs.len() && name_start_byte(bs[i + 1]) {
        proof {
            lemma_name_end(bs, i + 1);
        }
        let e = name_end(bs, i + 1);
        hash_value(gate, args, byte_chars(bs.subrange(i + 1, e))) + hash_from(bs, e, gate, args)
    } else {
        seq![bs[i] as char] + hash_from(bs, i + 1, gate, args)
    }
}

/// The `#name` value (see `hash_value`).
fn lookup_hash(gate: &FlowData, args: &FlowData, name: &str) -> (r: String)
    ensures
        r@ == hash_value(*gate, *args, name@),
{
    match gate.get_str(name) {
        Some(t) => return owned(t),
        None => {},
    }
    match args.get_str(name) {
        Some(t) => return owned(t),
        None => {},
    }
    match gate.get_i64(name) {
        Some(n) => return crate::text::i64_text(n),
        None => {},
    }
    match args.get_i64(name) {
        Some(n) => return crate::text::i64_text(n),
        None => {},
    }
    proof {
        reveal_strlit("0");
    }
    let z = owned("0");
    assert(z@ =~= seq!['0']);
    z
}

/// Replace `#name` references in `s` (see `hash_from`), reading `s` byte by byte.
pub fn substitute_hash(s: &str, gate: &FlowData, args: &FlowData) -> (r: String)
    ensures
        r@ == hash_from(vstd::utf8::encode_utf8(s@), 0, *gate, *args),
{
    let bytes = s.as_bytes();
    let ghost bs = bytes@;
    let mut out = String::new();
    let mut i: usize = 0;
    assert(out@ =~= Seq::<char>::empty());
    assert(Seq::<char>::empty() + hash_from(bs, 0, *gate, *args) =~= hash_from(bs, 0, *gate, *args));
    while i < bytes.len()
        invariant
            bs == bytes@,
            bs == vstd::utf8::encode_utf8(s@),
            i <= bytes.len(),
            out@ + hash_from(bs, i as int, *gate, *args) == hash_from(bs, 0, *gate, *args),
        decreases bytes.len() - i,
    {
        let b = bytes[i];
        if b == 35 && i + 1 < bytes.len() && is_name_start(bytes[i + 1]) {
            let mut e: usize = i + 1;
            let mut name = String::new();
            proof {
                lemma_name_end(bs, i + 1);
            }
            while e < bytes.len() && is_name_byte(bytes[e])
                invariant
                    bs == bytes@,
                    i + 1 <= e <= bytes.len(),
                    name_end(bs, i + 1) == name_end(bs, e as int),
                    name@ == byte_chars(bs.subrange(i + 1, e as int)),
                decreases bytes.len() - e,
            {
                let c: char = bytes[e] as char;
                push_char(&mut name, c);
                e = e + 1;
                assert(name@ =~= byte_chars(bs.subrange(i + 1, e as int)));
            }
            let v = lookup_hash(gate, args, name.as_str());
            let ghost before = out@;
            push_str(&mut out, v.as_str());
            assert(name_end(bs, e as int) == e);
            assert(hash_from(bs, i as int, *gate, *args)
                == hash_value(*gate, *args, name@) + hash_from(bs, e as int, *gate, *args));
            assert(before + hash_from(bs, i as int, *gate, *args)
                =~= out@ + hash_from(bs, e as int, *gate, *args));
            i = e;
        } else {
            let ghost before = out@;
            let c: char = b as char;
            push_char(&mut out, c);
            assert(hash_from(bs, i as int, *gate, *args) == seq![b as char] + hash_from(bs, i + 1, *gate, *args));
            assert(before + hash_from(bs, i as int, *gate, *args)
                =~= out@ + hash_from(bs, i + 1, *gate, *args));
            i = i + 1;
        }
    }
    assert(out@ + hash_from(bs, i as int, *gate, *args) =~= out@);
    out
}

fn is_name_start(b: u8) -> (r: bool)
    ensures
        r == name_start_byte(b),
{
    (65 <= b && b <= 90) || (97 <= b && b <= 122) || b == 95
}

fn is_name_byte(b: u8) -> (r: bool)
    ensures
        r == name_byte(b),
{
    is_name_start(b) || (48 <= b && b <= 57)
}

/// The text an expression evaluates over: `${name}` references replaced first, then
/// `#name` references.
pub open spec fn resolved_text(expr: Seq<char>, args: FlowData, gate: FlowData) -> Seq<char> {
    hash_from(vstd::utf8::encode_utf8(dollar_subst(expr, args, SUBST_LIMIT as nat)), 0, gate, args)
}

/// Resolve the variable references of an expression (see `resolved_text`).
pub fn resolve_var_refs(expr: &str, args: &FlowData, gate: &FlowData) -> (r: String)
    ensures
        r@ == resolved_text(expr@, *args, *gate),
{
    let v = substitute_dollar(expr, args);
    let s = crate::text::string_of(&v);
    substitute_hash(s.as_str(), gate, args)
}


// ───────────────────────── evaluation ─────────────────────────

/// The comparison operators, in the order they are looked for.
pub open spec fn comparison_ops() -> Seq<Seq<char>> {
    seq![seq!['>', '='], seq!['<', '='], seq!['!', '='], seq!['=', '='], seq!['>'], seq!['<']]
}

/// Whether an operator (by its place in `comparison_ops`) holds of an order.
pub open spec fn op_accepts(k: int, o: ValueOrder) -> bool {
    if k == 0 {
        o != ValueOrder::Less
    } else if k == 1 {
        o != ValueOrder::Greater
    } else if k == 2 {
        o != ValueOrder::Equal
    } else if k == 3 {
        o == ValueOrder::Equal
    } else if k == 4 {
        o == ValueOrder::Greater
    } else {
        o == ValueOrder::Less
    }
}

/// The first operator, from `k` on, that occurs in `r`, with the place of its first occurrence.
pub open spec fn first_op(r: Seq<char>, k: int) -> Option<(int, int)>
    decreases 6 - k,
{
    if k < 0 || k >= 6 {
        None
    } else if first_occ(r, comparison_ops()[k]) >= 0 {
        Some((k, first_occ(r, comparison_ops()[k])))
    } else {
        first_op(r, k + 1)
    }
}

/// The truth of a text without an operator, given its lowercase form.
pub open spec fn literal_truth(r: Seq<char>, lowered: Seq<char>) -> bool {
    if lowered == seq!['t', 'r', 'u', 'e'] {
        true
    } else if lowered == seq!['f', 'a', 'l', 's', 'e'] {
        false
    } else {
        r.len() > 0 && r != seq!['0'] && r != seq!['n', 'u', 'l', 'l']
    }
}

/// The truth of a resolved expression `r` whose lowercase form is `lowered`: the first operator
/// found splits it into two trimmed operands, else it is read as a literal.
pub open spec fn eval_resolved(r: Seq<char>, lowered: Seq<char>) -> bool {
    match first_op(r, 0) {
        Some((k, p)) => op_accepts(
            k,
            value_order(
                trim(r.subrange(0, p)),
                trim(r.subrange(p + comparison_ops()[k].len(), r.len() as int)),
            ),
        ),
        None => literal_truth(r, lowered),
    }
}

/// The truth of an expression over step variables `args` and gate variables `gate`.
pub open spec fn simple_eval_spec(expr: Seq<char>, args: FlowData, gate: FlowData) -> bool {
    eval_resolved(
        resolved_text(trim(expr), args, gate),
        lower_text(resolved_text(trim(expr), args, gate)),
    )
}

proof fn lemma_trim_len(s: Seq<char>)
    ensures
        trim(s).len() <= s.len(),
{
    lemma_trim_start_len(s);
    lemma_trim_end_len(crate::text::trim_start(s));
}

proof fn lemma_trim_start_len(s: Seq<char>)
    ensures
        crate::text::trim_start(s).len() <= s.len(),
    decreases s.len(),
{
    if s.len() > 0 {
        lemma_trim_start_len(s.drop_first());
    }
}

proof fn lemma_trim_end_len(s: Seq<char>)
    ensures
        crate::text::trim_end(s).len() <= s.len(),
    decreases s.len(),
{
    if s.len() > 0 {
        lemma_trim_end_len(s.drop_last());
    }
}

fn op_chars(k: usize) -> (r: Vec<char>)
    requires
        k < 6,
    ensures
        r@ == comparison_ops()[k as int],
{
    let v: Vec<char> = if k == 0 {
        vec!['>', '=']
    } else if k == 1 {
        vec!['<', '=']
    } else if k == 2 {
        vec!['!', '=']
    } else if k == 3 {
        vec!['=', '=']
    } else if k == 4 {
        vec!['>']
    } else {
        vec!['<']
    };
    assert(v@ =~= comparison_ops()[k as int]);
    v
}

fn op_holds(k: usize, o: ValueOrder) -> (r: bool)
    ensures
        r == op_accepts(k as int, o),
{
    if k == 0 {
        o != ValueOrder::Less
    } else if k == 1 {
        o != ValueOrder::Greater
    } else if k == 2 {
        o != ValueOrder::Equal
    } else if k == 3 {
        o == ValueOrder::Equal
    } else if k == 4 {
        o == ValueOrder::Greater
    } else {
        o == ValueOrder::Less
    }
}

/// The truth of a resolved expression, given its lowercase form (see `eval_resolved`).
pub fn evaluate_resolved(resolved: &str, lowered: &str) -> (r: bool)
    ensures
        r == eval_resolved(resolved@, lowered@),
{
    let rv = chars_of(resolved);
    let mut k: usize = 0;
    while k < 6
        invariant
            rv@ == resolved@,
            k <= 6,
            first_op(rv@, 0) == first_op(rv@, k as int),
        decreases 6 - k,
    {
        let op = op_chars(k);
        match find_sub_from(&rv, &op, 0) {
            Some(p) => {
                proof {
                    lemma_occ_from_bounds(rv@, op@, 0);
                }
                let left = trim_vec_range(&rv, 0, p);
                let right = trim_vec_range(&rv, p + op.len(), rv.len());
                proof {
                    lemma_trim_len(rv@.subrange(0, p as int));
                    lemma_trim_len(rv@.subrange(p + op@.len(), rv@.len() as int));
                }
                let o = compare_values(left.as_str(), right.as_str());
                return op_holds(k, o);
            },
            None => {},
        }
        k = k + 1;
    }
    proof {
        reveal_strlit("true");
        reveal_strlit("false");
        reveal_strlit("0");
        reveal_strlit("null");
        assert("true"@ =~= seq!['t', 'r', 'u', 'e']);
        assert("false"@ =~= seq!['f', 'a', 'l', 's', 'e']);
        assert("0"@ =~= seq!['0']);
        assert("null"@ =~= seq!['n', 'u', 'l', 'l']);
    }
    if str_eq(lowered, "true") {
        true
    } else if str_eq(lowered, "false") {
        false
    } else {
        !resolved.is_empty() && !str_eq(resolved, "0") && !str_eq(resolved, "null")
    }
}

fn trim_vec_range(v: &Vec<char>, lo: usize, hi: usize) -> (r: String)
    requires
        lo <= hi <= v.len(),
    ensures
        r@ == trim(v@.subrange(lo as int, hi as int)),
{
    let s = string_of_range(v, lo, hi);
    crate::text::trim_str(s.as_str())
}

/// The built-in evaluation of an expression (see `simple_eval_spec`).
pub fn simple_eval(expr: &str, args: &FlowData, gate: &FlowData) -> (r: bool)
    ensures
        r == simple_eval_spec(expr@, *args, *gate),
{
    let t = crate::text::trim_str(expr);
    let resolved = resolve_var_refs(t.as_str(), args, gate);
    let lowered = to_lower(resolved.as_str());
    evaluate_resolved(resolved.as_str(), lowered.as_str())
}



// ───────────────────────── laws of the comparisons ─────────────────────────

/// An operand text without a comparison character (`>`, `<`, `!`, `=`).
pub open spec fn plain_operand(a: Seq<char>) -> bool {
    forall|i: int| 0 <= i < a.len() ==> a[i] != '>' && a[i] != '<' && a[i] != '!' && a[i] != '='
}

proof fn lemma_occ_none(s: Seq<char>, p: Seq<char>, i: int)
    requires
        0 <= i,
        p.len() > 0,
        forall|m: int| i <= m ==> !#[trigger] occurs_at(s, p, m),
    ensures
        occ_from(s, p, i) == -1,
    decreases s.len() + 1 - i,
{
    if i + p.len() <= s.len() {
        lemma_occ_none(s, p, i + 1);
    }
}

proof fn lemma_occ_first(s: Seq<char>, p: Seq<char>, i: int, j: int)
    requires
        0 <= i <= j,
        occurs_at(s, p, j),
        forall|m: int| i <= m < j ==> !#[trigger] occurs_at(s, p, m),
    ensures
        occ_from(s, p, i) == j,
    decreases j - i,
{
    if i < j {
        lemma_occ_first(s, p, i + 1, j);
    }
}

/// In `a`, an operator, `b` with plain operands, the operator is the first one found, where it
/// stands.
proof fn lemma_first_op_split(a: Seq<char>, b: Seq<char>, k: int)
    requires
        plain_operand(a),
        plain_operand(b),
        0 <= k < 6,
    ensures
        first_op(a + comparison_ops()[k] + b, 0) == Some((k, a.len() as int)),
{
    let ops = comparison_ops();
    let op = ops[k];
    let r = a + op + b;
    let n = a.len() as int;
    assert forall|m: int| 0 <= m < r.len() implies #[trigger] r[m] == (if m < n { a[m] } else if m < n + op.len() {
        op[m - n]
    } else {
        b[m - n - op.len()]
    }) by {}
    assert forall|j: int, m: int| 0 <= j < k implies !#[trigger] occurs_at(r, ops[j], m) by {
        let q = ops[j];
        if occurs_at(r, q, m) {
            assert(r.subrange(m, m + q.len())[0] == r[m]);
            assert(r[m] == q[0]);
            if q.len() == 2 {
                assert(r.subrange(m, m + q.len())[1] == r[m + 1]);
                assert(r[m + 1] == q[1]);
            }
        }
    }
    assert forall|m: int| 0 <= m < n implies !#[trigger] occurs_at(r, op, m) by {
        if occurs_at(r, op, m) {
            assert(r.subrange(m, m + op.len())[0] == r[m]);
        }
    }
    assert(r.subrange(n, n + op.len()) =~= op);
    lemma_occ_first(r, op, 0, n);
    assert forall|j: int| 0 <= j < k implies first_occ(r, #[trigger] ops[j]) == -1 by {
        lemma_occ_none(r, ops[j], 0);
    }
    reveal_with_fuel(first_op, 7);
    if k >= 1 {
        assert(first_occ(r, ops[0]) == -1);
    }
    if k >= 2 {
        assert(first_occ(r, ops[1]) == -1);
    }
    if k >= 3 {
        assert(first_occ(r, ops[2]) == -1);
    }
    if k >= 4 {
        assert(first_occ(r, ops[3]) == -1);
    }
    if k >= 5 {
        assert(first_occ(r, ops[4]) == -1);
    }
}

/// The operands of `a`, an operator, `b` are `a` and `b`, trimmed.
proof fn lemma_eval_split(a: Seq<char>, b: Seq<char>, k: int, lowered: Seq<char>)
    requires
        plain_operand(a),
        plain_operand(b),
        0 <= k < 6,
    ensures
        eval_resolved(a + comparison_ops()[k] + b, lowered) == op_accepts(k, value_order(trim(a), trim(b))),
{
    lemma_first_op_split(a, b, k);
    let op = comparison_ops()[k];
    let r = a + op + b;
    assert(r.subrange(0, a.len() as int) =~= a);
    assert(r.subrange((a.len() + op.len()) as int, r.len() as int) =~= b);
}

/// The comparisons of a condition `a OP b` (operands without comparison characters) mean what
/// they say over the order of the trimmed operands: `==` holds exactly when they are equal,
/// `!=` exactly when `==` does not, `>` and `<` when the left one is greater or less, and `>=`
/// and `<=` when `>` or `<` holds or `==` does.
pub proof fn law_comparisons(a: Seq<char>, b: Seq<char>, lowered: Seq<char>)
    requires
        plain_operand(a),
        plain_operand(b),
    ensures
        eval_resolved(a + seq!['=', '='] + b, lowered) == (value_order(trim(a), trim(b)) == ValueOrder::Equal),
        eval_resolved(a + seq!['!', '='] + b, lowered) == !eval_resolved(a + seq!['=', '='] + b, lowered),
        eval_resolved(a + seq!['>'] + b, lowered) == (value_order(trim(a), trim(b)) == ValueOrder::Greater),
        eval_resolved(a + seq!['<'] + b, lowered) == (value_order(trim(a), trim(b)) == ValueOrder::Less),
        eval_resolved(a + seq!['>', '='] + b, lowered) == (eval_resolved(a + seq!['>'] + b, lowered)
            || eval_resolved(a + seq!['=', '='] + b, lowered)),
        eval_resolved(a + seq!['<', '='] + b, lowered) == (eval_resolved(a + seq!['<'] + b, lowered)
            || eval_resolved(a + seq!['=', '='] + b, lowered)),
{
    let ops = comparison_ops();
    assert(ops[0] =~= seq!['>', '=']);
    assert(ops[1] =~= seq!['<', '=']);
    assert(ops[2] =~= seq!['!', '=']);
    assert(ops[3] =~= seq!['=', '=']);
    assert(ops[4] =~= seq!['>']);
    assert(ops[5] =~= seq!['<']);
    lemma_eval_split(a, b, 0, lowered);
    lemma_eval_split(a, b, 1, lowered);
    lemma_eval_split(a, b, 2, lowered);
    lemma_eval_split(a, b, 3, lowered);
    lemma_eval_split(a, b, 4, lowered);
    lemma_eval_split(a, b, 5, lowered);
}

} // verus!
