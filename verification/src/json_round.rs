//! Writing and reading back: JSON text that `to_json_string` writes reads back, through
//! `parse_json`, as the value it was written from.

use vstd::prelude::*;
use crate::json::{entries_text, escape_char, escape_text, hex_digit, items_text, json_text, number_text, quoted, zeros, JView};
use crate::json_parse::{
    all_dec, code_text, dec_value, digit_end, elements_at, hex4_spec, hex_val_spec, hex_value, i128_max, is_dec,
    json_read, json_ws, literal_spec, members_at, norm, number_at, number_layout, number_scale, mantissa_digits,
    prepend, simple_escape, str_body, value_at, ws_end,
};
use crate::text::{int_text, is_ws, nat_digits, trim, trim_end, trim_start};

verus! {

proof fn lemma_hex_digit(d: nat)
    requires
        d < 16,
    ensures
        hex_val_spec(hex_digit(d)) == Some(d),
        !json_ws(hex_digit(d)),
{
}

proof fn lemma_escape_text_append(a: Seq<char>, b: Seq<char>)
    ensures
        escape_text(a + b) == escape_text(a) + escape_text(b),
    decreases b.len(),
{
    if b.len() == 0 {
        assert(a + b =~= a);
        assert(escape_text(a) + escape_text(b) =~= escape_text(a));
    } else {
        lemma_escape_text_append(a, b.drop_last());
        assert((a + b).drop_last() =~= a + b.drop_last());
        assert((a + b).last() == b.last());
        assert(escape_text(a) + escape_text(b) =~= escape_text(a) + escape_text(b.drop_last()) + escape_char(b.last()));
    }
}

proof fn lemma_escape_text_cons(s: Seq<char>)
    requires
        s.len() > 0,
    ensures
        escape_text(s) == escape_char(s[0]) + escape_text(s.drop_first()),
{
    assert(s =~= seq![s[0]] + s.drop_first());
    lemma_escape_text_append(seq![s[0]], s.drop_first());
    assert(seq![s[0]].drop_last() =~= Seq::<char>::empty());
    assert(escape_text(Seq::<char>::empty()) == Seq::<char>::empty());
    assert(Seq::<char>::empty() + escape_char(s[0]) =~= escape_char(s[0]));
    assert(escape_text(seq![s[0]]) =~= escape_char(s[0]));
}

/// The body of a written string literal reads back as the text it was written from.
proof fn lemma_str_body_escaped(cs: Seq<char>, p: int, t: Seq<char>)
    requires
        0 <= p,
        p + escape_text(t).len() + 1 <= cs.len(),
        cs.subrange(p, p + escape_text(t).len()) == escape_text(t),
        cs[p + escape_text(t).len()] == '"',
    ensures
        str_body(cs, p) == Some((t, p + escape_text(t).len() + 1)),
    decreases t.len(),
{
    if t.len() == 0 {
        assert(p + escape_text(t).len() == p);
    } else {
        let c = t[0];
        let rest = t.drop_first();
        lemma_escape_text_cons(t);
        let e = escape_char(c);
        let n = e.len() as int;
        assert(cs.subrange(p + n, p + n + escape_text(rest).len()) =~= escape_text(rest)) by {
            assert forall|j: int| 0 <= j < escape_text(rest).len() implies cs[p + n + j] == escape_text(rest)[j] by {
                assert(cs.subrange(p, p + escape_text(t).len())[n + j] == escape_text(t)[n + j]);
            }
        }
        assert forall|j: int| 0 <= j < n implies cs[p + j] == e[j] by {
            assert(cs.subrange(p, p + escape_text(t).len())[j] == escape_text(t)[j]);
        }
        assert(p + n + escape_text(rest).len() == p + escape_text(t).len());
        lemma_str_body_escaped(cs, p + n, rest);
        assert(seq![c] + rest =~= t);
        if c == '"' || c == '\\' || c == '\n' || c == '\r' || c == '\t' {
            assert(cs[p] == '\\');
            assert(simple_escape(cs[p + 1]) == Some(c));
        } else if (c as nat) < 0x20 {
            let code = c as nat;
            lemma_hex_digit(code / 16);
            lemma_hex_digit(code % 16);
            let w = cs.subrange(p + 2, p + 6);
            assert(w =~= seq!['0', '0', hex_digit(code / 16), hex_digit(code % 16)]);
            let w3 = seq!['0', '0', hex_digit(code / 16)];
            let w2 = seq!['0', '0'];
            let w1 = seq!['0'];
            assert(w.drop_last() =~= w3);
            assert(w3.drop_last() =~= w2);
            assert(w2.drop_last() =~= w1);
            assert(w1.drop_last() =~= Seq::<char>::empty());
            assert(hex_value(Seq::<char>::empty()) == Some(0nat));
            assert(hex_val_spec('0') == Some(0nat));
            assert(hex_value(w1) == Some(0nat));
            assert(hex_value(w2) == Some(0nat));
            assert(hex_value(w3) == Some(code / 16));
            assert(hex_value(w) == Some((code / 16) * 16 + code % 16));
            assert(hex4_spec(w) == Some(code));
            vstd::utf8::char_u32_cast(c, c as u32);
            assert(code == (c as u32) as nat);
            assert((code as char) == c);
            assert(code_text(code) =~= seq![c]);
            assert(simple_escape(cs[p + 1]) is None);
        } else {
            assert(cs[p] == c);
        }
    }
}


proof fn lemma_dec_nat_digits(n: nat)
    ensures
        nat_digits(n).len() > 0,
        all_dec(nat_digits(n)),
        dec_value(nat_digits(n)) == n,
    decreases n,
{
    if n < 10 {
        assert(('0' as nat) + n <= 0x39);
        let c = (('0' as nat) + n) as char;
        assert(c as int == ('0' as nat) + n);
        assert(nat_digits(n) == seq![c]);
        assert(nat_digits(n).drop_last() =~= Seq::<char>::empty());
        assert(dec_value(nat_digits(n)) == dec_value(nat_digits(n).drop_last()) * 10 + ((c as int) - 48) as nat);
    } else {
        assert(('0' as nat) + n % 10 <= 0x39);
        let c = (('0' as nat) + n % 10) as char;
        assert(c as int == ('0' as nat) + n % 10);
        lemma_dec_nat_digits(n / 10);
        let d = nat_digits(n);
        assert(d == nat_digits(n / 10).push(c));
        assert(d.drop_last() =~= nat_digits(n / 10));
        assert(dec_value(d) == dec_value(nat_digits(n / 10)) * 10 + ((c as int) - 48) as nat);
        assert forall|j: int| 0 <= j < d.len() implies is_dec(#[trigger] d[j]) by {
            if j < d.len() - 1 {
                assert(d[j] == nat_digits(n / 10)[j]);
            }
        }
    }
}

proof fn lemma_dec_zeros(k: nat, x: Seq<char>)
    ensures
        dec_value(zeros(k) + x) == dec_value(x),
    decreases x.len(), k,
{
    if x.len() == 0 {
        assert(zeros(k) + x =~= zeros(k));
        if k > 0 {
            assert(zeros(k).drop_last() =~= zeros((k - 1) as nat));
            lemma_dec_zeros((k - 1) as nat, x);
            assert(zeros((k - 1) as nat) + x =~= zeros((k - 1) as nat));
        }
    } else {
        lemma_dec_zeros(k, x.drop_last());
        assert((zeros(k) + x).drop_last() =~= zeros(k) + x.drop_last());
    }
}

proof fn lemma_digit_end_run(cs: Seq<char>, a: int, n: int)
    requires
        0 <= a,
        0 <= n,
        a + n <= cs.len(),
        forall|j: int| a <= j < a + n ==> is_dec(#[trigger] cs[j]),
        a + n == cs.len() || !is_dec(cs[a + n]),
    ensures
        digit_end(cs, a) == a + n,
    decreases n,
{
    if n > 0 {
        lemma_digit_end_run(cs, a + 1, n - 1);
    }
}

/// Whether `m / 10^s` is a number the writer writes and the reader reads back: in normal
/// form, with its mantissa and fraction within the reader's range.
pub open spec fn number_writable(m: int, s: nat) -> bool {
    &&& s == 0 || m % 10 != 0
    &&& -i128_max() <= m <= i128_max()
    &&& s <= 10000
}

/// Nothing more of a number follows at `q`.
pub open spec fn ends_token(cs: Seq<char>, q: int) -> bool {
    q == cs.len() || cs[q] == ',' || cs[q] == ']' || cs[q] == '}'
}

/// A written number reads back as itself.
proof fn lemma_number_written(cs: Seq<char>, p: int, m: int, s: nat)
    requires
        number_writable(m, s),
        0 <= p,
        p + number_text(m, s).len() <= cs.len(),
        cs.subrange(p, p + number_text(m, s).len()) == number_text(m, s),
        ends_token(cs, p + number_text(m, s).len()),
    ensures
        number_text(m, s).len() > 0,
        number_at(cs, p) == Some((JView::Number(m, s), p + number_text(m, s).len())),
{
    let t = number_text(m, s);
    let a: nat = if m < 0 { (-m) as nat } else { m as nat };
    let nd = nat_digits(a);
    lemma_dec_nat_digits(a);
    let sign = if m < 0 { seq!['-'] } else { Seq::<char>::empty() };
    let sl = sign.len() as int;
    let end = p + t.len();
    assert forall|j: int| 0 <= j < t.len() implies cs[p + j] == #[trigger] t[j] by {
        assert(cs.subrange(p, end)[j] == t[j]);
    }
    let l = number_layout(cs, p);
    if s == 0 {
        assert(t == sign + nd);
        assert(cs[p] == t[0]);
        assert(l.neg == (m < 0));
        assert(l.a == p + sl);
        assert forall|j: int| p + sl <= j < p + sl + nd.len() implies is_dec(#[trigger] cs[j]) by {
            assert(cs[j] == t[j - p]);
            assert(t[j - p] == nd[j - p - sl]);
        }
        lemma_digit_end_run(cs, p + sl, nd.len() as int);
        assert(l.b == end);
        assert forall|j: int| 0 <= j < nd.len() implies cs.subrange(l.a, l.b)[j] == nd[j] by {
            assert(cs[l.a + j] == t[sl + j]);
        }
        assert(cs.subrange(l.a, l.b) =~= nd);
        assert(mantissa_digits(cs, l) =~= nd);
        assert(cs.subrange(l.es, l.ee) =~= Seq::<char>::empty());
        assert(number_scale(cs, l) == 0);
    } else {
        let padded = if nd.len() < s + 1 { zeros((s + 1 - nd.len()) as nat) + nd } else { nd };
        let il = padded.len() - s;
        let ip = padded.take(il);
        let fp = padded.skip(il);
        assert(t == sign + ip + seq!['.'] + fp);
        assert(dec_value(padded) == a) by {
            if nd.len() < s + 1 {
                lemma_dec_zeros((s + 1 - nd.len()) as nat, nd);
            }
        }
        assert(all_dec(padded)) by {
            assert forall|j: int| 0 <= j < padded.len() implies is_dec(#[trigger] padded[j]) by {
                if nd.len() < s + 1 {
                    let z = (s + 1 - nd.len()) as int;
                    if j >= z {
                        assert(padded[j] == nd[j - z]);
                    }
                }
            }
        }
        assert(a != 0);
        assert(cs[p] == t[0]);
        assert(t[0] == if m < 0 { '-' } else { padded[0] });
        assert(l.neg == (m < 0));
        assert(l.a == p + sl);
        assert forall|j: int| p + sl <= j < p + sl + il implies is_dec(#[trigger] cs[j]) by {
            assert(cs[j] == t[j - p]);
            assert(t[j - p] == padded[j - p - sl]);
        }
        assert(cs[p + sl + il] == t[sl + il]);
        lemma_digit_end_run(cs, p + sl, il);
        assert(l.b == p + sl + il);
        assert(l.fs == p + sl + il + 1);
        assert forall|j: int| l.fs <= j < l.fs + s implies is_dec(#[trigger] cs[j]) by {
            assert(cs[j] == t[j - p]);
            assert(t[j - p] == padded[j - p - sl - 1]);
        }
        lemma_digit_end_run(cs, l.fs, s as int);
        assert(l.fe == end);
        assert forall|j: int| 0 <= j < il implies cs.subrange(l.a, l.b)[j] == ip[j] by {
            assert(cs[l.a + j] == t[sl + j]);
        }
        assert(cs.subrange(l.a, l.b) =~= ip);
        assert forall|j: int| 0 <= j < s implies cs.subrange(l.fs, l.fe)[j] == fp[j] by {
            assert(cs[l.fs + j] == t[sl + il + 1 + j]);
        }
        assert(cs.subrange(l.fs, l.fe) =~= fp);
        assert(mantissa_digits(cs, l) =~= padded);
        assert(cs.subrange(l.es, l.ee) =~= Seq::<char>::empty());
        assert(number_scale(cs, l) == s as int);
        assert(norm(m, s) == (m, s));
    }
}


/// Whether a value reads back as itself once written: every number in it is one the writer
/// writes and the reader reads back (see `number_writable`).
pub open spec fn json_writable(v: JView) -> bool
    decreases v,
{
    match v {
        JView::Number(m, s) => number_writable(m, s),
        JView::Array(items) => forall|i: int| 0 <= i < items.len() ==> json_writable(#[trigger] items[i]),
        JView::Object(es) => forall|i: int| 0 <= i < es.len() ==> json_writable(#[trigger] es[i].1),
        _ => true,
    }
}

/// A character a written value can begin with.
pub open spec fn value_start(c: char) -> bool {
    c == 'n' || c == 't' || c == 'f' || c == '-' || is_dec(c) || c == '"' || c == '[' || c == '{'
}

/// A character a written value can end with.
pub open spec fn value_last(c: char) -> bool {
    c == 'l' || c == 'e' || is_dec(c) || c == '"' || c == ']' || c == '}'
}

proof fn lemma_number_edges(m: int, s: nat)
    ensures
        number_text(m, s).len() > 0,
        value_start(number_text(m, s)[0]),
        value_last(number_text(m, s).last()),
{
    let a: nat = if m < 0 { (-m) as nat } else { m as nat };
    let nd = nat_digits(a);
    lemma_dec_nat_digits(a);
    let sign = if m < 0 { seq!['-'] } else { Seq::<char>::empty() };
    let t = number_text(m, s);
    if s == 0 {
        assert(t == sign + nd);
        assert(is_dec(nd[0]));
        assert(is_dec(nd[nd.len() - 1]));
    } else {
        let padded = if nd.len() < s + 1 { zeros((s + 1 - nd.len()) as nat) + nd } else { nd };
        let il = padded.len() - s;
        assert(t == sign + padded.take(il) + seq!['.'] + padded.skip(il));
        assert(forall|j: int| 0 <= j < padded.len() ==> is_dec(#[trigger] padded[j])) by {
            assert forall|j: int| 0 <= j < padded.len() implies is_dec(#[trigger] padded[j]) by {
                if nd.len() < s + 1 {
                    let z = (s + 1 - nd.len()) as int;
                    if j >= z {
                        assert(padded[j] == nd[j - z]);
                    }
                }
            }
        }
        assert(is_dec(padded[0]));
        assert(t.last() == padded[padded.len() - 1]);
    }
}

proof fn lemma_text_edges(v: JView)
    ensures
        json_text(v).len() > 0,
        value_start(json_text(v)[0]),
        value_last(json_text(v).last()),
{
    reveal_strlit("null");
    reveal_strlit("true");
    reveal_strlit("false");
    match v {
        JView::Number(m, s) => lemma_number_edges(m, s),
        _ => {},
    }
}

/// `a` then `b` at `p` is `a` at `p` and `b` just after it.
proof fn lemma_split(cs: Seq<char>, p: int, a: Seq<char>, b: Seq<char>)
    requires
        0 <= p,
        p + a.len() + b.len() <= cs.len(),
        cs.subrange(p, p + a.len() + b.len()) == a + b,
    ensures
        cs.subrange(p, p + a.len()) == a,
        cs.subrange(p + a.len(), p + a.len() + b.len()) == b,
{
    assert forall|j: int| 0 <= j < a.len() implies cs.subrange(p, p + a.len())[j] == a[j] by {
        assert(cs.subrange(p, p + a.len() + b.len())[j] == (a + b)[j]);
    }
    assert forall|j: int| 0 <= j < b.len() implies cs.subrange(p + a.len(), p + a.len() + b.len())[j] == b[j] by {
        let k = a.len() + j;
        assert(cs.subrange(p, p + a.len() + b.len())[k] == (a + b)[k]);
        assert(cs.subrange(p, p + a.len() + b.len())[k] == cs[p + k]);
        assert((a + b)[k] == b[j]);
        assert(cs.subrange(p + a.len(), p + a.len() + b.len())[j] == cs[p + a.len() + j]);
    }
    assert(cs.subrange(p, p + a.len()) =~= a);
    assert(cs.subrange(p + a.len(), p + a.len() + b.len()) =~= b);
}

proof fn lemma_items_text_cons(s: Seq<JView>)
    requires
        s.len() >= 2,
    ensures
        items_text(s) == json_text(s[0]) + seq![','] + items_text(s.drop_first()),
    decreases s.len(),
{
    if s.len() == 2 {
        assert(s.drop_last() =~= seq![s[0]]);
        assert(s.drop_first() =~= seq![s[1]]);
        assert(items_text(s.drop_last()) == json_text(s[0]));
        assert(items_text(s.drop_first()) == json_text(s[1]));
        assert(items_text(s) =~= json_text(s[0]) + seq![','] + items_text(s.drop_first()));
    } else {
        lemma_items_text_cons(s.drop_last());
        assert(s.drop_last().drop_first() =~= s.drop_first().drop_last());
        assert(s.drop_first().last() == s.last());
        assert(s.drop_last()[0] == s[0]);
        assert(items_text(s) =~= json_text(s[0]) + seq![','] + items_text(s.drop_first()));
    }
}

proof fn lemma_entries_text_cons(s: Seq<(Seq<char>, JView)>)
    requires
        s.len() >= 2,
    ensures
        entries_text(s) == quoted(s[0].0) + seq![':'] + json_text(s[0].1) + seq![','] + entries_text(s.drop_first()),
    decreases s.len(),
{
    if s.len() == 2 {
        assert(s.drop_last() =~= seq![s[0]]);
        assert(s.drop_first() =~= seq![s[1]]);
        assert(entries_text(s.drop_last()) == quoted(s[0].0) + seq![':'] + json_text(s[0].1));
        assert(entries_text(s.drop_first()) == quoted(s[1].0) + seq![':'] + json_text(s[1].1));
        assert(entries_text(s) =~= quoted(s[0].0) + seq![':'] + json_text(s[0].1) + seq![','] + entries_text(s.drop_first()));
    } else {
        lemma_entries_text_cons(s.drop_last());
        assert(s.drop_last().drop_first() =~= s.drop_first().drop_last());
        assert(s.drop_first().last() == s.last());
        assert(s.drop_last()[0] == s[0]);
        assert(entries_text(s) =~= quoted(s[0].0) + seq![':'] + json_text(s[0].1) + seq![','] + entries_text(s.drop_first()));
    }
}

/// A written value, followed by the end of the text or a separator, reads back as itself.
proof fn lemma_value_written(cs: Seq<char>, p: int, v: JView)
    requires
        json_writable(v),
        0 <= p,
        p + json_text(v).len() <= cs.len(),
        cs.subrange(p, p + json_text(v).len()) == json_text(v),
        ends_token(cs, p + json_text(v).len()),
    ensures
        value_at(cs, p) == Some((v, p + json_text(v).len())),
    decreases v, 1int,
{
    let t = json_text(v);
    lemma_text_edges(v);
    assert(cs[p] == t[0]) by {
        assert(cs.subrange(p, p + t.len())[0] == t[0]);
    }
    assert(ws_end(cs, p) == p);
    match v {
        JView::Null => {
            reveal_strlit("null");
            assert(t == "null"@);
            assert(cs[p] == 'n');
            assert(literal_spec(cs, p, "null"@, JView::Null) == Some((JView::Null, p + 4)));
            assert(p + t.len() == p + 4);
            assert(value_at(cs, p) == literal_spec(cs, p, "null"@, JView::Null));
        },
        JView::Bool(b) => {
            reveal_strlit("true");
            reveal_strlit("false");
            if b {
                assert(cs[p] == 't');
                assert(literal_spec(cs, p, "true"@, JView::Bool(true)) == Some((v, p + 4)));
            } else {
                assert(cs[p] == 'f');
                assert(literal_spec(cs, p, "false"@, JView::Bool(false)) == Some((v, p + 5)));
            }
        },
        JView::Number(m, s) => {
            lemma_number_written(cs, p, m, s);
        },
        JView::Str(x) => {
            assert(t =~= seq!['"'] + (escape_text(x) + seq!['"']));
            lemma_split(cs, p, seq!['"'], escape_text(x) + seq!['"']);
            lemma_split(cs, p + 1, escape_text(x), seq!['"']);
            assert(cs[p + 1 + escape_text(x).len()] == '"') by {
                assert(cs.subrange(p + 1 + escape_text(x).len(), p + 2 + escape_text(x).len())[0] == '"');
            }
            lemma_str_body_escaped(cs, p + 1, x);
        },
        JView::Array(items) => {
            lemma_array_written(cs, p, items);
        },
        JView::Object(es) => {
            lemma_object_written(cs, p, es);
        },
    }
}

proof fn lemma_array_written(cs: Seq<char>, p: int, items: Seq<JView>)
    requires
        json_writable(JView::Array(items)),
        0 <= p,
        p + json_text(JView::Array(items)).len() <= cs.len(),
        cs.subrange(p, p + json_text(JView::Array(items)).len()) == json_text(JView::Array(items)),
        ends_token(cs, p + json_text(JView::Array(items)).len()),
    ensures
        value_at(cs, p) == Some((JView::Array(items), p + json_text(JView::Array(items)).len())),
    decreases items, 1int,
{
    let v = JView::Array(items);
    let t = json_text(v);
    assert(cs[p] == t[0]) by {
        assert(cs.subrange(p, p + t.len())[0] == t[0]);
    }
    assert(ws_end(cs, p) == p);
    assert(t =~= seq!['['] + (items_text(items) + seq![']']));
    lemma_split(cs, p, seq!['['], items_text(items) + seq![']']);
    lemma_split(cs, p + 1, items_text(items), seq![']']);
    let n = items_text(items).len() as int;
    assert(cs[p + 1 + n] == ']') by {
        assert(cs.subrange(p + 1 + n, p + 2 + n)[0] == ']');
    }
    assert(t.len() == n + 2);
    if items.len() == 0 {
        assert(n == 0);
        assert(items =~= Seq::<JView>::empty());
        assert(ws_end(cs, p + 1) == p + 1);
        assert(crate::json_parse::array_at(cs, p) == Some((v, p + 2)));
    } else {
        lemma_items_written(cs, p + 1, items);
        lemma_items_first(items);
        lemma_text_edges(items[0]);
        assert(cs[p + 1] == items_text(items)[0]) by {
            assert(cs.subrange(p + 1, p + 1 + n)[0] == items_text(items)[0]);
        }
        assert(value_start(cs[p + 1]));
        assert(!json_ws(cs[p + 1]));
        assert(ws_end(cs, p + 1) == p + 1);
        assert(crate::json_parse::array_at(cs, p) == Some((v, p + n + 2)));
    }
    assert(value_at(cs, p) == crate::json_parse::array_at(cs, p));
    assert(value_at(cs, p) == Some((v, p + t.len())));
}

proof fn lemma_object_written(cs: Seq<char>, p: int, es: Seq<(Seq<char>, JView)>)
    requires
        json_writable(JView::Object(es)),
        0 <= p,
        p + json_text(JView::Object(es)).len() <= cs.len(),
        cs.subrange(p, p + json_text(JView::Object(es)).len()) == json_text(JView::Object(es)),
        ends_token(cs, p + json_text(JView::Object(es)).len()),
    ensures
        value_at(cs, p) == Some((JView::Object(es), p + json_text(JView::Object(es)).len())),
    decreases es, 1int,
{
    let v = JView::Object(es);
    let t = json_text(v);
    assert(cs[p] == t[0]) by {
        assert(cs.subrange(p, p + t.len())[0] == t[0]);
    }
    assert(ws_end(cs, p) == p);
    assert(t =~= seq!['{'] + (entries_text(es) + seq!['}']));
    lemma_split(cs, p, seq!['{'], entries_text(es) + seq!['}']);
    lemma_split(cs, p + 1, entries_text(es), seq!['}']);
    let n = entries_text(es).len() as int;
    assert(cs[p + 1 + n] == '}') by {
        assert(cs.subrange(p + 1 + n, p + 2 + n)[0] == '}');
    }
    assert(t.len() == n + 2);
    if es.len() == 0 {
        assert(n == 0);
        assert(es =~= Seq::<(Seq<char>, JView)>::empty());
        assert(ws_end(cs, p + 1) == p + 1);
        assert(crate::json_parse::object_at(cs, p) == Some((v, p + 2)));
    } else {
        lemma_entries_written(cs, p + 1, es);
        lemma_entries_first(es);
        assert(cs[p + 1] == entries_text(es)[0]) by {
            assert(cs.subrange(p + 1, p + 1 + n)[0] == entries_text(es)[0]);
        }
        assert(ws_end(cs, p + 1) == p + 1);
        assert(crate::json_parse::object_at(cs, p) == Some((v, p + n + 2)));
    }
    assert(value_at(cs, p) == crate::json_parse::object_at(cs, p));
    assert(value_at(cs, p) == Some((v, p + t.len())));
}

proof fn lemma_items_first(items: Seq<JView>)
    requires
        items.len() > 0,
    ensures
        items_text(items).len() > 0,
        items_text(items)[0] == json_text(items[0])[0],
{
    lemma_text_edges(items[0]);
    if items.len() >= 2 {
        lemma_items_text_cons(items);
    }
}

proof fn lemma_entries_first(es: Seq<(Seq<char>, JView)>)
    requires
        es.len() > 0,
    ensures
        entries_text(es).len() > 0,
        entries_text(es)[0] == '"',
{
    if es.len() >= 2 {
        lemma_entries_text_cons(es);
    }
}

/// Written array elements, followed by `]`, read back as themselves.
proof fn lemma_items_written(cs: Seq<char>, p: int, items: Seq<JView>)
    requires
        items.len() > 0,
        forall|i: int| 0 <= i < items.len() ==> json_writable(#[trigger] items[i]),
        0 <= p,
        p + items_text(items).len() < cs.len(),
        cs.subrange(p, p + items_text(items).len()) == items_text(items),
        cs[p + items_text(items).len()] == ']',
    ensures
        elements_at(cs, p) == Some((items, p + items_text(items).len() + 1)),
    decreases items, 0int,
{
    let first = items[0];
    let jt = json_text(first);
    let q = p + jt.len();
    assert(json_writable(first));
    if items.len() == 1 {
        assert(items_text(items) == jt);
        lemma_value_written(cs, p, first);
        assert(seq![first] =~= items);
    } else {
        let rest = items.drop_first();
        lemma_items_text_cons(items);
        assert(items_text(items) =~= jt + (seq![','] + items_text(rest)));
        lemma_split(cs, p, jt, seq![','] + items_text(rest));
        lemma_split(cs, q, seq![','], items_text(rest));
        assert(cs[q] == ',') by {
            assert(cs.subrange(q, q + 1)[0] == ',');
        }
        lemma_value_written(cs, p, first);
        assert forall|i: int| 0 <= i < rest.len() implies json_writable(#[trigger] rest[i]) by {
            assert(rest[i] == items[i + 1]);
        }
        lemma_items_written(cs, q + 1, rest);
        assert(seq![first] + rest =~= items);
    }
}

/// Written object members, followed by `}`, read back as themselves.
proof fn lemma_entries_written(cs: Seq<char>, p: int, es: Seq<(Seq<char>, JView)>)
    requires
        es.len() > 0,
        forall|i: int| 0 <= i < es.len() ==> json_writable(#[trigger] es[i].1),
        0 <= p,
        p + entries_text(es).len() < cs.len(),
        cs.subrange(p, p + entries_text(es).len()) == entries_text(es),
        cs[p + entries_text(es).len()] == '}',
    ensures
        members_at(cs, p) == Some((es, p + entries_text(es).len() + 1)),
    decreases es, 0int,
{
    let (k, v) = es[0];
    let qk = quoted(k);
    let jt = json_text(v);
    let head = qk + seq![':'] + jt;
    assert(json_writable(v));
    let tail = if es.len() == 1 { Seq::<char>::empty() } else { seq![','] + entries_text(es.drop_first()) };
    assert(entries_text(es) == head + tail) by {
        if es.len() == 1 {
            assert(entries_text(es) =~= head + tail);
        } else {
            lemma_entries_text_cons(es);
            assert(entries_text(es) =~= head + tail);
        }
    }
    lemma_split(cs, p, head, tail);
    lemma_split(cs, p, qk + seq![':'], jt);
    lemma_split(cs, p, qk, seq![':']);
    assert(qk =~= seq!['"'] + (escape_text(k) + seq!['"']));
    lemma_split(cs, p, seq!['"'], escape_text(k) + seq!['"']);
    lemma_split(cs, p + 1, escape_text(k), seq!['"']);
    let ek = escape_text(k).len() as int;
    assert(cs[p] == '"') by {
        assert(cs.subrange(p, p + 1)[0] == '"');
    }
    assert(cs[p + 1 + ek] == '"') by {
        assert(cs.subrange(p + 1 + ek, p + 2 + ek)[0] == '"');
    }
    lemma_str_body_escaped(cs, p + 1, k);
    let q = p + qk.len();
    assert(cs[q] == ':') by {
        assert(cs.subrange(q, q + 1)[0] == ':');
    }
    assert(ws_end(cs, p) == p);
    assert(ws_end(cs, q) == q);
    let q3 = q + 1 + jt.len();
    if es.len() == 1 {
        assert(cs[q3] == '}');
        lemma_value_written(cs, q + 1, v);
        assert(ws_end(cs, q3) == q3);
        assert(seq![(k, v)] =~= es);
    } else {
        let rest = es.drop_first();
        lemma_split(cs, q3, seq![','], entries_text(rest));
        assert(cs[q3] == ',') by {
            assert(cs.subrange(q3, q3 + 1)[0] == ',');
        }
        lemma_value_written(cs, q + 1, v);
        assert(ws_end(cs, q3) == q3);
        assert forall|i: int| 0 <= i < rest.len() implies json_writable(#[trigger] rest[i].1) by {
            assert(rest[i] == es[i + 1]);
        }
        lemma_entries_written(cs, q3 + 1, rest);
        assert(seq![(k, v)] + rest =~= es);
    }
}

/// What the writer writes, the reader reads back: the JSON text of a value (whose numbers are
/// in normal form and within the reader's range) parses as that value.
pub proof fn law_json_round_trip(v: JView)
    requires
        json_writable(v),
    ensures
        json_read(json_text(v)) == Some(v),
{
    let t = json_text(v);
    lemma_text_edges(v);
    assert(trim_start(t) == t);
    assert(trim_end(t) == t);
    assert(trim(t) == t);
    assert(t.subrange(0, t.len() as int) =~= t);
    lemma_value_written(t, 0, v);
}

} // verus!
